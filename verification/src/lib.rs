//! A minimal HTTP/1.1 request engine: a parser from an untrusted byte buffer to
//! a structured request, a router from a request to a response strategy, and
//! the rendering of each strategy as response bytes.
//!
//! Every function is verified against a mathematical model: texts are
//! sequences of characters, header tables are maps, responses are sequences of
//! bytes.
pub mod text;
pub mod decimal;
pub mod string_map;
pub mod request;
pub mod router;
pub mod response;
pub mod flags;
pub mod errors;
pub mod theorems;
