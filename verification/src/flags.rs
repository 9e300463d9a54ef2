//! Command-line flags of the form `--name value`.
use vstd::prelude::*;
use vstd::slice::slice_subrange;
use crate::string_map::StringMap;
use crate::text::{chars_of, text_of};

verus! {

/// Whether an argument is a flag: it begins with two hyphens.
pub open spec fn is_flag(arg: Seq<char>) -> bool {
    arg.len() >= 2 && arg[0] == '-' && arg[1] == '-'
}

/// The name of a flag: the argument without any pairs of hyphens that lead it.
pub open spec fn flag_name(arg: Seq<char>) -> Seq<char>
    decreases arg.len(),
{
    if is_flag(arg) {
        flag_name(arg.skip(2))
    } else {
        arg
    }
}

/// The arguments as contracts see them.
pub open spec fn texts(args: Seq<String>) -> Seq<Seq<char>> {
    Seq::new(args.len(), |i: int| args[i]@)
}

/// The flags among the first `upto` arguments: each argument that is a flag
/// and has a successor binds its name to that successor, a later binding
/// replacing an earlier one of the same name.
pub open spec fn flags_spec(args: Seq<Seq<char>>, upto: int) -> Map<Seq<char>, Seq<char>>
    decreases upto,
{
    if upto <= 0 {
        Map::empty()
    } else if is_flag(args[upto - 1]) && upto < args.len() {
        flags_spec(args, upto - 1).insert(flag_name(args[upto - 1]), args[upto])
    } else {
        flags_spec(args, upto - 1)
    }
}

/// The name of a flag, or the argument itself where it is none.
pub fn name_of(arg: &[char]) -> (r: &[char])
    ensures
        r@ == flag_name(arg@),
{
    let mut from: usize = 0;
    assert(arg@.skip(0) =~= arg@);
    while arg.len() - from >= 2 && arg[from] == '-' && arg[from + 1] == '-'
        invariant
            from <= arg.len(),
            flag_name(arg@) == flag_name(arg@.skip(from as int)),
        decreases arg.len() - from,
    {
        assert(arg@.skip(from as int).skip(2) =~= arg@.skip(from + 2));
        from += 2;
    }
    slice_subrange(arg, from, arg.len())
}

/// Reads the flags from the arguments of a program. An argument that begins
/// with two hyphens names a flag, and the argument after it is the flag's
/// value; a flag in the last place has no value and is left out.
pub fn parse_flags(args: &[String]) -> (flags: StringMap)
    ensures
        flags@ == flags_spec(texts(args@), args@.len() as int),
{
    let mut flags = StringMap::new();
    let mut i: usize = 0;
    while i < args.len()
        invariant
            i <= args.len(),
            flags@ == flags_spec(texts(args@), i as int),
        decreases args.len() - i,
    {
        let arg = chars_of(args[i].as_str());
        let is_flag = arg.len() >= 2 && arg[0] == '-' && arg[1] == '-';
        if is_flag && i + 1 < args.len() {
            let name = text_of(name_of(arg.as_slice()));
            let value = args[i + 1].clone();
            flags.insert(name, value);
        }
        i += 1;
    }
    flags
}

/// The directory to serve files from: what the flag `directory` names, or
/// `public` where the flag is not given.
pub open spec fn directory_spec(flags: Map<Seq<char>, Seq<char>>) -> Seq<char> {
    if flags.contains_key("directory"@) {
        flags["directory"@]
    } else {
        "public"@
    }
}

/// The directory to serve files from.
pub fn directory_of(flags: &StringMap) -> (r: String)
    ensures
        r@ == directory_spec(flags@),
{
    match flags.get("directory") {
        Some(directory) => directory.clone(),
        None => String::from_str("public"),
    }
}

} // verus!
