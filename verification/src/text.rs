//! Character-level building blocks: whitespace, words, trimming and line
//! breaks, each as a specification over `Seq<char>` and as an executable
//! function over `&[char]` proved equal to it.
use vstd::prelude::*;
use vstd::slice::slice_subrange;
use vstd::utf8::{encode_scalar, encode_utf8, is_scalar};

verus! {

/// `String::push` of the standard library: the string afterwards is the string
/// before with the character appended at its end. Believed, not proved.
pub assume_specification[ String::push ](s: &mut String, c: char)
    ensures
        final(s)@ == old(s)@.push(c),
;

/// The characters with the Unicode property `White_Space`.
pub open spec fn is_whitespace(c: char) -> bool {
    let n = c as u32;
    ||| 0x09 <= n <= 0x0D
    ||| n == 0x20
    ||| n == 0x85
    ||| n == 0xA0
    ||| n == 0x1680
    ||| 0x2000 <= n <= 0x200A
    ||| n == 0x2028
    ||| n == 0x2029
    ||| n == 0x202F
    ||| n == 0x205F
    ||| n == 0x3000
}

/// The first index at or after `from` that holds no whitespace, or the end.
pub open spec fn skip_whitespace(s: Seq<char>, from: int) -> int
    decreases s.len() - from,
{
    if 0 <= from < s.len() && is_whitespace(s[from]) {
        skip_whitespace(s, from + 1)
    } else {
        from
    }
}

/// The first index at or after `from` that holds whitespace, or the end.
pub open spec fn skip_word(s: Seq<char>, from: int) -> int
    decreases s.len() - from,
{
    if 0 <= from < s.len() && !is_whitespace(s[from]) {
        skip_word(s, from + 1)
    } else {
        from
    }
}

/// Where the `k`-th whitespace-delimited word of `s` begins, counting from 0;
/// the length of `s` where it has no such word.
pub open spec fn word_start(s: Seq<char>, k: nat) -> int
    decreases k,
{
    if k == 0 {
        skip_whitespace(s, 0)
    } else {
        skip_whitespace(s, skip_word(s, word_start(s, (k - 1) as nat)))
    }
}

/// One past the last character of the `k`-th word of `s`.
pub open spec fn word_end(s: Seq<char>, k: nat) -> int {
    skip_word(s, word_start(s, k))
}

/// Whether `s` has more than `k` whitespace-delimited words.
pub open spec fn has_word(s: Seq<char>, k: nat) -> bool {
    word_start(s, k) < s.len()
}

/// The `k`-th whitespace-delimited word of `s`.
pub open spec fn word(s: Seq<char>, k: nat) -> Seq<char> {
    s.subrange(word_start(s, k), word_end(s, k))
}

/// The least index `t <= to` such that everything from `t` up to `to` is
/// whitespace.
pub open spec fn skip_whitespace_back(s: Seq<char>, to: int) -> int
    decreases to,
{
    if 0 < to <= s.len() && is_whitespace(s[to - 1]) {
        skip_whitespace_back(s, to - 1)
    } else {
        to
    }
}

/// `s` without its leading and trailing whitespace.
pub open spec fn trim(s: Seq<char>) -> Seq<char> {
    let a = skip_whitespace(s, 0);
    let b = skip_whitespace_back(s, s.len() as int);
    if a < b {
        s.subrange(a, b)
    } else {
        Seq::empty()
    }
}

/// Whether a line break, a carriage return and then a line feed, begins at `i`.
pub open spec fn line_break_at(s: Seq<char>, i: int) -> bool {
    0 <= i && i + 1 < s.len() && s[i] == '\r' && s[i + 1] == '\n'
}

/// The first index at or after `from` where a line break begins, or the end.
pub open spec fn line_end(s: Seq<char>, from: int) -> int
    decreases s.len() - from,
{
    if from >= s.len() {
        s.len() as int
    } else if line_break_at(s, from) {
        from
    } else {
        line_end(s, from + 1)
    }
}

/// The first index at or after `from` that holds `c`, or the end.
pub open spec fn index_of_char(s: Seq<char>, c: char, from: int) -> int
    decreases s.len() - from,
{
    if from >= s.len() {
        s.len() as int
    } else if 0 <= from && s[from] == c {
        from
    } else {
        index_of_char(s, c, from + 1)
    }
}

/// Whether `c` is whitespace.
pub fn char_is_whitespace(c: char) -> (b: bool)
    ensures
        b == is_whitespace(c),
{
    let n: u32 = c as u32;
    (0x09 <= n && n <= 0x0D) || n == 0x20 || n == 0x85 || n == 0xA0 || n == 0x1680 || (0x2000 <= n
        && n <= 0x200A) || n == 0x2028 || n == 0x2029 || n == 0x202F || n == 0x205F || n == 0x3000
}

/// The characters of a string, in order.
pub fn chars_of(s: &str) -> (v: Vec<char>)
    ensures
        v@ == s@,
{
    let mut v: Vec<char> = Vec::new();
    for c in it: s.chars()
        invariant
            it.seq() == s@,
            v@ == it.history(),
    {
        v.push(c);
    }
    assert(v@ =~= s@);
    v
}

/// The string made of the given characters, in order.
pub fn text_of(chars: &[char]) -> (s: String)
    ensures
        s@ == chars@,
{
    let mut s = String::new();
    let mut i: usize = 0;
    while i < chars.len()
        invariant
            i <= chars.len(),
            s@ == chars@.subrange(0, i as int),
        decreases chars.len() - i,
    {
        s.push(chars[i]);
        i += 1;
    }
    assert(chars@.subrange(0, i as int) =~= chars@);
    s
}

/// The first index at or after `from` that holds no whitespace, or the end.
pub fn scan_whitespace(s: &[char], from: usize) -> (r: usize)
    ensures
        r == skip_whitespace(s@, from as int),
        from <= r,
        from <= s.len() ==> r <= s.len(),
{
    let mut i: usize = from;
    while i < s.len() && char_is_whitespace(s[i])
        invariant
            from <= i,
            from <= s.len() ==> i <= s.len(),
            skip_whitespace(s@, from as int) == skip_whitespace(s@, i as int),
        decreases s.len() - i,
    {
        i += 1;
    }
    i
}

/// The first index at or after `from` that holds whitespace, or the end.
pub fn scan_word(s: &[char], from: usize) -> (r: usize)
    ensures
        r == skip_word(s@, from as int),
        from <= r,
        from <= s.len() ==> r <= s.len(),
{
    let mut i: usize = from;
    while i < s.len() && !char_is_whitespace(s[i])
        invariant
            from <= i,
            from <= s.len() ==> i <= s.len(),
            skip_word(s@, from as int) == skip_word(s@, i as int),
        decreases s.len() - i,
    {
        i += 1;
    }
    i
}

/// The least index from which everything up to `to` is whitespace.
pub fn scan_whitespace_back(s: &[char], to: usize) -> (r: usize)
    ensures
        r == skip_whitespace_back(s@, to as int),
        r <= to,
{
    let mut i: usize = to;
    while 0 < i && i <= s.len() && char_is_whitespace(s[i - 1])
        invariant
            i <= to,
            skip_whitespace_back(s@, to as int) == skip_whitespace_back(s@, i as int),
        decreases i,
    {
        i -= 1;
    }
    i
}

/// The part of `s` between its leading and its trailing whitespace.
pub fn trim_slice(s: &[char]) -> (r: &[char])
    ensures
        r@ == trim(s@),
{
    let a = scan_whitespace(s, 0);
    let b = scan_whitespace_back(s, s.len());
    if a < b {
        slice_subrange(s, a, b)
    } else {
        slice_subrange(s, 0, 0)
    }
}

/// The first index at or after `from` where a line break begins, or the end.
pub fn find_line_end(s: &[char], from: usize) -> (r: usize)
    ensures
        r == line_end(s@, from as int),
        r <= s.len(),
        from <= s.len() ==> from <= r,
        r < s.len() ==> line_break_at(s@, r as int),
{
    let mut i: usize = from;
    while i < s.len()
        invariant
            from <= i,
            line_end(s@, from as int) == line_end(s@, i as int),
        decreases s.len() - i,
    {
        if s[i] == '\r' && i + 1 < s.len() && s[i + 1] == '\n' {
            return i;
        }
        i += 1;
    }
    s.len()
}

/// The first index at or after `from` that holds `c`, or the end.
pub fn find_char(s: &[char], c: char, from: usize) -> (r: usize)
    ensures
        r == index_of_char(s@, c, from as int),
        r <= s.len(),
        from <= s.len() ==> from <= r,
        r < s.len() ==> s@[r as int] == c,
{
    let mut i: usize = from;
    while i < s.len()
        invariant
            from <= i,
            index_of_char(s@, c, from as int) == index_of_char(s@, c, i as int),
        decreases s.len() - i,
    {
        if s[i] == c {
            return i;
        }
        i += 1;
    }
    s.len()
}

/// Whether two texts hold the same characters.
pub fn same_text(a: &[char], b: &[char]) -> (r: bool)
    ensures
        r == (a@ == b@),
{
    if a.len() != b.len() {
        return false;
    }
    let mut i: usize = 0;
    while i < a.len()
        invariant
            i <= a.len(),
            a.len() == b.len(),
            a@.subrange(0, i as int) == b@.subrange(0, i as int),
        decreases a.len() - i,
    {
        if a[i] != b[i] {
            return false;
        }
        assert(a@.subrange(0, i + 1) =~= a@.subrange(0, i as int).push(a@[i as int]));
        assert(b@.subrange(0, i + 1) =~= b@.subrange(0, i as int).push(b@[i as int]));
        i += 1;
    }
    assert(a@ =~= a@.subrange(0, i as int));
    assert(b@ =~= b@.subrange(0, i as int));
    true
}

/// Whether `s` begins with `prefix`.
pub fn starts_with(s: &[char], prefix: &[char]) -> (r: bool)
    ensures
        r == prefix@.is_prefix_of(s@),
{
    if s.len() < prefix.len() {
        return false;
    }
    same_text(slice_subrange(s, 0, prefix.len()), prefix)
}

/// How many bytes the UTF-8 encoding of `c` takes.
pub open spec fn utf8_width(c: char) -> int {
    encode_scalar(c as u32).len() as int
}

/// How many of the leading characters of `s` have room, together, in `n`
/// bytes of UTF-8.
pub open spec fn chars_within(s: Seq<char>, n: int) -> int
    decreases s.len(),
{
    if s.len() == 0 || utf8_width(s[0]) > n {
        0
    } else {
        1 + chars_within(s.drop_first(), n - utf8_width(s[0]))
    }
}

/// The longest prefix of `s` whose UTF-8 encoding takes no more than `n`
/// bytes: no character is cut in two.
pub open spec fn take_bytes(s: Seq<char>, n: int) -> Seq<char> {
    s.take(chars_within(s, n))
}

/// How many bytes the UTF-8 encoding of `c` takes.
pub fn char_width(c: char) -> (w: usize)
    ensures
        w == utf8_width(c),
        1 <= w <= 4,
{
    broadcast use vstd::utf8::char_is_scalar;

    let n: u32 = c as u32;
    assert(is_scalar(n));
    if n < 0x80 {
        1
    } else if n < 0x800 {
        2
    } else if n < 0x10000 {
        3
    } else {
        4
    }
}

/// The number of leading characters of `s` that fit into `n` bytes of UTF-8.
pub fn count_within(s: &[char], n: usize) -> (k: usize)
    ensures
        k == chars_within(s@, n as int),
        k <= s.len(),
{
    let mut i: usize = 0;
    let mut room: usize = n;
    assert(s@.skip(0) =~= s@);
    while i < s.len()
        invariant
            i <= s.len(),
            chars_within(s@, n as int) == i + chars_within(s@.skip(i as int), room as int),
        decreases s.len() - i,
    {
        let w = char_width(s[i]);
        assert(s@.skip(i as int)[0] == s@[i as int]);
        assert(s@.skip(i as int).drop_first() =~= s@.skip(i + 1));
        if w > room {
            return i;
        }
        room -= w;
        i += 1;
    }
    i
}

/// What `skip_whitespace` finds: everything it passes over is whitespace, and
/// it stops at the end or at a character that is none.
pub proof fn lemma_skip_whitespace(s: Seq<char>, from: int)
    requires
        0 <= from <= s.len(),
    ensures
        from <= skip_whitespace(s, from) <= s.len(),
        skip_whitespace(s, from) < s.len() ==> !is_whitespace(s[skip_whitespace(s, from)]),
        forall|j: int| from <= j < skip_whitespace(s, from) ==> is_whitespace(#[trigger] s[j]),
    decreases s.len() - from,
{
    if from < s.len() && is_whitespace(s[from]) {
        lemma_skip_whitespace(s, from + 1);
    }
}

/// What `skip_word` finds: nothing it passes over is whitespace, and it stops
/// at the end or at whitespace.
pub proof fn lemma_skip_word(s: Seq<char>, from: int)
    requires
        0 <= from <= s.len(),
    ensures
        from <= skip_word(s, from) <= s.len(),
        skip_word(s, from) < s.len() ==> is_whitespace(s[skip_word(s, from)]),
        forall|j: int| from <= j < skip_word(s, from) ==> !is_whitespace(#[trigger] s[j]),
        from < s.len() && !is_whitespace(s[from]) ==> from < skip_word(s, from),
    decreases s.len() - from,
{
    if from < s.len() && !is_whitespace(s[from]) {
        lemma_skip_word(s, from + 1);
    }
}

/// What `line_end` finds: no line break begins before it, and one begins at
/// it unless it is the end.
pub proof fn lemma_line_end(s: Seq<char>, from: int)
    requires
        0 <= from <= s.len(),
    ensures
        from <= line_end(s, from) <= s.len(),
        line_end(s, from) < s.len() ==> line_break_at(s, line_end(s, from)),
        forall|j: int| from <= j < line_end(s, from) ==> !line_break_at(s, j),
    decreases s.len() - from,
{
    if from < s.len() && !line_break_at(s, from) {
        lemma_line_end(s, from + 1);
    }
}

/// Where everything from `from` up to `at` is whitespace and `at` is the end
/// or holds none, `skip_whitespace` stops at `at`.
pub proof fn lemma_skip_whitespace_found(s: Seq<char>, from: int, at: int)
    requires
        0 <= from <= at <= s.len(),
        forall|j: int| from <= j < at ==> is_whitespace(#[trigger] s[j]),
        at < s.len() ==> !is_whitespace(s[at]),
    ensures
        skip_whitespace(s, from) == at,
    decreases at - from,
{
    if from < at {
        lemma_skip_whitespace_found(s, from + 1, at);
    }
}

/// Where nothing from `from` up to `at` is whitespace and `at` is the end or
/// holds whitespace, `skip_word` stops at `at`.
pub proof fn lemma_skip_word_found(s: Seq<char>, from: int, at: int)
    requires
        0 <= from <= at <= s.len(),
        forall|j: int| from <= j < at ==> !is_whitespace(#[trigger] s[j]),
        at < s.len() ==> is_whitespace(s[at]),
    ensures
        skip_word(s, from) == at,
    decreases at - from,
{
    if from < at {
        lemma_skip_word_found(s, from + 1, at);
    }
}

/// Where everything from `at` up to `to` is whitespace and `at` is the start
/// or follows a character that is none, `skip_whitespace_back` stops at `at`.
pub proof fn lemma_skip_whitespace_back_found(s: Seq<char>, to: int, at: int)
    requires
        0 <= at <= to <= s.len(),
        forall|j: int| at <= j < to ==> is_whitespace(#[trigger] s[j]),
        0 < at ==> !is_whitespace(s[at - 1]),
    ensures
        skip_whitespace_back(s, to) == at,
    decreases to - at,
{
    if at < to {
        lemma_skip_whitespace_back_found(s, to - 1, at);
    }
}

/// Where no line break begins from `from` up to `at` and one begins at `at`
/// unless it is the end, `line_end` stops at `at`.
pub proof fn lemma_line_end_found(s: Seq<char>, from: int, at: int)
    requires
        0 <= from <= at <= s.len(),
        forall|j: int| from <= j < at ==> !line_break_at(s, j),
        at < s.len() ==> line_break_at(s, at),
    ensures
        line_end(s, from) == at,
    decreases at - from,
{
    if from < at {
        lemma_line_end_found(s, from + 1, at);
    }
}

/// Where `c` does not occur from `from` up to `at` and occurs at `at` unless
/// it is the end, `index_of_char` stops at `at`.
pub proof fn lemma_index_of_char_found(s: Seq<char>, c: char, from: int, at: int)
    requires
        0 <= from <= at <= s.len(),
        forall|j: int| from <= j < at ==> s[j] != c,
        at < s.len() ==> s[at] == c,
    ensures
        index_of_char(s, c, from) == at,
    decreases at - from,
{
    if from < at {
        lemma_index_of_char_found(s, c, from + 1, at);
    }
}

/// Whether `s` holds whitespace only.
pub open spec fn all_whitespace(s: Seq<char>) -> bool {
    forall|i: int| 0 <= i < s.len() ==> is_whitespace(#[trigger] s[i])
}

/// Whether `s` is a word: not empty, and without whitespace.
pub open spec fn is_word(s: Seq<char>) -> bool {
    s.len() > 0 && forall|i: int| 0 <= i < s.len() ==> !is_whitespace(#[trigger] s[i])
}

/// Whether `s` neither begins nor ends with whitespace.
pub open spec fn is_trimmed(s: Seq<char>) -> bool {
    s.len() > 0 ==> !is_whitespace(s.first()) && !is_whitespace(s.last())
}

/// Trimming takes away the whitespace around a text that has none at its own
/// ends, and nothing else.
pub proof fn lemma_trim_padded(before: Seq<char>, core: Seq<char>, after: Seq<char>)
    requires
        all_whitespace(before),
        all_whitespace(after),
        is_trimmed(core),
    ensures
        trim(before + core + after) == core,
{
    let s = before + core + after;
    let a = before.len() as int;
    let b = a + core.len();
    if core.len() == 0 {
        assert forall|j: int| 0 <= j < s.len() implies is_whitespace(#[trigger] s[j]) by {
            if j < a {
                assert(s[j] == before[j]);
            } else {
                assert(s[j] == after[j - a]);
            }
        }
        lemma_skip_whitespace_found(s, 0, s.len() as int);
        lemma_skip_whitespace_back_found(s, s.len() as int, 0);
        assert(core =~= Seq::<char>::empty());
    } else {
        assert forall|j: int| 0 <= j < a implies is_whitespace(#[trigger] s[j]) by {
            assert(s[j] == before[j]);
        }
        assert forall|j: int| b <= j < s.len() implies is_whitespace(#[trigger] s[j]) by {
            assert(s[j] == after[j - b]);
        }
        assert(s[a] == core[0]);
        assert(s[b - 1] == core[core.len() - 1]);
        lemma_skip_whitespace_found(s, 0, a);
        lemma_skip_whitespace_back_found(s, s.len() as int, b);
        assert(s.subrange(a, b) =~= core);
    }
}

/// Trimming changes nothing in a text without whitespace at its ends.
pub proof fn lemma_trim_trimmed(s: Seq<char>)
    requires
        is_trimmed(s),
    ensures
        trim(s) == s,
{
    lemma_trim_padded(Seq::empty(), s, Seq::empty());
    assert(Seq::<char>::empty() + s + Seq::<char>::empty() =~= s);
}

/// What `take_bytes` keeps: a prefix whose UTF-8 encoding takes no more than
/// `n` bytes, the whole text where that fits, and otherwise what stops just
/// before the character that would go beyond.
pub proof fn lemma_take_bytes(s: Seq<char>, n: int)
    requires
        0 <= n,
    ensures
        0 <= chars_within(s, n) <= s.len(),
        take_bytes(s, n).is_prefix_of(s),
        encode_utf8(take_bytes(s, n)).len() <= n,
        encode_utf8(s).len() <= n ==> take_bytes(s, n) == s,
        chars_within(s, n) < s.len() ==> encode_utf8(take_bytes(s, n)).len() + utf8_width(
            s[chars_within(s, n)],
        ) > n,
    decreases s.len(),
{
    if s.len() == 0 || utf8_width(s[0]) > n {
        assert(s.take(0) =~= Seq::<char>::empty());
        assert(s.len() == 0 ==> s.take(0) =~= s);
    } else {
        let w = utf8_width(s[0]);
        let rest = s.drop_first();
        let k = chars_within(rest, n - w);
        lemma_take_bytes(rest, n - w);
        let kept = s.take(k + 1);
        assert(kept[0] == s[0]);
        assert(kept.drop_first() =~= rest.take(k));
        assert(encode_utf8(kept) == encode_scalar(s[0] as u32) + encode_utf8(rest.take(k)));
        if encode_utf8(s).len() <= n {
            assert(rest.take(k) == rest);
            assert(kept =~= s);
        }
        if k + 1 < s.len() {
            assert(rest[k] == s[k + 1]);
        }
    }
}

} // verus!
