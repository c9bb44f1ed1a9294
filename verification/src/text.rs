//! Character-level helpers for building `String`s.
use vstd::prelude::*;
use vstd::string::StrSliceExecFns;

verus! {

/// `c` with an ASCII lower-case letter made upper-case.
pub open spec fn upper_char(c: char) -> char {
    if 'a' <= c <= 'z' {
        ((c as u32) - 32) as char
    } else {
        c
    }
}

/// `c` with an ASCII upper-case letter made lower-case.
pub open spec fn lower_char(c: char) -> char {
    if 'A' <= c <= 'Z' {
        ((c as u32) + 32) as char
    } else {
        c
    }
}

pub open spec fn map_upper(s: Seq<char>) -> Seq<char> {
    s.map_values(|c: char| upper_char(c))
}

pub open spec fn map_lower(s: Seq<char>) -> Seq<char> {
    s.map_values(|c: char| lower_char(c))
}

pub open spec fn is_digit_char(c: char) -> bool {
    '0' <= c <= '9'
}

pub fn to_upper(c: char) -> (r: char)
    ensures
        r == upper_char(c),
{
    if 'a' <= c && c <= 'z' {
        ((c as u8) - 32) as char
    } else {
        c
    }
}

pub fn to_lower(c: char) -> (r: char)
    ensures
        r == lower_char(c),
{
    if 'A' <= c && c <= 'Z' {
        ((c as u8) + 32) as char
    } else {
        c
    }
}

/// Calls `String::push`, which std documents as appending the character to
/// the end of the string; the contract states just that: the text after the
/// call is the text before it followed by `c`.
#[verifier::external_body]
pub(crate) fn push_char(s: &mut String, c: char)
    ensures
        final(s)@ == old(s)@.push(c),
{
    s.push(c)
}

/// Appends `s` to `buf`.
pub fn push_str(buf: &mut String, s: &str)
    ensures
        final(buf)@ == old(buf)@ + s@,
{
    let n = s.unicode_len();
    let mut j: usize = 0;
    while j < n
        invariant
            n == s@.len(),
            j <= n,
            buf@ == old(buf)@ + s@.take(j as int),
        decreases n - j,
    {
        let c = s.get_char(j);
        push_char(buf, c);
        assert(s@.take(j as int + 1) == s@.take(j as int).push(c));
        j += 1;
    }
    assert(s@.take(n as int) == s@);
}

/// Appends `s` with ASCII letters made upper-case.
pub fn push_upper(buf: &mut String, s: &str)
    ensures
        final(buf)@ == old(buf)@ + map_upper(s@),
{
    let n = s.unicode_len();
    let mut j: usize = 0;
    while j < n
        invariant
            n == s@.len(),
            j <= n,
            buf@ == old(buf)@ + map_upper(s@.take(j as int)),
        decreases n - j,
    {
        let c = s.get_char(j);
        push_char(buf, to_upper(c));
        assert(map_upper(s@.take(j as int + 1)) =~= map_upper(s@.take(j as int)).push(upper_char(c)));
        j += 1;
    }
    assert(s@.take(n as int) == s@);
}

/// Appends `s` with ASCII letters made lower-case.
pub fn push_lower(buf: &mut String, s: &str)
    ensures
        final(buf)@ == old(buf)@ + map_lower(s@),
{
    let n = s.unicode_len();
    let mut j: usize = 0;
    while j < n
        invariant
            n == s@.len(),
            j <= n,
            buf@ == old(buf)@ + map_lower(s@.take(j as int)),
        decreases n - j,
    {
        let c = s.get_char(j);
        push_char(buf, to_lower(c));
        assert(map_lower(s@.take(j as int + 1)) =~= map_lower(s@.take(j as int)).push(lower_char(c)));
        j += 1;
    }
    assert(s@.take(n as int) == s@);
}

} // verus!
