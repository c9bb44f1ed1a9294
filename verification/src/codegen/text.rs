//! Text that the templates share: decimal numbers, lines, indentation, and
//! the identifier cases of names.
use crate::case::{spec_pascal, spec_scream, spec_snake};
use crate::ir::dom::EnumReprValue;
use crate::text::{push_char, push_str};
use vstd::prelude::*;
use vstd::utf8::encode_utf8;

verus! {

/// The decimal digit `d`.
pub open spec fn digit(d: nat) -> char {
    (48 + d) as char
}

/// The decimal representation of `n`, without leading zeros.
pub open spec fn decimal(n: nat) -> Seq<char>
    decreases n,
{
    if n < 10 {
        seq![digit(n)]
    } else {
        decimal(n / 10).push(digit(n % 10))
    }
}

/// The decimal representation of `v`, with a `-` when it is negative.
pub open spec fn signed_decimal(v: int) -> Seq<char> {
    if v < 0 {
        seq!['-'] + decimal((-v) as nat)
    } else {
        decimal(v as nat)
    }
}

/// The integer that an enum value holds.
pub open spec fn value_int(v: EnumReprValue) -> int {
    match v {
        EnumReprValue::I8(x) => x as int,
        EnumReprValue::I16(x) => x as int,
        EnumReprValue::I32(x) => x as int,
        EnumReprValue::I64(x) => x as int,
        EnumReprValue::U8(x) => x as int,
        EnumReprValue::U16(x) => x as int,
        EnumReprValue::U32(x) => x as int,
        EnumReprValue::U64(x) => x as int,
    }
}

/// Appends the decimal representation of `n`.
pub fn push_decimal(buf: &mut String, n: u64)
    ensures
        final(buf)@ == old(buf)@ + decimal(n as nat),
    decreases n,
{
    if n >= 10 {
        push_decimal(buf, n / 10);
    }
    let d = (n % 10) as u8;
    push_char(buf, (d + 48) as char);
    proof {
        assert(((d + 48) as char) == digit((n % 10) as nat));
    }
}

/// Appends the decimal representation of `v`, with a `-` when it is
/// negative.
pub fn push_signed(buf: &mut String, v: i128)
    requires
        -(u64::MAX as int) <= v <= u64::MAX,
    ensures
        final(buf)@ == old(buf)@ + signed_decimal(v as int),
{
    if v < 0 {
        push_char(buf, '-');
        push_decimal(buf, (-v) as u64);
        assert(final(buf)@ =~= old(buf)@ + signed_decimal(v as int));
    } else {
        push_decimal(buf, v as u64);
    }
}

/// Appends the integer that an enum value holds, in decimal.
pub fn push_value(buf: &mut String, v: EnumReprValue)
    ensures
        final(buf)@ == old(buf)@ + signed_decimal(value_int(v)),
{
    let x: i128 = match v {
        EnumReprValue::I8(x) => x as i128,
        EnumReprValue::I16(x) => x as i128,
        EnumReprValue::I32(x) => x as i128,
        EnumReprValue::I64(x) => x as i128,
        EnumReprValue::U8(x) => x as i128,
        EnumReprValue::U16(x) => x as i128,
        EnumReprValue::U32(x) => x as i128,
        EnumReprValue::U64(x) => x as i128,
    };
    push_signed(buf, x);
}

/// `n` tabs.
pub open spec fn tabs(n: nat) -> Seq<char>
    decreases n,
{
    if n == 0 {
        seq![]
    } else {
        tabs((n - 1) as nat).push('\t')
    }
}

pub fn push_tabs(buf: &mut String, n: usize)
    ensures
        final(buf)@ == old(buf)@ + tabs(n as nat),
{
    let mut i: usize = 0;
    while i < n
        invariant
            i <= n,
            buf@ == old(buf)@ + tabs(i as nat),
        decreases n - i,
    {
        push_char(buf, '\t');
        i += 1;
    }
}

/// The first offset at or after `i` that holds a newline, or the end.
pub open spec fn next_newline(s: Seq<char>, i: int) -> int
    decreases s.len() - i,
{
    if i < 0 || i >= s.len() || s[i] == '\n' {
        if i < 0 { 0 } else { i }
    } else {
        next_newline(s, i + 1)
    }
}

/// The lines of `s` from offset `start`, as `str::lines` gives them: split
/// at each newline, the newline left out, and a carriage return before it
/// too; no line after a final newline.
pub open spec fn lines_from(s: Seq<char>, start: int) -> Seq<Seq<char>>
    decreases s.len() + 1 - start,
{
    if start < 0 || start >= s.len() {
        seq![]
    } else {
        let j = next_newline(s, start);
        let raw = s.subrange(start, j);
        let line = if j < s.len() && raw.len() > 0 && raw.last() == '\r' {
            raw.drop_last()
        } else {
            raw
        };
        proof {
            lemma_next_newline(s, start);
        }
        seq![line] + lines_from(s, j + 1)
    }
}

pub open spec fn lines(s: Seq<char>) -> Seq<Seq<char>> {
    lines_from(s, 0)
}

pub proof fn lemma_next_newline(s: Seq<char>, i: int)
    requires
        0 <= i <= s.len(),
    ensures
        i <= next_newline(s, i) <= s.len(),
        next_newline(s, i) < s.len() ==> s[next_newline(s, i)] == '\n',
        forall|k: int| i <= k < next_newline(s, i) ==> s[k] != '\n',
    decreases s.len() - i,
{
    if i < s.len() && s[i] != '\n' {
        lemma_next_newline(s, i + 1);
    }
}

/// The lines of `s`.
pub fn lines_of(s: &str) -> (r: Vec<String>)
    ensures
        r.deep_view() == lines(s@),
{
    let n = s.unicode_len();
    let ghost sv = s@;
    let mut out: Vec<String> = Vec::new();
    let mut start: usize = 0;
    assert(out.deep_view() =~= seq![]);
    while start < n
        invariant
            n == sv.len(),
            sv == s@,
            start <= n,
            out.deep_view() + lines_from(sv, start as int) == lines(sv),
        decreases n - start,
    {
        proof {
            lemma_next_newline(sv, start as int);
        }
        let mut j = start;
        while j < n && s.get_char(j) != '\n'
            invariant
                start <= j <= n,
                n == sv.len(),
                sv == s@,
                next_newline(sv, start as int) == next_newline(sv, j as int),
            decreases n - j,
        {
            j += 1;
        }
        let end = if j < n && j > start && s.get_char(j - 1) == '\r' {
            j - 1
        } else {
            j
        };
        let mut line = String::new();
        let mut k = start;
        while k < end
            invariant
                start <= k <= end <= n,
                n == sv.len(),
                sv == s@,
                line@ == sv.subrange(start as int, k as int),
            decreases end - k,
        {
            push_char(&mut line, s.get_char(k));
            proof {
                assert(sv.subrange(start as int, k + 1) =~= sv.subrange(start as int, k as int).push(sv[k as int]));
            }
            k += 1;
        }
        let ghost before = out.deep_view();
        out.push(line);
        proof {
            assert(out.deep_view() =~= before.push(line@));
            let raw = sv.subrange(start as int, j as int);
            if j < n && j > start && sv[j - 1] == '\r' {
                assert(raw.drop_last() =~= line@);
            } else {
                assert(raw =~= line@);
            }
            assert(lines_from(sv, start as int) =~= seq![line@] + lines_from(sv, j + 1));
            assert(out.deep_view() + lines_from(sv, j + 1) =~= before + lines_from(sv, start as int));
        }
        start = if j < n { j + 1 } else { n };
        proof {
            if j >= n {
                assert(lines_from(sv, j + 1) =~= seq![]);
                assert(lines_from(sv, n as int) =~= seq![]);
            }
        }
    }
    proof {
        assert(lines_from(sv, start as int) =~= seq![]);
        assert(out.deep_view() + seq![] =~= out.deep_view());
    }
    out
}

/// The line holds only ASCII whitespace.
pub open spec fn is_blank(line: Seq<char>) -> bool {
    forall|i: int|
        0 <= i < line.len() ==> (#[trigger] line[i] == ' ' || line[i] == '\t' || line[i] == '\n' || line[i]
            == '\x0C' || line[i] == '\r')
}

pub fn blank(line: &str) -> (r: bool)
    ensures
        r == is_blank(line@),
{
    let n = line.unicode_len();
    let mut i: usize = 0;
    while i < n
        invariant
            n == line@.len(),
            i <= n,
            forall|k: int|
                0 <= k < i ==> (#[trigger] line@[k] == ' ' || line@[k] == '\t' || line@[k] == '\n' || line@[k]
                    == '\x0C' || line@[k] == '\r'),
        decreases n - i,
    {
        let c = line.get_char(i);
        if !(c == ' ' || c == '\t' || c == '\n' || c == '\x0C' || c == '\r') {
            return false;
        }
        i += 1;
    }
    true
}

/// The name in PascalCase, snake_case and SCREAMING_CASE.
pub open spec fn pascal_of(name: Seq<char>) -> Seq<char> {
    spec_pascal(encode_utf8(name))
}

pub open spec fn snake_of(name: Seq<char>) -> Seq<char> {
    spec_snake(encode_utf8(name))
}

pub open spec fn scream_of(name: Seq<char>) -> Seq<char> {
    spec_scream(encode_utf8(name))
}

/// Appends `s` in PascalCase.
pub fn push_pascal(buf: &mut String, s: &str)
    ensures
        final(buf)@ == old(buf)@ + pascal_of(s@),
{
    let t = crate::case::pascal(s);
    push_str(buf, t.as_str());
}

/// Appends `s` in snake_case.
pub fn push_snake(buf: &mut String, s: &str)
    ensures
        final(buf)@ == old(buf)@ + snake_of(s@),
{
    let t = crate::case::snake(s);
    push_str(buf, t.as_str());
}

/// Appends `s` in SCREAMING_CASE.
pub fn push_scream(buf: &mut String, s: &str)
    ensures
        final(buf)@ == old(buf)@ + scream_of(s@),
{
    let t = crate::case::scream(s);
    push_str(buf, t.as_str());
}

} // verus!
