//! Identifier case conversions.
use crate::span::{lemma_ascii_boundaries, span_text, substr};
use crate::text::{is_digit_char, lower_char, map_lower, map_upper, push_char, push_lower, push_str, push_upper, to_upper, upper_char};
use vstd::prelude::*;
use vstd::string::{StrSliceExecFns, StringSliceAdditionalSpecFns};
use vstd::utf8::*;

verus! {

broadcast use vstd::utf8::encode_utf8_valid_utf8;

// ---------------------------------------------------------------------------
// Splitting

pub open spec fn is_lower(c: u8) -> bool {
    97 <= c <= 122
}

pub open spec fn is_upper(c: u8) -> bool {
    65 <= c <= 90
}

/// Separators are all bytes that are not ASCII letters or digits.
pub open spec fn is_sep(c: u8) -> bool {
    !((48 <= c <= 57) || is_lower(c) || is_upper(c))
}

/// A word that started before offset `i` ends at `i`: the byte there is a
/// separator, or a lower-case letter is followed by an upper-case one, or an
/// upper-case letter is followed by an upper-case one that a lower-case letter
/// follows (the end of an acronym). Digits never end a word.
pub open spec fn boundary_at(b: Seq<u8>, i: int) -> bool {
    ||| is_sep(b[i])
    ||| (is_lower(b[i - 1]) && is_upper(b[i]))
    ||| (is_upper(b[i - 1]) && is_upper(b[i]) && i + 1 < b.len() && is_lower(b[i + 1]))
}

/// First offset at or after `i` that does not hold a separator.
pub open spec fn skip_seps(b: Seq<u8>, i: int) -> int
    decreases b.len() - i,
{
    if 0 <= i < b.len() && is_sep(b[i]) {
        skip_seps(b, i + 1)
    } else {
        i
    }
}

/// First word boundary at or after `i` (for `i` inside a word), or the end.
pub open spec fn word_end(b: Seq<u8>, i: int) -> int
    decreases b.len() - i,
{
    if 0 < i < b.len() && !boundary_at(b, i) {
        word_end(b, i + 1)
    } else {
        i
    }
}

pub proof fn lemma_skip_seps(b: Seq<u8>, i: int)
    requires
        0 <= i <= b.len(),
    ensures
        i <= skip_seps(b, i) <= b.len(),
        skip_seps(b, i) < b.len() ==> !is_sep(b[skip_seps(b, i)]),
        forall|k: int| i <= k < skip_seps(b, i) ==> is_sep(#[trigger] b[k]),
        skip_seps(b, skip_seps(b, i)) == skip_seps(b, i),
    decreases b.len() - i,
{
    if 0 <= i < b.len() && is_sep(b[i]) {
        lemma_skip_seps(b, i + 1);
    }
}

pub proof fn lemma_word_end(b: Seq<u8>, i: int)
    requires
        0 < i <= b.len(),
    ensures
        i <= word_end(b, i) <= b.len(),
        forall|k: int| i <= k < word_end(b, i) ==> !is_sep(#[trigger] b[k]),
    decreases b.len() - i,
{
    if 0 < i < b.len() && !boundary_at(b, i) {
        lemma_word_end(b, i + 1);
    }
}

/// The byte ranges of the words of `b` from offset `i` on.
pub open spec fn word_ranges(b: Seq<u8>, i: int) -> Seq<(int, int)>
    decreases b.len() - i,
{
    if i < 0 || i > b.len() {
        seq![]
    } else {
        let s = skip_seps(b, i);
        if s >= b.len() {
            seq![]
        } else {
            proof {
                lemma_skip_seps(b, i);
                lemma_word_end(b, s + 1);
            }
            let e = word_end(b, s + 1);
            seq![(s, e)] + word_ranges(b, e)
        }
    }
}

/// The words of the text whose UTF-8 encoding is `b`.
pub open spec fn words(b: Seq<u8>) -> Seq<Seq<char>> {
    word_ranges(b, 0).map_values(|r: (int, int)| span_text(b, r.0, r.1))
}

proof fn lemma_word_ranges(b: Seq<u8>, i: int)
    requires
        0 <= i <= b.len(),
    ensures
        forall|k: int| 0 <= k < word_ranges(b, i).len() ==> {
            let r = #[trigger] word_ranges(b, i)[k];
            &&& i <= r.0 < r.1 <= b.len()
            &&& forall|j: int| r.0 <= j < r.1 ==> !is_sep(#[trigger] b[j])
        },
    decreases b.len() - i,
{
    let s = skip_seps(b, i);
    lemma_skip_seps(b, i);
    if s < b.len() {
        lemma_word_end(b, s + 1);
        let e = word_end(b, s + 1);
        lemma_word_ranges(b, e);
        let rs = word_ranges(b, i);
        assert forall|k: int| 0 <= k < rs.len() implies {
            let r = #[trigger] rs[k];
            &&& i <= r.0 < r.1 <= b.len()
            &&& forall|j: int| r.0 <= j < r.1 ==> !is_sep(#[trigger] b[j])
        } by {
            if k > 0 {
                assert(rs[k] == word_ranges(b, e)[k - 1]);
            }
        }
    }
}

fn sep_byte(c: u8) -> (r: bool)
    ensures
        r == is_sep(c),
{
    !((48 <= c && c <= 57) || (97 <= c && c <= 122) || (65 <= c && c <= 90))
}

fn boundary_here(b: &[u8], i: usize) -> (r: bool)
    requires
        0 < i < b@.len(),
    ensures
        r == boundary_at(b@, i as int),
{
    let prev = b[i - 1];
    let curr = b[i];
    let lower_next = i + 1 < b.len() && 97 <= b[i + 1] && b[i + 1] <= 122;
    sep_byte(curr) || ((97 <= prev && prev <= 122) && (65 <= curr && curr <= 90))
        || ((65 <= prev && prev <= 90) && (65 <= curr && curr <= 90) && lower_next)
}

proof fn lemma_word_ranges_skip(b: Seq<u8>, i: int)
    requires
        0 <= i <= b.len(),
    ensures
        word_ranges(b, i) == word_ranges(b, skip_seps(b, i)),
{
    lemma_skip_seps(b, i);
}

/// Splits identifiers across separator and case boundaries.
///
/// Digits do not create boundaries on their own; they stay attached to the
/// surrounding word. Every byte that is not an ASCII letter or digit separates.
pub fn split<'a>(s: &'a str) -> (r: Vec<&'a str>)
    ensures
        r@.len() == word_ranges(s.spec_bytes(), 0).len(),
        forall|k: int| 0 <= k < r@.len() ==> {
            let w = #[trigger] word_ranges(s.spec_bytes(), 0)[k];
            &&& r@[k].spec_bytes() == s.spec_bytes().subrange(w.0, w.1)
            &&& r@[k]@ == span_text(s.spec_bytes(), w.0, w.1)
        },
{
    let b = s.as_bytes();
    let len = b.len();
    let ghost bs = b@;
    let mut res: Vec<&'a str> = Vec::new();
    let mut i: usize = 0;
    let ghost mut done: Seq<(int, int)> = seq![];
    while i < len
        invariant
            bs == b@,
            bs == s.spec_bytes(),
            len == bs.len(),
            i <= len,
            word_ranges(bs, 0) == done + word_ranges(bs, i as int),
            res@.len() == done.len(),
            forall|k: int| 0 <= k < res@.len() ==> {
                let w = #[trigger] done[k];
                &&& res@[k].spec_bytes() == bs.subrange(w.0, w.1)
                &&& res@[k]@ == span_text(bs, w.0, w.1)
            },
        ensures
            i >= len,
            word_ranges(bs, 0) == done + word_ranges(bs, i as int),
        decreases len - i,
    {
        let ghost i0 = i as int;
        proof {
            lemma_skip_seps(bs, i0);
        }
        while i < len && sep_byte(b[i])
            invariant
                bs == b@,
                len == bs.len(),
                i0 <= i <= len,
                skip_seps(bs, i as int) == skip_seps(bs, i0),
            decreases len - i,
        {
            i += 1;
        }
        assert(i == skip_seps(bs, i0));
        if i >= len {
            assert(word_ranges(bs, i as int) =~= seq![]);
            assert(word_ranges(bs, i0) =~= seq![]);
            break;
        }
        let start = i;
        i += 1;
        proof {
            lemma_word_end(bs, i as int);
        }
        while i < len && !boundary_here(b, i)
            invariant
                bs == b@,
                len == bs.len(),
                start < i <= len,
                word_end(bs, i as int) == word_end(bs, start as int + 1),
            decreases len - i,
        {
            i += 1;
        }
        let end = i;
        proof {
            lemma_word_end(bs, start as int + 1);
            assert(end as int == word_end(bs, start as int + 1));
            assert(!is_sep(bs[end as int - 1]));
            lemma_ascii_boundaries(bs, start as int);
            lemma_ascii_boundaries(bs, end as int - 1);
        }
        let part = substr(s, start, end);
        res.push(part);
        proof {
            assert(word_ranges(bs, i0) == seq![(start as int, end as int)] + word_ranges(bs, end as int));
            done = done.push((start as int, end as int));
        }
        while i < len && sep_byte(b[i])
            invariant
                bs == b@,
                len == bs.len(),
                end <= i <= len,
                skip_seps(bs, i as int) == skip_seps(bs, end as int),
            decreases len - i,
        {
            i += 1;
        }
        proof {
            lemma_skip_seps(bs, end as int);
            lemma_word_ranges_skip(bs, end as int);
            lemma_word_ranges_skip(bs, i as int);
            assert(word_ranges(bs, 0) == done + word_ranges(bs, i as int));
        }
    }
    assert(word_ranges(bs, i as int) =~= seq![]);
    assert(done + seq![] =~= done);
    res
}


// ---------------------------------------------------------------------------
// Conversions

/// The words joined with nothing between them.
pub open spec fn concat(ws: Seq<Seq<char>>) -> Seq<char>
    decreases ws.len(),
{
    if ws.len() == 0 {
        seq![]
    } else {
        concat(ws.drop_last()) + ws.last()
    }
}

/// The words joined with `sep` between each two.
pub open spec fn join(ws: Seq<Seq<char>>, sep: char) -> Seq<char>
    decreases ws.len(),
{
    if ws.len() == 0 {
        seq![]
    } else if ws.len() == 1 {
        ws[0]
    } else {
        join(ws.drop_last(), sep) + seq![sep] + ws.last()
    }
}

/// A word with its leading ASCII digits kept, the first other character made
/// upper-case and the rest made lower-case.
pub open spec fn capitalized(w: Seq<char>) -> Seq<char>
    decreases w.len(),
{
    if w.len() == 0 {
        seq![]
    } else if is_digit_char(w[0]) {
        seq![w[0]] + capitalized(w.drop_first())
    } else {
        seq![upper_char(w[0])] + map_lower(w.drop_first())
    }
}

/// All words capitalized and joined.
pub open spec fn pascal_words(ws: Seq<Seq<char>>) -> Seq<char>
    decreases ws.len(),
{
    if ws.len() == 0 {
        seq![]
    } else {
        pascal_words(ws.drop_last()) + capitalized(ws.last())
    }
}

/// The first word in lower case, the others capitalized, all joined.
pub open spec fn camel_words(ws: Seq<Seq<char>>) -> Seq<char>
    decreases ws.len(),
{
    if ws.len() == 0 {
        seq![]
    } else if ws.len() == 1 {
        map_lower(ws[0])
    } else {
        camel_words(ws.drop_last()) + capitalized(ws.last())
    }
}

pub open spec fn spec_caps(b: Seq<u8>) -> Seq<char> {
    map_upper(concat(words(b)))
}

pub open spec fn spec_small(b: Seq<u8>) -> Seq<char> {
    map_lower(concat(words(b)))
}

pub open spec fn spec_scream(b: Seq<u8>) -> Seq<char> {
    map_upper(join(words(b), '_'))
}

pub open spec fn spec_snake(b: Seq<u8>) -> Seq<char> {
    map_lower(join(words(b), '_'))
}

pub open spec fn spec_pascal(b: Seq<u8>) -> Seq<char> {
    pascal_words(words(b))
}

pub open spec fn spec_camel(b: Seq<u8>) -> Seq<char> {
    camel_words(words(b))
}

proof fn lemma_take_last<A>(ws: Seq<A>, k: int)
    requires
        0 <= k < ws.len(),
    ensures
        ws.take(k + 1).drop_last() == ws.take(k),
        ws.take(k + 1).last() == ws[k],
        ws.take(k + 1).len() == k + 1,
{
    assert(ws.take(k + 1).drop_last() =~= ws.take(k));
}

proof fn lemma_map_upper_concat(a: Seq<char>, b: Seq<char>)
    ensures
        map_upper(a + b) == map_upper(a) + map_upper(b),
        map_lower(a + b) == map_lower(a) + map_lower(b),
{
    assert(map_upper(a + b) =~= map_upper(a) + map_upper(b));
    assert(map_lower(a + b) =~= map_lower(a) + map_lower(b));
}

/// The parts that `split` returns are the words.
proof fn lemma_split_words(s: &str, parts: Seq<&str>)
    requires
        parts.len() == word_ranges(s.spec_bytes(), 0).len(),
        forall|k: int| 0 <= k < parts.len() ==> {
            let w = #[trigger] word_ranges(s.spec_bytes(), 0)[k];
            parts[k]@ == span_text(s.spec_bytes(), w.0, w.1)
        },
    ensures
        words(s.spec_bytes()).len() == parts.len(),
        forall|k: int| 0 <= k < parts.len() ==> #[trigger] parts[k]@ == words(s.spec_bytes())[k],
{
}

/// Converts an identifier to CAPSCASE: the words, upper-cased, joined.
pub fn caps(s: &str) -> (r: String)
    ensures
        r@ == spec_caps(s.spec_bytes()),
{
    let parts = split(s);
    proof {
        lemma_split_words(s, parts@);
    }
    let ghost ws = words(s.spec_bytes());
    let mut result = String::new();
    let mut k: usize = 0;
    while k < parts.len()
        invariant
            ws.len() == parts@.len(),
            forall|i: int| 0 <= i < parts@.len() ==> #[trigger] parts@[i]@ == ws[i],
            k <= parts@.len(),
            result@ == map_upper(concat(ws.take(k as int))),
        decreases parts@.len() - k,
    {
        push_upper(&mut result, parts[k]);
        proof {
            lemma_take_last(ws, k as int);
            lemma_map_upper_concat(concat(ws.take(k as int)), ws[k as int]);
        }
        k += 1;
    }
    assert(ws.take(k as int) == ws);
    result
}

/// Converts an identifier to smallcase: the words, lower-cased, joined.
pub fn small(s: &str) -> (r: String)
    ensures
        r@ == spec_small(s.spec_bytes()),
{
    let parts = split(s);
    proof {
        lemma_split_words(s, parts@);
    }
    let ghost ws = words(s.spec_bytes());
    let mut result = String::new();
    let mut k: usize = 0;
    while k < parts.len()
        invariant
            ws.len() == parts@.len(),
            forall|i: int| 0 <= i < parts@.len() ==> #[trigger] parts@[i]@ == ws[i],
            k <= parts@.len(),
            result@ == map_lower(concat(ws.take(k as int))),
        decreases parts@.len() - k,
    {
        push_lower(&mut result, parts[k]);
        proof {
            lemma_take_last(ws, k as int);
            lemma_map_upper_concat(concat(ws.take(k as int)), ws[k as int]);
        }
        k += 1;
    }
    assert(ws.take(k as int) == ws);
    result
}

/// Converts an identifier to SCREAMING_SNAKE_CASE: the words, upper-cased,
/// joined with `_`.
pub fn scream(s: &str) -> (r: String)
    ensures
        r@ == spec_scream(s.spec_bytes()),
{
    let parts = split(s);
    proof {
        lemma_split_words(s, parts@);
    }
    let ghost ws = words(s.spec_bytes());
    let mut result = String::new();
    let mut k: usize = 0;
    while k < parts.len()
        invariant
            ws.len() == parts@.len(),
            forall|i: int| 0 <= i < parts@.len() ==> #[trigger] parts@[i]@ == ws[i],
            k <= parts@.len(),
            result@ == map_upper(join(ws.take(k as int), '_')),
        decreases parts@.len() - k,
    {
        proof {
            lemma_take_last(ws, k as int);
        }
        if k > 0 {
            push_char(&mut result, '_');
            proof {
                lemma_map_upper_concat(join(ws.take(k as int), '_'), seq!['_']);
                assert(map_upper(seq!['_']) =~= seq!['_']);
            }
        }
        push_upper(&mut result, parts[k]);
        proof {
            if k > 0 {
                lemma_map_upper_concat(join(ws.take(k as int), '_') + seq!['_'], ws[k as int]);
            } else {
                assert(join(ws.take(1), '_') == ws[0]);
                assert(map_upper(seq![]) =~= seq![]);
                assert(seq![] + map_upper(ws[0]) =~= map_upper(ws[0]));
            }
        }
        k += 1;
    }
    assert(ws.take(k as int) == ws);
    result
}

/// Converts an identifier to snake_case: the words, lower-cased, joined with `_`.
pub fn snake(s: &str) -> (r: String)
    ensures
        r@ == spec_snake(s.spec_bytes()),
{
    let parts = split(s);
    proof {
        lemma_split_words(s, parts@);
    }
    let ghost ws = words(s.spec_bytes());
    let mut result = String::new();
    let mut k: usize = 0;
    while k < parts.len()
        invariant
            ws.len() == parts@.len(),
            forall|i: int| 0 <= i < parts@.len() ==> #[trigger] parts@[i]@ == ws[i],
            k <= parts@.len(),
            result@ == map_lower(join(ws.take(k as int), '_')),
        decreases parts@.len() - k,
    {
        proof {
            lemma_take_last(ws, k as int);
        }
        if k > 0 {
            push_char(&mut result, '_');
            proof {
                lemma_map_upper_concat(join(ws.take(k as int), '_'), seq!['_']);
                assert(map_lower(seq!['_']) =~= seq!['_']);
            }
        }
        push_lower(&mut result, parts[k]);
        proof {
            if k > 0 {
                lemma_map_upper_concat(join(ws.take(k as int), '_') + seq!['_'], ws[k as int]);
            } else {
                assert(join(ws.take(1), '_') == ws[0]);
                assert(map_lower(seq![]) =~= seq![]);
                assert(seq![] + map_lower(ws[0]) =~= map_lower(ws[0]));
            }
        }
        k += 1;
    }
    assert(ws.take(k as int) == ws);
    result
}

fn digit_char(c: char) -> (r: bool)
    ensures
        r == is_digit_char(c),
{
    '0' <= c && c <= '9'
}

/// Appends `s` capitalized: leading ASCII digits kept, the first other
/// character upper-cased, the rest lower-cased.
fn capitalize(buf: &mut String, s: &str)
    ensures
        final(buf)@ == old(buf)@ + capitalized(s@),
{
    let n = s.unicode_len();
    let mut j: usize = 0;
    assert(s@.skip(0) =~= s@);
    while j < n
        invariant
            n == s@.len(),
            j <= n,
            old(buf)@ + capitalized(s@) == buf@ + capitalized(s@.skip(j as int)),
        decreases n - j,
    {
        let c = s.get_char(j);
        assert(s@.skip(j as int)[0] == c);
        assert(s@.skip(j as int).drop_first() =~= s@.skip(j as int + 1));
        if digit_char(c) {
            push_char(buf, c);
            assert(capitalized(s@.skip(j as int)) == seq![c] + capitalized(s@.skip(j as int + 1)));
            assert(buf@ + capitalized(s@.skip(j as int + 1)) =~= old(buf)@ + capitalized(s@)) by {
                assert(buf@ == (buf@.drop_last()).push(c));
            }
            j += 1;
        } else {
            let ghost before = buf@;
            push_char(buf, to_upper(c));
            let ghost mid = buf@;
            let mut k: usize = j + 1;
            while k < n
                invariant
                    n == s@.len(),
                    j < k <= n,
                    buf@ == mid + map_lower(s@.subrange(j as int + 1, k as int)),
                decreases n - k,
            {
                let d = s.get_char(k);
                push_char(buf, crate::text::to_lower(d));
                assert(map_lower(s@.subrange(j as int + 1, k as int + 1)) =~= map_lower(
                    s@.subrange(j as int + 1, k as int),
                ).push(lower_char(d)));
                k += 1;
            }
            assert(s@.subrange(j as int + 1, n as int) =~= s@.skip(j as int + 1));
            assert(capitalized(s@.skip(j as int)) == seq![upper_char(c)] + map_lower(s@.skip(j as int + 1)));
            assert(buf@ =~= before + capitalized(s@.skip(j as int)));
            assert(old(buf)@ + capitalized(s@) == before + capitalized(s@.skip(j as int)));
            return;
        }
    }
    assert(s@.skip(n as int) =~= seq![]);
    assert(capitalized(seq![]) =~= seq![]);
    assert(buf@ + seq![] =~= buf@);
}

/// Converts an identifier to PascalCase: every word capitalized, joined.
pub fn pascal(s: &str) -> (r: String)
    ensures
        r@ == spec_pascal(s.spec_bytes()),
{
    let parts = split(s);
    proof {
        lemma_split_words(s, parts@);
    }
    let ghost ws = words(s.spec_bytes());
    let mut result = String::new();
    let mut k: usize = 0;
    while k < parts.len()
        invariant
            ws.len() == parts@.len(),
            forall|i: int| 0 <= i < parts@.len() ==> #[trigger] parts@[i]@ == ws[i],
            k <= parts@.len(),
            result@ == pascal_words(ws.take(k as int)),
        decreases parts@.len() - k,
    {
        capitalize(&mut result, parts[k]);
        proof {
            lemma_take_last(ws, k as int);
        }
        k += 1;
    }
    assert(ws.take(k as int) == ws);
    result
}

/// Converts an identifier to camelCase: the first word lower-cased, the others
/// capitalized, joined.
pub fn camel(s: &str) -> (r: String)
    ensures
        r@ == spec_camel(s.spec_bytes()),
{
    let parts = split(s);
    proof {
        lemma_split_words(s, parts@);
    }
    let ghost ws = words(s.spec_bytes());
    let mut result = String::new();
    let mut k: usize = 0;
    while k < parts.len()
        invariant
            ws.len() == parts@.len(),
            forall|i: int| 0 <= i < parts@.len() ==> #[trigger] parts@[i]@ == ws[i],
            k <= parts@.len(),
            result@ == camel_words(ws.take(k as int)),
        decreases parts@.len() - k,
    {
        proof {
            lemma_take_last(ws, k as int);
        }
        if k == 0 {
            push_lower(&mut result, parts[k]);
            assert(seq![] + map_lower(ws[0]) =~= map_lower(ws[0]));
        } else {
            capitalize(&mut result, parts[k]);
        }
        k += 1;
    }
    assert(ws.take(k as int) == ws);
    result
}

// ---------------------------------------------------------------------------
// How the cases relate

proof fn lemma_lower_of_upper(s: Seq<char>)
    ensures
        map_lower(map_upper(s)) == map_lower(s),
        map_upper(map_lower(s)) == map_upper(s),
        map_lower(map_lower(s)) == map_lower(s),
        map_upper(map_upper(s)) == map_upper(s),
{
    assert forall|i: int| 0 <= i < s.len() implies lower_char(upper_char(s[i])) == lower_char(s[i]) && upper_char(
        lower_char(s[i]),
    ) == upper_char(s[i]) && lower_char(lower_char(s[i])) == lower_char(s[i]) && upper_char(upper_char(s[i]))
        == upper_char(s[i]) by {
        let c = s[i];
        if 'a' <= c <= 'z' {
            assert(((c as u32 - 32) as char) as u32 == c as u32 - 32);
        }
        if 'A' <= c <= 'Z' {
            assert(((c as u32 + 32) as char) as u32 == c as u32 + 32);
        }
    }
    assert(map_lower(map_upper(s)) =~= map_lower(s));
    assert(map_upper(map_lower(s)) =~= map_upper(s));
    assert(map_lower(map_lower(s)) =~= map_lower(s));
    assert(map_upper(map_upper(s)) =~= map_upper(s));
}

proof fn lemma_lower_capitalized(w: Seq<char>)
    ensures
        map_lower(capitalized(w)) == map_lower(w),
    decreases w.len(),
{
    if w.len() > 0 {
        let rest = w.drop_first();
        assert(w == seq![w[0]] + rest);
        lemma_map_upper_concat(seq![w[0]], rest);
        if is_digit_char(w[0]) {
            lemma_lower_capitalized(rest);
            lemma_map_upper_concat(seq![w[0]], capitalized(rest));
        } else {
            lemma_lower_of_upper(seq![w[0]]);
            lemma_lower_of_upper(rest);
            lemma_map_upper_concat(seq![upper_char(w[0])], map_lower(rest));
            assert(map_upper(seq![w[0]]) =~= seq![upper_char(w[0])]);
        }
    }
}

proof fn lemma_lower_pascal(ws: Seq<Seq<char>>)
    ensures
        map_lower(pascal_words(ws)) == map_lower(concat(ws)),
    decreases ws.len(),
{
    if ws.len() > 0 {
        lemma_lower_pascal(ws.drop_last());
        lemma_lower_capitalized(ws.last());
        lemma_map_upper_concat(pascal_words(ws.drop_last()), capitalized(ws.last()));
        lemma_map_upper_concat(concat(ws.drop_last()), ws.last());
    }
}

proof fn lemma_lower_camel(ws: Seq<Seq<char>>)
    ensures
        map_lower(camel_words(ws)) == map_lower(concat(ws)),
    decreases ws.len(),
{
    if ws.len() == 1 {
        lemma_lower_of_upper(ws[0]);
        assert(concat(ws.drop_last()) =~= seq![]);
        assert(concat(ws) =~= ws[0]);
    } else if ws.len() > 1 {
        lemma_lower_camel(ws.drop_last());
        lemma_lower_capitalized(ws.last());
        lemma_map_upper_concat(camel_words(ws.drop_last()), capitalized(ws.last()));
        lemma_map_upper_concat(concat(ws.drop_last()), ws.last());
    }
}

/// The cases differ only in letter case: snake_case is SCREAMING_SNAKE_CASE
/// in lower case (and the other way round), smallcase is CAPSCASE in lower
/// case, and PascalCase and camelCase are smallcase with some letters made
/// upper-case.
pub proof fn law_cases_agree(b: Seq<u8>)
    ensures
        spec_snake(b) == map_lower(spec_scream(b)),
        spec_scream(b) == map_upper(spec_snake(b)),
        spec_small(b) == map_lower(spec_caps(b)),
        spec_caps(b) == map_upper(spec_small(b)),
        map_lower(spec_pascal(b)) == spec_small(b),
        map_lower(spec_camel(b)) == spec_small(b),
{
    let ws = words(b);
    lemma_lower_of_upper(join(ws, '_'));
    lemma_lower_of_upper(concat(ws));
    lemma_lower_pascal(ws);
    lemma_lower_camel(ws);
}

// ---------------------------------------------------------------------------
// What splitting keeps

/// The bytes of `b` that are ASCII letters or digits, in order.
pub open spec fn letters_and_digits(b: Seq<u8>) -> Seq<u8>
    decreases b.len(),
{
    if b.len() == 0 {
        seq![]
    } else {
        letters_and_digits(b.drop_last()) + if is_sep(b.last()) {
            seq![]
        } else {
            seq![b.last()]
        }
    }
}

/// The bytes of `b` in the ranges `rs`, one range after the other.
pub open spec fn ranges_bytes(b: Seq<u8>, rs: Seq<(int, int)>) -> Seq<u8>
    decreases rs.len(),
{
    if rs.len() == 0 {
        seq![]
    } else {
        b.subrange(rs[0].0, rs[0].1) + ranges_bytes(b, rs.drop_first())
    }
}

proof fn lemma_letters_append(a: Seq<u8>, c: Seq<u8>)
    ensures
        letters_and_digits(a + c) == letters_and_digits(a) + letters_and_digits(c),
    decreases c.len(),
{
    if c.len() == 0 {
        assert(a + c =~= a);
        assert(letters_and_digits(a) + seq![] =~= letters_and_digits(a));
    } else {
        lemma_letters_append(a, c.drop_last());
        assert((a + c).drop_last() =~= a + c.drop_last());
        assert((a + c).last() == c.last());
        assert(letters_and_digits(a + c) =~= letters_and_digits(a) + letters_and_digits(c));
    }
}

proof fn lemma_letters_all_seps(b: Seq<u8>)
    requires
        forall|j: int| 0 <= j < b.len() ==> is_sep(#[trigger] b[j]),
    ensures
        letters_and_digits(b) == Seq::<u8>::empty(),
    decreases b.len(),
{
    if b.len() > 0 {
        lemma_letters_all_seps(b.drop_last());
        assert(letters_and_digits(b) =~= seq![]);
    }
}

proof fn lemma_letters_no_seps(b: Seq<u8>)
    requires
        forall|j: int| 0 <= j < b.len() ==> !is_sep(#[trigger] b[j]),
    ensures
        letters_and_digits(b) == b,
    decreases b.len(),
{
    if b.len() > 0 {
        lemma_letters_no_seps(b.drop_last());
        assert(b.drop_last().push(b.last()) =~= b);
    }
}

proof fn lemma_ranges_from(b: Seq<u8>, i: int)
    requires
        0 <= i <= b.len(),
    ensures
        ranges_bytes(b, word_ranges(b, i)) == letters_and_digits(b.subrange(i, b.len() as int)),
        forall|k: int, l: int|
            0 <= k < l < word_ranges(b, i).len() ==> (#[trigger] word_ranges(b, i)[k]).1 <= (
            #[trigger] word_ranges(b, i)[l]).0,
    decreases b.len() - i,
{
    lemma_word_ranges(b, i);
    let s = skip_seps(b, i);
    lemma_skip_seps(b, i);
    let tail = b.subrange(i, b.len() as int);
    if s >= b.len() {
        lemma_letters_all_seps(tail);
    } else {
        lemma_word_end(b, s + 1);
        let e = word_end(b, s + 1);
        lemma_ranges_from(b, e);
        lemma_word_ranges(b, e);
        let rs = word_ranges(b, i);
        assert(rs.drop_first() == word_ranges(b, e));
        assert(rs[0] == (s, e));
        let seps = b.subrange(i, s);
        let word = b.subrange(s, e);
        let rest = b.subrange(e, b.len() as int);
        assert(tail =~= seps + word + rest);
        lemma_letters_append(seps + word, rest);
        lemma_letters_append(seps, word);
        lemma_letters_all_seps(seps);
        lemma_letters_no_seps(word);
        assert(letters_and_digits(seps) + word =~= word);
        assert forall|k: int, l: int| 0 <= k < l < rs.len() implies (#[trigger] rs[k]).1 <= (#[trigger] rs[l]).0 by {
            assert(rs[l] == word_ranges(b, e)[l - 1]);
            if k > 0 {
                assert(rs[k] == word_ranges(b, e)[k - 1]);
            }
        }
    }
}

/// Splitting keeps exactly the letters and digits: the words are non-empty
/// ranges of letters and digits, in order and without overlap, and together
/// they hold every letter and digit of the identifier, in order.
pub proof fn law_split_keeps_letters_and_digits(b: Seq<u8>)
    ensures
        forall|k: int| 0 <= k < word_ranges(b, 0).len() ==> {
            let r = #[trigger] word_ranges(b, 0)[k];
            &&& 0 <= r.0 < r.1 <= b.len()
            &&& forall|j: int| r.0 <= j < r.1 ==> !is_sep(#[trigger] b[j])
        },
        forall|k: int, l: int|
            0 <= k < l < word_ranges(b, 0).len() ==> (#[trigger] word_ranges(b, 0)[k]).1 <= (
            #[trigger] word_ranges(b, 0)[l]).0,
        ranges_bytes(b, word_ranges(b, 0)) == letters_and_digits(b),
{
    lemma_word_ranges(b, 0);
    lemma_ranges_from(b, 0);
    assert(b.subrange(0, b.len() as int) =~= b);
}

/// An upper-case letter that follows a letter at offset `i`.
pub open spec fn case_change_at(b: Seq<u8>, i: int) -> bool {
    is_upper(b[i]) && (is_lower(b[i - 1]) || is_upper(b[i - 1]))
}

proof fn lemma_word_end_boundary(b: Seq<u8>, i: int)
    requires
        0 < i <= b.len(),
    ensures
        word_end(b, i) < b.len() ==> boundary_at(b, word_end(b, i)),
    decreases b.len() - i,
{
    if 0 < i < b.len() && !boundary_at(b, i) {
        lemma_word_end_boundary(b, i + 1);
    }
}

proof fn lemma_adjacent_words(b: Seq<u8>, i: int)
    requires
        0 <= i <= b.len(),
    ensures
        forall|k: int|
            0 <= k < word_ranges(b, i).len() - 1
                && (#[trigger] word_ranges(b, i)[k]).1 == word_ranges(b, i)[k + 1].0
                ==> case_change_at(b, word_ranges(b, i)[k].1),
    decreases b.len() - i,
{
    let s = skip_seps(b, i);
    lemma_skip_seps(b, i);
    if s < b.len() {
        lemma_word_end(b, s + 1);
        lemma_word_end_boundary(b, s + 1);
        let e = word_end(b, s + 1);
        lemma_adjacent_words(b, e);
        lemma_skip_seps(b, e);
        let rs = word_ranges(b, i);
        assert forall|k: int|
            0 <= k < rs.len() - 1 && (#[trigger] rs[k]).1 == rs[k + 1].0 implies case_change_at(b, rs[k].1) by {
            if k > 0 {
                assert(rs[k] == word_ranges(b, e)[k - 1]);
                assert(rs[k + 1] == word_ranges(b, e)[k]);
            } else {
                assert(rs[0] == (s, e));
                assert(rs[1] == word_ranges(b, e)[0]);
                assert(word_ranges(b, e)[0].0 == skip_seps(b, e));
            }
        }
    }
}

/// Digits do not create word boundaries: two words with no separator
/// between them meet only where a letter is followed by an upper-case
/// letter.
pub proof fn law_words_meet_at_case_changes(b: Seq<u8>)
    ensures
        forall|k: int|
            0 <= k < word_ranges(b, 0).len() - 1
                && (#[trigger] word_ranges(b, 0)[k]).1 == word_ranges(b, 0)[k + 1].0
                ==> case_change_at(b, word_ranges(b, 0)[k].1),
{
    lemma_adjacent_words(b, 0);
}

proof fn lemma_word_end_inside(b: Seq<u8>, j: int)
    requires
        0 < j <= b.len(),
    ensures
        forall|i: int| j <= i < word_end(b, j) ==> !boundary_at(b, i),
    decreases b.len() - j,
{
    if 0 < j < b.len() && !boundary_at(b, j) {
        lemma_word_end_inside(b, j + 1);
    }
}

proof fn lemma_ranges_split_and_cover(b: Seq<u8>, i: int)
    requires
        0 <= i <= b.len(),
    ensures
        forall|k: int, j: int|
            0 <= k < word_ranges(b, i).len() && (#[trigger] word_ranges(b, i)[k]).0 < j < word_ranges(b, i)[k].1
                ==> !#[trigger] boundary_at(b, j),
        forall|j: int|
            i <= j < b.len() && !is_sep(#[trigger] b[j]) ==> exists|k: int|
                0 <= k < word_ranges(b, i).len() && (#[trigger] word_ranges(b, i)[k]).0 <= j < word_ranges(b, i)[k].1,
    decreases b.len() - i,
{
    let s = skip_seps(b, i);
    lemma_skip_seps(b, i);
    if s < b.len() {
        lemma_word_end(b, s + 1);
        lemma_word_end_inside(b, s + 1);
        let e = word_end(b, s + 1);
        lemma_ranges_split_and_cover(b, e);
        let rs = word_ranges(b, i);
        assert(rs[0] == (s, e));
        assert forall|k: int, j: int| 0 <= k < rs.len() && (#[trigger] rs[k]).0 < j < rs[k].1 implies !#[trigger] boundary_at(
            b,
            j,
        ) by {
            if k > 0 {
                assert(rs[k] == word_ranges(b, e)[k - 1]);
            }
        }
        assert forall|j: int| i <= j < b.len() && !is_sep(#[trigger] b[j]) implies exists|k: int|
            0 <= k < rs.len() && (#[trigger] rs[k]).0 <= j < rs[k].1 by {
            if j < e {
                assert(rs[0].0 <= j < rs[0].1);
            } else {
                let k = choose|k: int|
                    0 <= k < word_ranges(b, e).len() && (#[trigger] word_ranges(b, e)[k]).0 <= j < word_ranges(b, e)[k].1;
                assert(rs[k + 1] == word_ranges(b, e)[k]);
            }
        }
    }
}

/// Every documented word boundary splits, and nothing else does: inside a
/// word no separator stands and no boundary falls (a lower-case letter
/// before an upper-case one, or an upper-case letter before an upper-case
/// one that a lower-case letter follows); and every letter or digit lies in
/// a word.
pub proof fn law_split_at_every_boundary(b: Seq<u8>)
    ensures
        forall|k: int, j: int|
            0 <= k < word_ranges(b, 0).len() && (#[trigger] word_ranges(b, 0)[k]).0 < j < word_ranges(b, 0)[k].1
                ==> !#[trigger] boundary_at(b, j),
        forall|j: int|
            0 <= j < b.len() && !is_sep(#[trigger] b[j]) ==> exists|k: int|
                0 <= k < word_ranges(b, 0).len() && (#[trigger] word_ranges(b, 0)[k]).0 <= j < word_ranges(b, 0)[k].1,
{
    lemma_ranges_split_and_cover(b, 0);
}

proof fn lemma_range_ends(b: Seq<u8>, i: int)
    requires
        0 <= i <= b.len(),
        i == 0 || i == b.len() || boundary_at(b, i),
    ensures
        forall|k: int|
            0 <= k < word_ranges(b, i).len() ==> {
                let r = #[trigger] word_ranges(b, i)[k];
                &&& r.1 == b.len() || boundary_at(b, r.1)
                &&& r.0 == 0 || is_sep(b[r.0 - 1]) || boundary_at(b, r.0)
            },
    decreases b.len() - i,
{
    let s = skip_seps(b, i);
    lemma_skip_seps(b, i);
    if s < b.len() {
        lemma_word_end(b, s + 1);
        lemma_word_end_boundary(b, s + 1);
        let e = word_end(b, s + 1);
        lemma_range_ends(b, e);
        let rs = word_ranges(b, i);
        assert(rs[0] == (s, e));
        if s > i {
            assert(is_sep(b[s - 1]));
        }
        assert forall|k: int| 0 <= k < rs.len() implies {
            let r = #[trigger] rs[k];
            &&& r.1 == b.len() || boundary_at(b, r.1)
            &&& r.0 == 0 || is_sep(b[r.0 - 1]) || boundary_at(b, r.0)
        } by {
            if k > 0 {
                assert(rs[k] == word_ranges(b, e)[k - 1]);
            }
        }
    }
}

/// Words end and begin exactly at the documented boundaries: a word ends
/// only at the end of the input or where a boundary falls (a separator, a
/// lower-case letter before an upper-case one, or an upper-case letter
/// before an upper-case one that a lower-case letter follows), and begins
/// only at the start, after a separator or at such a boundary; two adjacent
/// letters or digits lie in different words exactly where a boundary falls
/// between them, so digits never split.
pub proof fn law_split_exact(b: Seq<u8>)
    ensures
        forall|k: int|
            0 <= k < word_ranges(b, 0).len() ==> {
                let r = #[trigger] word_ranges(b, 0)[k];
                &&& r.1 == b.len() || boundary_at(b, r.1)
                &&& r.0 == 0 || is_sep(b[r.0 - 1]) || boundary_at(b, r.0)
            },
        forall|i: int|
            0 < i < b.len() && !is_sep(b[i - 1]) && !is_sep(b[i]) ==> (boundary_at(b, i) <==> exists|k: int|
                0 <= k < word_ranges(b, 0).len() && (#[trigger] word_ranges(b, 0)[k]).0 == i),
{
    lemma_range_ends(b, 0);
    lemma_ranges_split_and_cover(b, 0);
    let rs = word_ranges(b, 0);
    assert forall|i: int| 0 < i < b.len() && !is_sep(b[i - 1]) && !is_sep(b[i]) implies (boundary_at(b, i)
        <==> exists|k: int| 0 <= k < rs.len() && (#[trigger] rs[k]).0 == i) by {
        assert(!is_sep(b[i]));
        let k = choose|k: int| 0 <= k < rs.len() && (#[trigger] rs[k]).0 <= i < rs[k].1;
        if boundary_at(b, i) {
            assert(rs[k].0 == i);
        }
        if exists|k2: int| 0 <= k2 < rs.len() && (#[trigger] rs[k2]).0 == i {
            let k2 = choose|k2: int| 0 <= k2 < rs.len() && (#[trigger] rs[k2]).0 == i;
            assert(rs[k2].0 == 0 || is_sep(b[rs[k2].0 - 1]) || boundary_at(b, rs[k2].0));
        }
    }
}

proof fn lemma_upper_capitalized(w: Seq<char>)
    ensures
        map_upper(capitalized(w)) == map_upper(w),
    decreases w.len(),
{
    if w.len() > 0 {
        let rest = w.drop_first();
        assert(w == seq![w[0]] + rest);
        lemma_map_upper_concat(seq![w[0]], rest);
        if is_digit_char(w[0]) {
            lemma_upper_capitalized(rest);
            lemma_map_upper_concat(seq![w[0]], capitalized(rest));
        } else {
            lemma_lower_of_upper(seq![w[0]]);
            lemma_lower_of_upper(rest);
            lemma_map_upper_concat(seq![upper_char(w[0])], map_lower(rest));
            assert(map_upper(seq![upper_char(w[0])]) =~= map_upper(seq![w[0]]));
        }
    }
}

proof fn lemma_upper_pascal(ws: Seq<Seq<char>>)
    ensures
        map_upper(pascal_words(ws)) == map_upper(concat(ws)),
    decreases ws.len(),
{
    if ws.len() > 0 {
        lemma_upper_pascal(ws.drop_last());
        lemma_upper_capitalized(ws.last());
        lemma_map_upper_concat(pascal_words(ws.drop_last()), capitalized(ws.last()));
        lemma_map_upper_concat(concat(ws.drop_last()), ws.last());
    }
}

proof fn lemma_upper_camel(ws: Seq<Seq<char>>)
    ensures
        map_upper(camel_words(ws)) == map_upper(concat(ws)),
    decreases ws.len(),
{
    if ws.len() == 1 {
        lemma_lower_of_upper(ws[0]);
        assert(concat(ws.drop_last()) =~= seq![]);
        assert(concat(ws) =~= ws[0]);
    } else if ws.len() > 1 {
        lemma_upper_camel(ws.drop_last());
        lemma_upper_capitalized(ws.last());
        lemma_map_upper_concat(camel_words(ws.drop_last()), capitalized(ws.last()));
        lemma_map_upper_concat(concat(ws.drop_last()), ws.last());
    }
}

/// PascalCase and camelCase in upper case are CAPSCASE.
pub proof fn law_pascal_camel_upper(b: Seq<u8>)
    ensures
        map_upper(spec_pascal(b)) == spec_caps(b),
        map_upper(spec_camel(b)) == spec_caps(b),
{
    lemma_upper_pascal(words(b));
    lemma_upper_camel(words(b));
}

// ---------------------------------------------------------------------------
// The characters of the cases

/// An ASCII letter or digit.
pub open spec fn is_alnum_char(c: char) -> bool {
    ('0' <= c <= '9') || ('a' <= c <= 'z') || ('A' <= c <= 'Z')
}

/// Every character of `s` is an ASCII letter or digit.
pub open spec fn all_alnum(s: Seq<char>) -> bool {
    forall|i: int| 0 <= i < s.len() ==> is_alnum_char(#[trigger] s[i])
}

proof fn lemma_decode_ascii(bytes: Seq<u8>)
    requires
        forall|i: int| 0 <= i < bytes.len() ==> #[trigger] bytes[i] < 0x80,
    ensures
        valid_utf8(bytes),
        decode_utf8(bytes).len() == bytes.len(),
        forall|i: int| 0 <= i < bytes.len() ==> #[trigger] decode_utf8(bytes)[i] as u32 == bytes[i] as u32,
    decreases bytes.len(),
{
    if bytes.len() > 0 {
        let b0 = bytes[0];
        assert((b0 & 0x7F) == b0) by (bit_vector)
            requires
                b0 < 0x80,
        ;
        let rest = bytes.subrange(1, bytes.len() as int);
        assert(pop_first_scalar(bytes) == rest);
        lemma_decode_ascii(rest);
        let d = decode_utf8(bytes);
        assert(d == seq![(b0 as u32) as char] + decode_utf8(rest));
        assert forall|i: int| 0 <= i < bytes.len() implies #[trigger] d[i] as u32 == bytes[i] as u32 by {
            if i > 0 {
                assert(d[i] == decode_utf8(rest)[i - 1]);
                assert(rest[i - 1] == bytes[i]);
            }
        }
    }
}

proof fn lemma_char_ranges(c: char)
    ensures
        ('0' <= c <= '9') == (48 <= c as u32 <= 57),
        ('a' <= c <= 'z') == (97 <= c as u32 <= 122),
        ('A' <= c <= 'Z') == (65 <= c as u32 <= 90),
{
}

proof fn lemma_words_alnum(b: Seq<u8>)
    ensures
        forall|k: int| 0 <= k < words(b).len() ==> all_alnum(#[trigger] words(b)[k]) && words(b)[k].len() > 0,
{
    lemma_word_ranges(b, 0);
    assert forall|k: int| 0 <= k < words(b).len() implies all_alnum(#[trigger] words(b)[k]) && words(b)[k].len() > 0 by {
        let r = word_ranges(b, 0)[k];
        let sub = b.subrange(r.0, r.1);
        assert forall|j: int| 0 <= j < sub.len() implies #[trigger] sub[j] < 0x80 by {
            assert(sub[j] == b[r.0 + j]);
            assert(!is_sep(b[r.0 + j]));
        }
        lemma_decode_ascii(sub);
        let w = words(b)[k];
        assert(w == decode_utf8(sub));
        assert forall|i: int| 0 <= i < w.len() implies is_alnum_char(#[trigger] w[i]) by {
            assert(w[i] as u32 == sub[i] as u32);
            assert(sub[i] == b[r.0 + i]);
            assert(!is_sep(b[r.0 + i]));
            let v = sub[i];
            assert(48 <= v <= 57 || 97 <= v <= 122 || 65 <= v <= 90);
            lemma_char_ranges(w[i]);
        }
    }
}

proof fn lemma_alnum_concat(a: Seq<char>, c: Seq<char>)
    requires
        all_alnum(a),
        all_alnum(c),
    ensures
        all_alnum(a + c),
{
    assert forall|i: int| 0 <= i < (a + c).len() implies is_alnum_char(#[trigger] (a + c)[i]) by {
        if i < a.len() {
            assert((a + c)[i] == a[i]);
        } else {
            assert((a + c)[i] == c[i - a.len()]);
        }
    }
}

proof fn lemma_alnum_cases(w: Seq<char>)
    requires
        all_alnum(w),
    ensures
        all_alnum(map_lower(w)),
        all_alnum(map_upper(w)),
        all_alnum(capitalized(w)),
    decreases w.len(),
{
    assert forall|i: int| 0 <= i < w.len() implies is_alnum_char(#[trigger] map_lower(w)[i]) && is_alnum_char(
        map_upper(w)[i],
    ) by {
        let c = w[i];
        assert(is_alnum_char(c));
        if 'a' <= c <= 'z' {
            assert(((c as u32 - 32) as char) as u32 == c as u32 - 32);
        }
        if 'A' <= c <= 'Z' {
            assert(((c as u32 + 32) as char) as u32 == c as u32 + 32);
        }
    }
    if w.len() > 0 {
        let rest = w.drop_first();
        assert(all_alnum(rest)) by {
            assert forall|i: int| 0 <= i < rest.len() implies is_alnum_char(#[trigger] rest[i]) by {
                assert(rest[i] == w[i + 1]);
            }
        }
        lemma_alnum_cases(rest);
        assert(is_alnum_char(w[0]));
        assert(is_alnum_char(map_upper(w)[0]));
        if is_digit_char(w[0]) {
            lemma_alnum_concat(seq![w[0]], capitalized(rest));
        } else {
            assert(seq![upper_char(w[0])][0] == map_upper(w)[0]);
            lemma_alnum_concat(seq![upper_char(w[0])], map_lower(rest));
        }
    }
}

proof fn lemma_alnum_pascal(ws: Seq<Seq<char>>)
    requires
        forall|k: int| 0 <= k < ws.len() ==> all_alnum(#[trigger] ws[k]),
    ensures
        all_alnum(pascal_words(ws)),
        all_alnum(camel_words(ws)),
    decreases ws.len(),
{
    if ws.len() > 0 {
        let init = ws.drop_last();
        assert forall|k: int| 0 <= k < init.len() implies all_alnum(#[trigger] init[k]) by {
            assert(init[k] == ws[k]);
        }
        lemma_alnum_pascal(init);
        assert(all_alnum(ws[ws.len() - 1]));
        lemma_alnum_cases(ws.last());
        lemma_alnum_concat(pascal_words(init), capitalized(ws.last()));
        lemma_alnum_concat(camel_words(init), capitalized(ws.last()));
    }
}

/// PascalCase and camelCase hold only ASCII letters and digits.
pub proof fn law_pascal_camel_alnum(b: Seq<u8>)
    ensures
        all_alnum(spec_pascal(b)),
        all_alnum(spec_camel(b)),
{
    lemma_words_alnum(b);
    lemma_alnum_pascal(words(b));
}

// ---------------------------------------------------------------------------
// Round trips between snake_case and SCREAMING_SNAKE_CASE

/// A non-empty word of ASCII letters and digits whose letters all have one case.
pub open spec fn one_case_word(w: Seq<char>) -> bool {
    &&& w.len() > 0
    &&& all_alnum(w)
    &&& ((forall|i: int| 0 <= i < w.len() ==> !('A' <= #[trigger] w[i] <= 'Z')) || (forall|i: int|
        0 <= i < w.len() ==> !('a' <= #[trigger] w[i] <= 'z')))
}

/// Each word made lower-case.
pub open spec fn lower_words(ws: Seq<Seq<char>>) -> Seq<Seq<char>> {
    ws.map_values(|w: Seq<char>| map_lower(w))
}

/// Each word made upper-case.
pub open spec fn upper_words(ws: Seq<Seq<char>>) -> Seq<Seq<char>> {
    ws.map_values(|w: Seq<char>| map_upper(w))
}

proof fn lemma_join_front(ws: Seq<Seq<char>>, sep: char)
    requires
        ws.len() >= 2,
    ensures
        join(ws, sep) == ws[0] + seq![sep] + join(ws.drop_first(), sep),
    decreases ws.len(),
{
    let rest = ws.drop_first();
    if ws.len() == 2 {
        assert(join(ws.drop_last(), sep) == ws[0]);
        assert(join(rest, sep) == rest[0]);
        assert(join(ws, sep) =~= ws[0] + seq![sep] + join(rest, sep));
    } else {
        lemma_join_front(ws.drop_last(), sep);
        assert(ws.drop_last().drop_first() =~= rest.drop_last());
        assert(join(rest, sep) == join(rest.drop_last(), sep) + seq![sep] + rest.last());
        assert(join(ws, sep) =~= ws[0] + seq![sep] + join(rest, sep));
    }
}

proof fn lemma_join_chars(ws: Seq<Seq<char>>)
    requires
        forall|k: int| 0 <= k < ws.len() ==> all_alnum(#[trigger] ws[k]),
    ensures
        forall|i: int|
            0 <= i < join(ws, '_').len() ==> is_alnum_char(#[trigger] join(ws, '_')[i]) || join(ws, '_')[i]
                == '_',
    decreases ws.len(),
{
    if ws.len() == 1 {
        assert(all_alnum(ws[0]));
    } else if ws.len() > 1 {
        let init = ws.drop_last();
        assert forall|k: int| 0 <= k < init.len() implies all_alnum(#[trigger] init[k]) by {
            assert(init[k] == ws[k]);
        }
        lemma_join_chars(init);
        let a = join(init, '_');
        let j = join(ws, '_');
        assert(all_alnum(ws[ws.len() - 1]));
        assert forall|i: int| 0 <= i < j.len() implies is_alnum_char(#[trigger] j[i]) || j[i] == '_' by {
            if i < a.len() {
                assert(j[i] == a[i]);
            } else if i > a.len() {
                assert(j[i] == ws.last()[i - a.len() - 1]);
            }
        }
    }
}

proof fn lemma_map_join(ws: Seq<Seq<char>>)
    ensures
        map_lower(join(ws, '_')) == join(lower_words(ws), '_'),
        map_upper(join(ws, '_')) == join(upper_words(ws), '_'),
    decreases ws.len(),
{
    if ws.len() == 0 {
        assert(map_lower(seq![]) =~= seq![]);
        assert(map_upper(seq![]) =~= seq![]);
    } else if ws.len() > 1 {
        let init = ws.drop_last();
        lemma_map_join(init);
        assert(lower_words(ws).drop_last() =~= lower_words(init));
        assert(upper_words(ws).drop_last() =~= upper_words(init));
        lemma_map_upper_concat(join(init, '_'), seq!['_']);
        lemma_map_upper_concat(join(init, '_') + seq!['_'], ws.last());
        assert(map_lower(seq!['_']) =~= seq!['_']);
        assert(map_upper(seq!['_']) =~= seq!['_']);
    }
}

proof fn lemma_one_case(w: Seq<char>)
    requires
        w.len() > 0,
        all_alnum(w),
    ensures
        one_case_word(map_lower(w)),
        one_case_word(map_upper(w)),
{
    lemma_alnum_cases(w);
    assert forall|i: int| 0 <= i < w.len() implies !('A' <= #[trigger] map_lower(w)[i] <= 'Z') && !('a'
        <= map_upper(w)[i] <= 'z') by {
        let c = w[i];
        if 'a' <= c <= 'z' {
            assert(((c as u32 - 32) as char) as u32 == c as u32 - 32);
        }
        if 'A' <= c <= 'Z' {
            assert(((c as u32 + 32) as char) as u32 == c as u32 + 32);
        }
    }
}

proof fn lemma_alnum_byte(c: char)
    requires
        is_alnum_char(c),
    ensures
        (c as u8) as u32 == c as u32,
        !is_sep(c as u8),
        is_lower(c as u8) == ('a' <= c <= 'z'),
        is_upper(c as u8) == ('A' <= c <= 'Z'),
{
    lemma_char_ranges(c);
}

/// Inside a word of one case that the bytes at `o` spell, no word ends.
proof fn lemma_word_end_at(b: Seq<u8>, o: int, w: Seq<char>, i: int)
    requires
        one_case_word(w),
        0 <= o,
        o + w.len() <= b.len(),
        o < i <= o + w.len(),
        forall|k: int| 0 <= k < w.len() ==> b[o + k] == #[trigger] w[k] as u8,
        o + w.len() < b.len() ==> b[o + w.len()] == 95,
    ensures
        word_end(b, i) == o + w.len(),
    decreases o + w.len() - i,
{
    let e = o + w.len();
    if i < e {
        let c = w[i - o];
        let p = w[i - o - 1];
        assert(all_alnum(w));
        lemma_alnum_byte(c);
        lemma_alnum_byte(p);
        assert(b[i] == c as u8);
        assert(b[i - 1] == p as u8);
        if i + 1 < e {
            let d = w[i - o + 1];
            lemma_alnum_byte(d);
            assert(b[i + 1] == d as u8);
        }
        assert(!boundary_at(b, i));
        lemma_word_end_at(b, o, w, i + 1);
    }
}

/// The bytes at `o` that spell an ASCII word decode to it.
proof fn lemma_span_of_word(b: Seq<u8>, o: int, w: Seq<char>)
    requires
        all_alnum(w),
        0 <= o,
        o + w.len() <= b.len(),
        forall|k: int| 0 <= k < w.len() ==> b[o + k] == #[trigger] w[k] as u8,
    ensures
        span_text(b, o, o + w.len()) == w,
{
    let sub = b.subrange(o, o + w.len());
    assert forall|i: int| 0 <= i < sub.len() implies #[trigger] sub[i] < 0x80 by {
        assert(sub[i] == b[o + i]);
        lemma_alnum_byte(w[i]);
    }
    lemma_decode_ascii(sub);
    let d = decode_utf8(sub);
    assert forall|i: int| 0 <= i < w.len() implies d[i] == w[i] by {
        assert(sub[i] == b[o + i]);
        lemma_alnum_byte(w[i]);
        char_u32_cast(d[i], d[i] as u32);
        char_u32_cast(w[i], w[i] as u32);
    }
    assert(d =~= w);
}

/// The words of `b` from `o` on, where the bytes there spell words of one
/// case joined with `_`, are those words.
proof fn lemma_words_of_join(b: Seq<u8>, o: int, ws: Seq<Seq<char>>)
    requires
        0 <= o <= b.len(),
        forall|k: int| 0 <= k < ws.len() ==> one_case_word(#[trigger] ws[k]),
        b.len() - o == join(ws, '_').len(),
        forall|i: int| 0 <= i < join(ws, '_').len() ==> b[o + i] == #[trigger] join(ws, '_')[i] as u8,
    ensures
        word_ranges(b, o).map_values(|r: (int, int)| span_text(b, r.0, r.1)) == ws,
    decreases ws.len(),
{
    let j = join(ws, '_');
    if ws.len() == 0 {
        assert(word_ranges(b, o) =~= seq![]);
        assert(word_ranges(b, o).map_values(|r: (int, int)| span_text(b, r.0, r.1)) =~= ws);
    } else {
        let w = ws[0];
        let n = w.len() as int;
        let rest = ws.drop_first();
        assert(one_case_word(w));
        if ws.len() >= 2 {
            lemma_join_front(ws, '_');
        }
        assert forall|k: int| 0 <= k < n implies b[o + k] == #[trigger] w[k] as u8 by {
            assert(j[k] == w[k]);
        }
        if ws.len() >= 2 {
            assert(j[n] == '_');
            assert(b[o + n] == 95);
        }
        lemma_word_end_at(b, o, w, o + 1);
        lemma_span_of_word(b, o, w);
        lemma_alnum_byte(w[0]);
        assert(skip_seps(b, o) == o);
        assert(word_ranges(b, o) == seq![(o, o + n)] + word_ranges(b, o + n));
        if ws.len() == 1 {
            assert(word_ranges(b, o + n) =~= seq![]);
        } else {
            let jr = join(rest, '_');
            assert forall|k: int| 0 <= k < rest.len() implies one_case_word(#[trigger] rest[k]) by {
                assert(rest[k] == ws[k + 1]);
            }
            assert forall|i: int| 0 <= i < jr.len() implies b[o + n + 1 + i] == #[trigger] jr[i] as u8 by {
                assert(j[n + 1 + i] == jr[i]);
            }
            lemma_words_of_join(b, o + n + 1, rest);
            lemma_word_ranges_skip(b, o + n);
            lemma_word_ranges_skip(b, o + n + 1);
            assert(skip_seps(b, o + n) == skip_seps(b, o + n + 1));
            let tail = word_ranges(b, o + n + 1);
            assert(tail.map_values(|r: (int, int)| span_text(b, r.0, r.1)) == rest);
            let rs = word_ranges(b, o);
            assert(rs == seq![(o, o + n)] + tail);
            assert forall|k: int| 1 <= k < rs.len() implies span_text(b, #[trigger] rs[k].0, rs[k].1) == ws[k] by {
                assert(rs[k] == tail[k - 1]);
                assert(tail.map_values(|r: (int, int)| span_text(b, r.0, r.1))[k - 1] == rest[k - 1]);
                assert(rest[k - 1] == ws[k]);
            }
        }
        assert(word_ranges(b, o).map_values(|r: (int, int)| span_text(b, r.0, r.1)) =~= ws);
    }
}

/// The words of one case joined with `_`, read back as UTF-8, are those words.
proof fn lemma_words_of_joined(ws: Seq<Seq<char>>)
    requires
        forall|k: int| 0 <= k < ws.len() ==> one_case_word(#[trigger] ws[k]),
    ensures
        words(encode_utf8(join(ws, '_'))) == ws,
{
    let j = join(ws, '_');
    lemma_join_chars(ws);
    assert(is_ascii_chars(j)) by {
        assert forall|i: int| 0 <= i < j.len() implies '\0' <= #[trigger] j[i] <= '\u{7f}' by {
            assert(is_alnum_char(j[i]) || j[i] == '_');
        }
    }
    is_ascii_chars_encode_utf8(j);
    let bytes = encode_utf8(j);
    lemma_words_of_join(bytes, 0, ws);
    assert(words(bytes) =~= ws);
}

/// snake_case is kept by snake_case and by SCREAMING_SNAKE_CASE followed by
/// snake_case; SCREAMING_SNAKE_CASE likewise. Each conversion here reads the
/// UTF-8 encoding of the text that the other wrote.
pub proof fn law_snake_scream_round_trips(b: Seq<u8>)
    ensures
        spec_snake(encode_utf8(spec_snake(b))) == spec_snake(b),
        spec_snake(encode_utf8(spec_scream(b))) == spec_snake(b),
        spec_scream(encode_utf8(spec_snake(b))) == spec_scream(b),
        spec_scream(encode_utf8(spec_scream(b))) == spec_scream(b),
{
    let ws = words(b);
    let lw = lower_words(ws);
    let uw = upper_words(ws);
    lemma_words_alnum(b);
    lemma_map_join(ws);
    assert forall|k: int| 0 <= k < ws.len() implies one_case_word(#[trigger] lw[k]) && one_case_word(uw[k]) by {
        lemma_one_case(ws[k]);
    }
    assert forall|k: int| 0 <= k < lw.len() implies one_case_word(#[trigger] lw[k]) by {}
    assert forall|k: int| 0 <= k < uw.len() implies one_case_word(#[trigger] uw[k]) by {
        assert(one_case_word(lw[k]) && one_case_word(uw[k]));
    }
    lemma_words_of_joined(lw);
    lemma_words_of_joined(uw);
    lemma_map_join(lw);
    lemma_map_join(uw);
    assert forall|k: int| 0 <= k < ws.len() implies #[trigger] lower_words(lw)[k] == lw[k] && lower_words(uw)[k]
        == lw[k] && upper_words(lw)[k] == uw[k] && upper_words(uw)[k] == uw[k] by {
        lemma_lower_of_upper(ws[k]);
    }
    assert(lower_words(lw) =~= lw);
    assert(lower_words(uw) =~= lw);
    assert(upper_words(lw) =~= uw);
    assert(upper_words(uw) =~= uw);
}

} // verus!
