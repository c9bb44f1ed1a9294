//! Decimal integer parsing, as `str::parse` does it for the integer types: an
//! optional sign (`+`, and `-` for signed types), then at least one ASCII
//! digit, and a value that fits the type.
use vstd::prelude::*;

verus! {

pub open spec fn is_digit_byte(c: u8) -> bool {
    48 <= c <= 57
}

/// The value of a sequence of decimal digits.
pub open spec fn digits_value(ds: Seq<u8>) -> int
    decreases ds.len(),
{
    if ds.len() == 0 {
        0
    } else {
        digits_value(ds.drop_last()) * 10 + (ds.last() - 48)
    }
}

pub open spec fn all_digits(ds: Seq<u8>) -> bool {
    forall|i: int| 0 <= i < ds.len() ==> is_digit_byte(#[trigger] ds[i])
}

/// The integer that `bs` spells, if any: an optional `+` (or `-` when
/// `signed`), then one or more digits.
pub open spec fn spec_parse_int(bs: Seq<u8>, signed: bool) -> Option<int> {
    if bs.len() == 0 {
        None
    } else {
        let neg = signed && bs[0] == 45;
        let ds = if bs[0] == 43 || neg { bs.drop_first() } else { bs };
        if ds.len() == 0 || !all_digits(ds) {
            None
        } else if neg {
            Some(-digits_value(ds))
        } else {
            Some(digits_value(ds))
        }
    }
}

/// The value when it lies in `lo..=hi`.
pub open spec fn spec_parse_in(bs: Seq<u8>, signed: bool, lo: int, hi: int) -> Option<int> {
    match spec_parse_int(bs, signed) {
        Some(v) => if lo <= v <= hi {
            Some(v)
        } else {
            None
        },
        None => None,
    }
}

proof fn lemma_digits_value_nonneg(ds: Seq<u8>)
    requires
        all_digits(ds),
    ensures
        digits_value(ds) >= 0,
    decreases ds.len(),
{
    if ds.len() > 0 {
        lemma_digits_value_nonneg(ds.drop_last());
    }
}

/// Parses `bs` as a decimal integer; the magnitude is `None` when the text is
/// not an integer or its magnitude exceeds `u64::MAX`.
pub fn parse_magnitude(bs: &[u8], signed: bool) -> (r: (bool, Option<u64>))
    ensures
        !signed ==> !r.0,
        match r.1 {
            Some(m) => spec_parse_int(bs@, signed) == Some(if r.0 { -(m as int) } else { m as int }),
            None => spec_parse_int(bs@, signed) is None || (spec_parse_int(bs@, signed)
                matches Some(v) && (v > u64::MAX || v < -(u64::MAX as int))),
        },
{
    if bs.len() == 0 {
        return (false, None);
    }
    let neg = signed && bs[0] == 45;
    let start: usize = if bs[0] == 43 || neg { 1 } else { 0 };
    let ghost ds = if bs@[0] == 43 || neg { bs@.drop_first() } else { bs@ };
    assert(ds =~= bs@.subrange(start as int, bs@.len() as int));
    if start >= bs.len() {
        return (neg, None);
    }
    let mut i: usize = start;
    let mut m: u64 = 0;
    let mut overflow = false;
    while i < bs.len()
        invariant
            start <= i <= bs@.len(),
            bs@.len() > 0,
            neg == (signed && bs@[0] == 45),
            ds == (if bs@[0] == 43 || neg { bs@.drop_first() } else { bs@ }),
            ds == bs@.subrange(start as int, bs@.len() as int),
            all_digits(bs@.subrange(start as int, i as int)),
            !overflow ==> m as int == digits_value(bs@.subrange(start as int, i as int)),
            overflow ==> digits_value(bs@.subrange(start as int, i as int)) > u64::MAX,
        decreases bs@.len() - i,
    {
        let c = bs[i];
        if !(48 <= c && c <= 57) {
            assert(ds[i - start] == c);
            assert(!all_digits(ds)) by {
                assert(!is_digit_byte(ds[i - start]));
            }
            return (neg, None);
        }
        let ghost pre = bs@.subrange(start as int, i as int);
        let ghost cur = bs@.subrange(start as int, i as int + 1);
        assert(cur.drop_last() =~= pre);
        assert(cur.last() == c);
        proof {
            lemma_digits_value_nonneg(pre);
        }
        if !overflow {
            if m > (u64::MAX - (c - 48) as u64) / 10 {
                overflow = true;
                assert(digits_value(cur) > u64::MAX) by (nonlinear_arith)
                    requires
                        digits_value(cur) == digits_value(pre) * 10 + (c - 48),
                        m == digits_value(pre),
                        m > (u64::MAX - (c - 48) as u64) / 10,
                        0 <= c - 48 <= 9,
                ;
            } else {
                assert(m * 10 + (c - 48) <= u64::MAX) by (nonlinear_arith)
                    requires
                        m <= (u64::MAX - (c - 48) as u64) / 10,
                        0 <= c - 48 <= 9,
                ;
                m = m * 10 + (c - 48) as u64;
            }
        } else {
            assert(digits_value(cur) > u64::MAX) by (nonlinear_arith)
                requires
                    digits_value(cur) == digits_value(pre) * 10 + (c - 48),
                    digits_value(pre) > u64::MAX,
                    0 <= c - 48 <= 9,
            ;
        }
        assert(all_digits(cur)) by {
            assert forall|k: int| 0 <= k < cur.len() implies is_digit_byte(#[trigger] cur[k]) by {
                if k < cur.len() - 1 {
                    assert(cur[k] == pre[k]);
                }
            }
        }
        i += 1;
    }
    assert(bs@.subrange(start as int, i as int) == ds);
    if overflow {
        (neg, None)
    } else {
        (neg, Some(m))
    }
}

/// `str::parse::<usize>` on the given bytes.
pub fn parse_usize(bs: &[u8]) -> (r: Option<usize>)
    ensures
        match r {
            Some(v) => spec_parse_in(bs@, false, 0, usize::MAX as int) == Some(v as int),
            None => spec_parse_in(bs@, false, 0, usize::MAX as int) is None,
        },
{
    let (neg, m) = parse_magnitude(bs, false);
    match m {
        Some(m) => {
            if m as u128 <= usize::MAX as u128 {
                Some(m as usize)
            } else {
                None
            }
        },
        None => None,
    }
}

} // verus!
