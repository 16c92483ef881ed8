//! Parameters of the web API: the result limits and how a limit given in a
//! query string is read.
use vstd::prelude::*;
use crate::text::chars_of;

verus! {

/// The number of search results when the request gives none.
pub fn default_limit() -> (r: u32)
    ensures
        r == 10,
{
    10
}

/// The value of decimal digits.
pub open spec fn digits_value(d: Seq<char>) -> nat
    decreases d.len(),
{
    if d.len() == 0 {
        0
    } else {
        digits_value(d.drop_last()) * 10 + ((d.last() as int) - ('0' as int)) as nat
    }
}

/// Every character is an ASCII digit.
pub open spec fn all_digits(d: Seq<char>) -> bool {
    forall|i: int| 0 <= i < d.len() ==> '0' <= #[trigger] d[i] && d[i] <= '9'
}

/// What `u32::from_str` gives: the value of the digits after an optional
/// '+', when there is at least one digit, nothing else, and the value fits.
pub open spec fn parsed_u32(s: Seq<char>) -> Option<u32> {
    let d = if s.len() > 0 && s[0] == '+' {
        s.drop_first()
    } else {
        s
    };
    if d.len() > 0 && all_digits(d) && digits_value(d) <= u32::MAX {
        Some(digits_value(d) as u32)
    } else {
        None
    }
}

/// Reads a decimal `u32` (see `parsed_u32`).
pub fn parse_u32(s: &str) -> (r: Option<u32>)
    ensures
        r == parsed_u32(s@),
{
    let v = chars_of(s);
    let start: usize = if v.len() > 0 && v[0] == '+' {
        1
    } else {
        0
    };
    let ghost d = if s@.len() > 0 && s@[0] == '+' {
        s@.drop_first()
    } else {
        s@
    };
    assert(d =~= v@.subrange(start as int, v.len() as int));
    if start == v.len() {
        return None;
    }
    let mut value: u64 = 0;
    let mut i: usize = start;
    while i < v.len()
        invariant
            start <= i <= v.len(),
            v@ == s@,
            d == (if s@.len() > 0 && s@[0] == '+' {
                s@.drop_first()
            } else {
                s@
            }),
            d == v@.subrange(start as int, v.len() as int),
            all_digits(v@.subrange(start as int, i as int)),
            value == digits_value(v@.subrange(start as int, i as int)),
            value <= u32::MAX,
        decreases v.len() - i,
    {
        let c = v[i];
        let ghost pre = v@.subrange(start as int, i as int);
        let ghost next = v@.subrange(start as int, i + 1);
        assert(next.drop_last() =~= pre);
        assert(next.last() == c);
        if c < '0' || c > '9' {
            assert(!all_digits(d)) by {
                assert(d[i - start] == c);
            }
            assert(parsed_u32(s@) is None);
            return None;
        }
        let digit: u64 = (c as u64) - ('0' as u64);
        value = value * 10 + digit;
        assert(all_digits(next)) by {
            assert forall|k: int| 0 <= k < next.len() implies '0' <= #[trigger] next[k] && next[k] <= '9' by {
                if k < pre.len() {
                    assert(next[k] == pre[k]);
                }
            }
        }
        if value > 4294967295 {
            proof {
                if all_digits(d) {
                    lemma_digits_value_grows(d, i + 1 - start);
                    assert(d.take(i + 1 - start) =~= next);
                }
            }
            assert(parsed_u32(s@) is None);
            return None;
        }
        i = i + 1;
    }
    assert(v@.subrange(start as int, i as int) =~= d);
    Some(value as u32)
}

/// A longer run of digits is worth at least as much as its prefix.
proof fn lemma_digits_value_grows(d: Seq<char>, k: int)
    requires
        0 <= k <= d.len(),
        all_digits(d),
    ensures
        digits_value(d.take(k)) <= digits_value(d),
    decreases d.len() - k,
{
    if k < d.len() {
        lemma_digits_value_grows(d, k + 1);
        assert(d.take(k + 1).drop_last() =~= d.take(k));
        assert(d.take(k + 1).last() == d[k]);
        assert('0' <= d[k]);
    } else {
        assert(d.take(k) =~= d);
    }
}

/// The number of listed papers a query string asks for: its `limit` when
/// that reads as a `u32`, else 20.
pub fn list_limit(limit: Option<&str>) -> (r: u32)
    ensures
        r == match limit {
            Some(s) => match parsed_u32(s@) {
                Some(n) => n,
                None => 20u32,
            },
            None => 20u32,
        },
{
    match limit {
        Some(s) => match parse_u32(s) {
            Some(n) => n,
            None => 20,
        },
        None => 20,
    }
}

} // verus!
