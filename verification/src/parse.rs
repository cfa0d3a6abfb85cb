//! Decimal integers read from text, as `str::parse` reads them.
use vstd::prelude::*;
use crate::text::chars_of;

verus! {

/// `c` is one of the ASCII digits `0` to `9`.
pub open spec fn is_ascii_digit(c: char) -> bool {
    '0' <= c && c <= '9'
}

/// Every character of `s` is an ASCII digit.
pub open spec fn all_ascii_digits(s: Seq<char>) -> bool {
    forall|i: int| 0 <= i < s.len() ==> #[trigger] is_ascii_digit(s[i])
}

/// The value of the ASCII digits `s`, read in base 10.
pub open spec fn digits_value(s: Seq<char>) -> nat
    decreases s.len(),
{
    if s.len() == 0 {
        0
    } else {
        digits_value(s.drop_last()) * 10 + ((s.last() as u32) - 48) as nat
    }
}

/// The digits of an unsigned number: the text without an optional leading
/// `+`.
pub open spec fn unsigned_digits(s: Seq<char>) -> Seq<char> {
    if s.len() > 0 && s[0] == '+' {
        s.drop_first()
    } else {
        s
    }
}

/// What `str::parse::<usize>` gives for `s`: an optional `+`, then at least
/// one ASCII digit and nothing else, with a value that fits in `usize`.
pub open spec fn spec_parse_usize(s: Seq<char>) -> Option<nat> {
    let ds = unsigned_digits(s);
    if ds.len() > 0 && all_ascii_digits(ds) && digits_value(ds) <= usize::MAX {
        Some(digits_value(ds))
    } else {
        None
    }
}

/// What `str::parse::<i32>` gives for `s`: an optional sign, then at least
/// one ASCII digit and nothing else, with a value that fits in `i32`.
pub open spec fn spec_parse_i32(s: Seq<char>) -> Option<int> {
    if s.len() > 0 && s[0] == '-' {
        let ds = s.drop_first();
        if ds.len() > 0 && all_ascii_digits(ds) && digits_value(ds) <= 0x8000_0000 {
            Some(-(digits_value(ds) as int))
        } else {
            None
        }
    } else {
        let ds = unsigned_digits(s);
        if ds.len() > 0 && all_ascii_digits(ds) && digits_value(ds) <= 0x7fff_ffff {
            Some(digits_value(ds) as int)
        } else {
            None
        }
    }
}

/// Appending digits never makes a number smaller.
proof fn lemma_digits_value_grows(s: Seq<char>, k: int)
    requires
        0 <= k <= s.len(),
        all_ascii_digits(s),
    ensures
        digits_value(s.take(k)) <= digits_value(s),
    decreases s.len() - k,
{
    if k < s.len() {
        lemma_digits_value_grows(s, k + 1);
        assert(s.take(k + 1).drop_last() =~= s.take(k));
        assert(is_ascii_digit(s[k]));
    } else {
        assert(s.take(k) =~= s);
    }
}

/// The value of the ASCII digits `v[from..]`, or `None` once it passes
/// `bound`.
fn digits_up_to(v: &Vec<char>, from: usize, bound: u64) -> (r: Option<u64>)
    requires
        from <= v@.len(),
        bound >= 9,
    ensures
        match r {
            Some(x) => all_ascii_digits(v@.skip(from as int)) && x == digits_value(
                v@.skip(from as int),
            ) && x <= bound,
            None => !all_ascii_digits(v@.skip(from as int)) || digits_value(v@.skip(from as int))
                > bound,
        },
{
    let ghost ds = v@.skip(from as int);
    let mut acc: u64 = 0;
    let mut i: usize = from;
    while i < v.len()
        invariant
            from <= i <= v@.len(),
            ds == v@.skip(from as int),
            all_ascii_digits(ds.take(i - from)),
            acc == digits_value(ds.take(i - from)),
            acc <= bound,
            bound >= 9,
        decreases v@.len() - i,
    {
        let c = v[i];
        proof {
            assert(ds[i - from] == c);
        }
        if !('0' <= c && c <= '9') {
            proof {
                assert(!is_ascii_digit(ds[i - from]));
            }
            return None;
        }
        let cu: u32 = c as u32;
        proof {
            assert(48 <= cu <= 57);
        }
        let d: u64 = (cu - 48) as u64;
        proof {
            assert(ds.take(i - from + 1).drop_last() =~= ds.take(i - from));
            assert(ds.take(i - from + 1).last() == c);
        }
        if acc > (bound - d) / 10 {
            proof {
                assert(digits_value(ds.take(i - from + 1)) > bound) by (nonlinear_arith)
                    requires
                        digits_value(ds.take(i - from + 1)) == acc * 10 + d,
                        acc > (bound - d) / 10,
                        d <= 9,
                        d <= bound,
                ;
                assert forall|k: int| 0 <= k < i - from + 1 implies #[trigger] is_ascii_digit(
                    ds.take(i - from + 1)[k],
                ) by {
                    if k < i - from {
                        assert(ds.take(i - from + 1)[k] == ds.take(i - from)[k]);
                    }
                }
                if all_ascii_digits(ds) {
                    lemma_digits_value_grows(ds, i - from + 1);
                }
            }
            return None;
        }
        proof {
            assert(acc * 10 + d <= bound) by (nonlinear_arith)
                requires
                    acc <= (bound - d) / 10,
                    d <= 9,
            ;
        }
        acc = acc * 10 + d;
        i = i + 1;
        proof {
            assert forall|k: int| 0 <= k < i - from implies #[trigger] is_ascii_digit(
                ds.take(i - from)[k],
            ) by {
                if k < i - from - 1 {
                    assert(ds.take(i - from)[k] == ds.take(i - from - 1)[k]);
                }
            }
        }
    }
    proof {
        assert(ds.take(i - from) =~= ds);
    }
    Some(acc)
}

/// `s.parse::<usize>()`, as an `Option`.
pub fn parse_usize(s: &str) -> (r: Option<usize>)
    ensures
        match r {
            Some(n) => spec_parse_usize(s@) == Some(n as nat),
            None => spec_parse_usize(s@) is None,
        },
{
    let v = chars_of(s);
    let from: usize = if v.len() > 0 && v[0] == '+' {
        1
    } else {
        0
    };
    proof {
        if from == 1 {
            assert(v@.skip(1) =~= v@.drop_first());
        } else {
            assert(v@.skip(0) =~= v@);
        }
    }
    if from == v.len() {
        return None;
    }
    match digits_up_to(&v, from, usize::MAX as u64) {
        Some(x) => Some(x as usize),
        None => None,
    }
}

/// `s.parse::<i32>()`, as an `Option`.
pub fn parse_i32(s: &str) -> (r: Option<i32>)
    ensures
        match r {
            Some(n) => spec_parse_i32(s@) == Some(n as int),
            None => spec_parse_i32(s@) is None,
        },
{
    let v = chars_of(s);
    if v.len() > 0 && v[0] == '-' {
        proof {
            assert(v@.skip(1) =~= v@.drop_first());
        }
        if v.len() == 1 {
            return None;
        }
        match digits_up_to(&v, 1, 0x8000_0000) {
            Some(x) => {
                if x == 0x8000_0000 {
                    Some(i32::MIN)
                } else {
                    Some(-(x as i32))
                }
            },
            None => None,
        }
    } else {
        let from: usize = if v.len() > 0 && v[0] == '+' {
            1
        } else {
            0
        };
        proof {
            if from == 1 {
                assert(v@.skip(1) =~= v@.drop_first());
            } else {
                assert(v@.skip(0) =~= v@);
            }
        }
        if from == v.len() {
            return None;
        }
        match digits_up_to(&v, from, 0x7fff_ffff) {
            Some(x) => Some(x as i32),
            None => None,
        }
    }
}

} // verus!
