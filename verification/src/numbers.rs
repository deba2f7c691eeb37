//! Reading signed integers out of attribute value text.

use crate::errors::Errors;
use vstd::prelude::*;

verus! {

/// An ASCII decimal digit.
pub open spec fn is_digit(c: char) -> bool {
    48 <= c as u32 <= 57
}

/// The numeric value of one digit character.
pub open spec fn digit_val(c: char) -> int {
    c as u32 - 48
}

/// Every character of `s` is a digit.
pub open spec fn all_digits(s: Seq<char>) -> bool {
    forall|i: int| 0 <= i < s.len() ==> is_digit(#[trigger] s[i])
}

/// The value of a digit string read in base ten.
pub open spec fn digits_val(s: Seq<char>) -> int
    decreases s.len(),
{
    if s.len() == 0 {
        0
    } else {
        digits_val(s.drop_last()) * 10 + digit_val(s.last())
    }
}

/// What a string denotes as a signed decimal integer: an optional `-` or
/// `+` sign followed by at least one digit, and nothing else. Any other
/// shape denotes nothing.
pub open spec fn spec_parse_i64(s: Seq<char>) -> Option<int> {
    if s.len() == 0 {
        None
    } else if s[0] == '-' {
        if s.len() > 1 && all_digits(s.subrange(1, s.len() as int)) {
            Some(-digits_val(s.subrange(1, s.len() as int)))
        } else {
            None
        }
    } else if s[0] == '+' {
        if s.len() > 1 && all_digits(s.subrange(1, s.len() as int)) {
            Some(digits_val(s.subrange(1, s.len() as int)))
        } else {
            None
        }
    } else {
        if all_digits(s) {
            Some(digits_val(s))
        } else {
            None
        }
    }
}

/// The denoted value exists and fits in an `i64`.
pub open spec fn in_i64_range(p: Option<int>) -> bool {
    match p {
        Some(v) => -0x8000000000000000 <= v <= 0x7fffffffffffffff,
        None => false,
    }
}

/// A digit string never denotes a negative value.
proof fn lemma_digits_val_nonneg(s: Seq<char>)
    requires
        all_digits(s),
    ensures
        digits_val(s) >= 0,
    decreases s.len(),
{
    if s.len() > 0 {
        lemma_digits_val_nonneg(s.drop_last());
    }
}

/// Extending a digit string can only grow the denoted value.
proof fn lemma_digits_val_prefix(s: Seq<char>, i: int)
    requires
        all_digits(s),
        0 <= i <= s.len(),
    ensures
        digits_val(s.subrange(0, i)) <= digits_val(s),
    decreases s.len() - i,
{
    if i < s.len() {
        let ext = s.subrange(0, i + 1);
        assert(ext.drop_last() =~= s.subrange(0, i));
        lemma_digits_val_nonneg(s.subrange(0, i));
        lemma_digits_val_prefix(s, i + 1);
    } else {
        assert(s.subrange(0, i) =~= s);
    }
}

/// Reads `s` as a signed decimal integer. Returns the denoted value
/// whenever `s` denotes one that fits in an `i64`; otherwise reports
/// `ParseInt` carrying `s`.
pub fn parse_i64(s: &str) -> (r: Result<i64, Errors>)
    ensures
        ({
            let p = spec_parse_i64(s@);
            match r {
                Ok(n) => p == Some(n as int),
                Err(e) => e matches Errors::ParseInt(t) && t@ == s@ && !in_i64_range(p),
            }
        }),
{
    let len = s.unicode_len();
    if len == 0 {
        return Err(Errors::ParseInt(s.to_owned()));
    }
    let first = s.get_char(0);
    let neg = first == '-';
    let start: usize = if first == '-' || first == '+' {
        1
    } else {
        0
    };
    if start == len {
        return Err(Errors::ParseInt(s.to_owned()));
    }
    let limit: u64 = if neg {
        9223372036854775808
    } else {
        9223372036854775807
    };
    let mut acc: u64 = 0;
    let mut i = start;
    while i < len
        invariant
            start <= i <= len,
            len == s@.len(),
            start == 1 <==> (s@[0] == '-' || s@[0] == '+'),
            start <= 1,
            len > start,
            neg == (s@[0] == '-'),
            limit == if neg {
                9223372036854775808u64
            } else {
                9223372036854775807u64
            },
            all_digits(s@.subrange(start as int, i as int)),
            acc == digits_val(s@.subrange(start as int, i as int)),
            acc <= limit,
        decreases len - i,
    {
        let ghost whole = s@.subrange(start as int, len as int);
        let ghost part = s@.subrange(start as int, i as int);
        let c = s.get_char(i);
        let cv = c as u32;
        if cv < 48 || cv > 57 {
            proof {
                assert(whole[i - start] == s@[i as int]);
                assert(!all_digits(whole));
            }
            return Err(Errors::ParseInt(s.to_owned()));
        }
        let d = (cv - 48) as u64;
        proof {
            assert(part.push(s@[i as int]) =~= s@.subrange(start as int, i + 1));
            assert(s@.subrange(start as int, i + 1).drop_last() =~= part);
        }
        let next = match acc.checked_mul(10) {
            Some(t) => match t.checked_add(d) {
                Some(n) => if n <= limit {
                    n
                } else {
                    proof {
                        lemma_out_of_range(s@, start as int, i as int, limit);
                    }
                    return Err(Errors::ParseInt(s.to_owned()));
                },
                None => {
                    proof {
                        lemma_out_of_range(s@, start as int, i as int, limit);
                    }
                    return Err(Errors::ParseInt(s.to_owned()));
                },
            },
            None => {
                proof {
                    lemma_out_of_range(s@, start as int, i as int, limit);
                }
                return Err(Errors::ParseInt(s.to_owned()));
            },
        };
        acc = next;
        i += 1;
    }
    proof {
        assert(s@.subrange(start as int, i as int) =~= s@.subrange(start as int, len as int));
        if start == 0 {
            assert(s@.subrange(0, len as int) =~= s@);
        }
    }
    if neg {
        if acc == 9223372036854775808 {
            Ok(i64::MIN)
        } else {
            Ok(-(acc as i64))
        }
    } else {
        Ok(acc as i64)
    }
}

/// When the digits read so far already exceed the magnitude bound, the
/// whole string denotes nothing an `i64` can hold.
proof fn lemma_out_of_range(s: Seq<char>, start: int, i: int, limit: u64)
    requires
        0 <= start <= i < s.len(),
        start <= 1,
        start == 1 <==> (s[0] == '-' || s[0] == '+'),
        limit == if s[0] == '-' {
            9223372036854775808u64
        } else {
            9223372036854775807u64
        },
        all_digits(s.subrange(start, i)),
        is_digit(s[i]),
        digits_val(s.subrange(start, i)) * 10 + digit_val(s[i]) > limit,
    ensures
        !in_i64_range(spec_parse_i64(s)),
{
    let whole = s.subrange(start, s.len() as int);
    let ext = s.subrange(start, i + 1);
    assert(ext.drop_last() =~= s.subrange(start, i));
    assert(ext.last() == s[i]);
    if all_digits(whole) {
        assert(whole.subrange(0, i + 1 - start) =~= ext);
        lemma_digits_val_prefix(whole, i + 1 - start);
        assert(digits_val(whole) >= digits_val(ext));
        if start == 0 {
            assert(s.subrange(0, s.len() as int) =~= s);
        }
    } else {
        if start == 0 {
            assert(whole =~= s);
        }
    }
}

} // verus!
