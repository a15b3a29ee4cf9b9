//! Decimal reading and printing of 16-bit numbers, used for status
//! codes.

use vstd::prelude::*;

use crate::chars::{digit_char, digit_of, digit_val, is_digit, char_of_digit};

verus! {

/// Whether every character of `s` is a decimal digit.
pub open spec fn all_digits(s: Seq<char>) -> bool {
    forall|j: int| 0 <= j < s.len() ==> is_digit(s[j])
}

/// The value of a digit string read in base ten.
pub open spec fn digits_val(s: Seq<char>) -> int
    decreases s.len(),
{
    if s.len() == 0 {
        0
    } else {
        digits_val(s.drop_last()) * 10 + digit_val(s.last())
    }
}

/// What `str::parse::<u16>` accepts: an optional leading plus sign,
/// then at least one digit, with a value that fits in sixteen bits.
pub open spec fn u16_of(s: Seq<char>) -> Option<u16> {
    let t = if s.len() > 0 && s[0] == '+' {
        s.drop_first()
    } else {
        s
    };
    if t.len() > 0 && all_digits(t) && digits_val(t) <= 65535 {
        Some(digits_val(t) as u16)
    } else {
        None
    }
}

/// The decimal digit string of a non-negative value.
pub open spec fn dec_str(n: int) -> Seq<char>
    decreases n,
{
    if n < 10 {
        seq![digit_char(n)]
    } else {
        dec_str(n / 10).push(digit_char(n % 10))
    }
}

/// A digit-string value never shrinks when the string grows to the
/// right.
proof fn lemma_digits_val_prefix_le(s: Seq<char>, i: int)
    requires
        0 <= i <= s.len(),
        forall|j: int| 0 <= j < s.len() ==> is_digit(s[j]),
    ensures
        digits_val(s.subrange(0, i)) <= digits_val(s),
        digits_val(s) >= 0,
    decreases s.len(),
{
    if s.len() == 0 {
        assert(s.subrange(0, 0) =~= s);
    } else {
        let d = s.drop_last();
        assert(forall|j: int| 0 <= j < d.len() ==> is_digit(#[trigger] d[j]));
        lemma_digits_val_prefix_le(d, if i <= d.len() {
            i
        } else {
            d.len() as int
        });
        assert(digit_val(s.last()) >= 0);
        if i <= d.len() {
            assert(d.subrange(0, i) =~= s.subrange(0, i));
            assert(digits_val(d) * 10 + digit_val(s.last()) >= digits_val(d));
        } else {
            assert(s.subrange(0, i) =~= s);
        }
    }
}

/// Reads a 16-bit decimal number, as `str::parse::<u16>` would.
pub fn parse_u16(s: &str) -> (r: Option<u16>)
    ensures
        r == u16_of(s@),
{
    let n = s.unicode_len();
    let start: usize = if n > 0 && s.get_char(0) == '+' {
        1
    } else {
        0
    };
    let ghost t = if s@.len() > 0 && s@[0] == '+' {
        s@.drop_first()
    } else {
        s@
    };
    proof {
        assert(t =~= s@.subrange(start as int, n as int));
    }
    if start == n {
        return None;
    }
    let mut val: u32 = 0;
    let mut i: usize = start;
    while i < n
        invariant
            n == s@.len(),
            start <= i <= n,
            start < n,
            t == (if s@.len() > 0 && s@[0] == '+' {
                s@.drop_first()
            } else {
                s@
            }),
            t == s@.subrange(start as int, n as int),
            forall|j: int| start <= j < i ==> is_digit(s@[j]),
            val == digits_val(t.subrange(0, i - start)),
            val <= 65535,
        decreases n - i,
    {
        let c = s.get_char(i);
        match digit_of(c) {
            None => {
                proof {
                    assert(t[i - start] == s@[i as int]);
                    assert(!all_digits(t));
                }
                return None;
            },
            Some(d) => {
                let next: u32 = val * 10 + (d as u32);
                proof {
                    let pre = t.subrange(0, i - start);
                    let pre2 = t.subrange(0, i + 1 - start);
                    assert(pre2.drop_last() =~= pre);
                    assert(pre2.last() == s@[i as int]);
                    assert(digits_val(pre2) == val * 10 + digit_val(s@[i as int]));
                }
                if next > 65535 {
                    proof {
                        if all_digits(t) && digits_val(t) <= 65535 {
                            lemma_digits_val_prefix_le(t, i + 1 - start);
                        }
                    }
                    return None;
                }
                val = next;
                i = i + 1;
            },
        }
    }
    proof {
        assert(t.subrange(0, n - start) =~= t);
        assert forall|j: int| 0 <= j < t.len() implies is_digit(t[j]) by {
            assert(t[j] == s@[start + j]);
        }
    }
    Some(val as u16)
}

/// The decimal digits of a value are digits, the first is never a
/// zero unless it is the only one, and none is a plus sign.
pub proof fn lemma_dec_str_shape(n: int)
    requires
        n >= 0,
    ensures
        dec_str(n).len() > 0,
        all_digits(dec_str(n)),
        dec_str(n)[0] != '+',
    decreases n,
{
    if n < 10 {
    } else {
        lemma_dec_str_shape(n / 10);
        let s = dec_str(n);
        assert(s == dec_str(n / 10).push(digit_char(n % 10)));
        assert forall|j: int| 0 <= j < s.len() implies is_digit(s[j]) by {
            if j < s.len() - 1 {
                assert(s[j] == dec_str(n / 10)[j]);
            } else {
                assert(s[j] == digit_char(n % 10));
            }
        }
        assert(s[0] == dec_str(n / 10)[0]);
    }
}

/// Reading back the decimal digits of `n` yields `n`.
pub proof fn lemma_dec_str_val(n: int)
    requires
        n >= 0,
    ensures
        digits_val(dec_str(n)) == n,
    decreases n,
{
    if n < 10 {
        let s = dec_str(n);
        assert(s.drop_last() =~= Seq::<char>::empty());
        assert(s.last() == digit_char(n));
        assert(digits_val(s) == digits_val(Seq::<char>::empty()) * 10 + digit_val(digit_char(n)));
        assert(digit_val(digit_char(n)) == n);
    } else {
        lemma_dec_str_val(n / 10);
        let s = dec_str(n);
        assert(s.drop_last() =~= dec_str(n / 10));
        assert(s.last() == digit_char(n % 10));
        assert(digit_val(digit_char(n % 10)) == n % 10);
    }
}

/// Hence `str::parse::<u16>` accepts what this crate prints.
pub proof fn lemma_u16_round_trip(n: u16)
    ensures
        u16_of(dec_str(n as int)) == Some(n),
{
    lemma_dec_str_shape(n as int);
    lemma_dec_str_val(n as int);
}

/// Prints a value in decimal.
pub fn u16_to_string(n: u16) -> (r: String)
    ensures
        r@ == dec_str(n as int),
    decreases n,
{
    if n < 10 {
        let mut r = String::new();
        r.append(char_of_digit(n as u8));
        proof {
            assert(r@ =~= dec_str(n as int));
        }
        r
    } else {
        let mut r = u16_to_string(n / 10);
        r.append(char_of_digit((n % 10) as u8));
        proof {
            assert(r@ =~= dec_str(n as int / 10).push(digit_char(n as int % 10)));
        }
        r
    }
}

} // verus!
