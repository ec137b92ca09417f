//! Verified decimal text for signed integers: the store keeps numeric
//! values as decimal strings, so increment and decrement must parse and
//! reprint them exactly.

use vstd::prelude::*;
use vstd::arithmetic::div_mod::lemma_fundamental_div_mod;
use vstd::string::*;

verus! {

/// Whether `c` is a decimal digit.
pub open spec fn is_digit(c: char) -> bool {
    48 <= c as int <= 57
}

/// The numeric value of the digit `c`.
pub open spec fn digit_val(c: char) -> int {
    c as int - 48
}

/// Whether every character of `s` is a decimal digit.
pub open spec fn all_digits(s: Seq<char>) -> bool {
    forall|i: int| 0 <= i < s.len() ==> is_digit(s[i])
}

/// The value of a sequence of decimal digits, most significant first.
pub open spec fn digits_value(s: Seq<char>) -> int
    decreases s.len(),
{
    if s.len() == 0 {
        0
    } else {
        digits_value(s.drop_last()) * 10 + digit_val(s.last())
    }
}

/// Whether `s` is a well-formed signed decimal literal: an optional sign
/// followed by at least one digit.
pub open spec fn is_int_literal(s: Seq<char>) -> bool {
    if s.len() == 0 {
        false
    } else if s[0] == '-' || s[0] == '+' {
        s.len() >= 2 && all_digits(s.skip(1))
    } else {
        all_digits(s)
    }
}

/// The mathematical value of a well-formed signed decimal literal.
pub open spec fn int_literal_value(s: Seq<char>) -> int {
    if s.len() > 0 && s[0] == '-' {
        -digits_value(s.skip(1))
    } else if s.len() > 0 && s[0] == '+' {
        digits_value(s.skip(1))
    } else {
        digits_value(s)
    }
}

/// Whether `v` fits in a 64-bit signed integer.
pub open spec fn i64_in_range(v: int) -> bool {
    i64::MIN <= v <= i64::MAX
}

/// What `s` denotes as a 64-bit signed integer, if anything: the numeric
/// model behind `incr` and `decr`.
pub open spec fn i64_of_text(s: Seq<char>) -> Option<int> {
    if is_int_literal(s) && i64_in_range(int_literal_value(s)) {
        Some(int_literal_value(s))
    } else {
        None
    }
}

/// The digit character for a value `d` between 0 and 9.
pub open spec fn digit_char(d: int) -> char {
    if d == 0 {
        '0'
    } else if d == 1 {
        '1'
    } else if d == 2 {
        '2'
    } else if d == 3 {
        '3'
    } else if d == 4 {
        '4'
    } else if d == 5 {
        '5'
    } else if d == 6 {
        '6'
    } else if d == 7 {
        '7'
    } else if d == 8 {
        '8'
    } else {
        '9'
    }
}

/// The canonical decimal digits of a natural number, no sign, no leading
/// zeros (except for zero itself).
pub open spec fn dec_digits(n: nat) -> Seq<char>
    decreases n,
{
    if n < 10 {
        seq![digit_char(n as int)]
    } else {
        dec_digits(n / 10) + seq![digit_char((n % 10) as int)]
    }
}

/// The canonical decimal text of an integer: digits, with a leading `-`
/// when negative.
pub open spec fn int_to_dec(n: int) -> Seq<char> {
    if n >= 0 {
        dec_digits(n as nat)
    } else {
        seq!['-'] + dec_digits((-n) as nat)
    }
}

proof fn lemma_subrange_step(s: Seq<char>, a: int, i: int)
    requires
        0 <= a <= i < s.len(),
    ensures
        s.subrange(a, i + 1).drop_last() =~= s.subrange(a, i),
        s.subrange(a, i + 1).last() == s[i],
{
}

/// A digit sequence has a nonnegative value.
proof fn lemma_digits_nonneg(s: Seq<char>)
    requires
        all_digits(s),
    ensures
        digits_value(s) >= 0,
    decreases s.len(),
{
    if s.len() > 0 {
        assert(all_digits(s.drop_last()));
        lemma_digits_nonneg(s.drop_last());
        assert(digits_value(s.drop_last()) * 10 >= 0) by (nonlinear_arith)
            requires
                digits_value(s.drop_last()) >= 0,
        ;
    }
}

/// Extending a digit sequence never lowers its value.
proof fn lemma_digits_prefix(s: Seq<char>, j: int)
    requires
        0 <= j <= s.len(),
        all_digits(s),
    ensures
        digits_value(s.subrange(0, j)) <= digits_value(s),
    decreases s.len() - j,
{
    if j == s.len() {
        assert(s.subrange(0, j) =~= s);
    } else {
        lemma_subrange_step(s, 0, j);
        let p = digits_value(s.subrange(0, j));
        assert(all_digits(s.subrange(0, j)));
        lemma_digits_nonneg(s.subrange(0, j));
        assert(p * 10 >= p) by (nonlinear_arith)
            requires
                p >= 0,
        ;
        assert(digits_value(s.subrange(0, j + 1)) == p * 10 + digit_val(s[j]));
        lemma_digits_prefix(s, j + 1);
    }
}

/// The digit character of a digit value reads back as that value.
proof fn lemma_digit_char_val(d: int)
    requires
        0 <= d < 10,
    ensures
        digit_val(digit_char(d)) == d,
        is_digit(digit_char(d)),
{
    if d == 0 {
        assert(digit_char(0) == '0');
    } else if d == 1 {
    } else if d == 2 {
    } else if d == 3 {
    } else if d == 4 {
    } else if d == 5 {
    } else if d == 6 {
    } else if d == 7 {
    } else if d == 8 {
    } else {
    }
}

/// The canonical digits of a number are digits, and there is at least one.
proof fn lemma_dec_digits_shape(n: nat)
    ensures
        dec_digits(n).len() >= 1,
        all_digits(dec_digits(n)),
        is_digit(dec_digits(n)[0]),
    decreases n,
{
    if n < 10 {
    } else {
        lemma_dec_digits_shape(n / 10);
    }
}

/// Printing and re-reading a natural number gives the number back.
proof fn lemma_digits_value_of_dec(n: nat)
    ensures
        digits_value(dec_digits(n)) == n,
    decreases n,
{
    if n < 10 {
        lemma_digit_char_val(n as int);
        let s = dec_digits(n);
        assert(s.drop_last() =~= Seq::<char>::empty());
        assert(digits_value(s) == digits_value(s.drop_last()) * 10 + digit_val(s.last()));
    } else {
        lemma_digits_value_of_dec(n / 10);
        lemma_digit_char_val((n % 10) as int);
        let s = dec_digits(n);
        assert(s.drop_last() =~= dec_digits(n / 10));
        assert(s.last() == digit_char((n % 10) as int));
        lemma_fundamental_div_mod(n as int, 10);
    }
}

/// Printing and re-reading an integer gives the integer back: the law
/// behind chained increments.
pub proof fn lemma_int_to_dec_roundtrip(n: int)
    requires
        i64_in_range(n),
    ensures
        i64_of_text(int_to_dec(n)) == Some(n),
{
    if n >= 0 {
        lemma_dec_digits_shape(n as nat);
        lemma_digits_value_of_dec(n as nat);
        let s = int_to_dec(n);
        assert(s[0] != '-' && s[0] != '+');
    } else {
        lemma_dec_digits_shape((-n) as nat);
        lemma_digits_value_of_dec((-n) as nat);
        let s = int_to_dec(n);
        assert(s[0] == '-');
        assert(s.skip(1) =~= dec_digits((-n) as nat));
    }
}

/// The single-character text of a digit value below ten.
fn digit_str(d: u64) -> (r: &'static str)
    requires
        d < 10,
    ensures
        r@ =~= seq![digit_char(d as int)],
{
    proof {
        reveal_strlit("0");
        reveal_strlit("1");
        reveal_strlit("2");
        reveal_strlit("3");
        reveal_strlit("4");
        reveal_strlit("5");
        reveal_strlit("6");
        reveal_strlit("7");
        reveal_strlit("8");
        reveal_strlit("9");
    }
    if d == 0 {
        "0"
    } else if d == 1 {
        "1"
    } else if d == 2 {
        "2"
    } else if d == 3 {
        "3"
    } else if d == 4 {
        "4"
    } else if d == 5 {
        "5"
    } else if d == 6 {
        "6"
    } else if d == 7 {
        "7"
    } else if d == 8 {
        "8"
    } else {
        "9"
    }
}

/// The decimal text of an unsigned number.
fn format_u64(n: u64) -> (r: String)
    ensures
        r@ =~= dec_digits(n as nat),
    decreases n,
{
    if n < 10 {
        String::from_str(digit_str(n))
    } else {
        let q = format_u64(n / 10);
        q.concat(digit_str(n % 10))
    }
}

/// The decimal text of a signed number.
pub fn format_i64(n: i64) -> (r: String)
    ensures
        r@ =~= int_to_dec(n as int),
{
    if n >= 0 {
        format_u64(n as u64)
    } else {
        let mag: u64 = ((-(n + 1)) as u64) + 1;
        assert(mag == -(n as int));
        proof {
            reveal_strlit("-");
        }
        String::from_str("-").concat(format_u64(mag).as_str())
    }
}

/// Reads a signed decimal literal, exactly when `s` denotes a value in
/// the 64-bit signed range.
pub fn parse_i64(s: &str) -> (r: Option<i64>)
    ensures
        match r {
            Some(n) => i64_of_text(s@) == Some(n as int),
            None => i64_of_text(s@) is None,
        },
{
    let len = s.unicode_len();
    if len == 0 {
        return None;
    }
    let c0 = s.get_char(0);
    let (neg, start): (bool, usize) = if c0 == '-' {
        (true, 1)
    } else if c0 == '+' {
        (false, 1)
    } else {
        (false, 0)
    };
    if len == start {
        return None;
    }
    let ghost ds = s@.skip(start as int);
    let mut acc: u64 = 0;
    let mut i: usize = start;
    while i < len
        invariant
            len == s@.len(),
            start <= i <= len,
            start <= 1,
            start < len,
            ds == s@.skip(start as int),
            acc == digits_value(ds.subrange(0, i - start)),
            all_digits(ds.subrange(0, i - start)),
            start == 1 ==> (s@[0] == '-' || s@[0] == '+'),
            start == 0 ==> (s@[0] != '-' && s@[0] != '+'),
            neg <==> (start == 1 && s@[0] == '-'),
        decreases len - i,
    {
        let c = s.get_char(i);
        let u = c as u32;
        proof {
            assert(ds[i - start] == s@[i as int]);
        }
        if u < 48 || u > 57 {
            proof {
                assert(!is_digit(ds[i - start]));
                assert(!all_digits(ds));
                assert(!is_int_literal(s@)) by {
                    if start == 0 {
                        assert(ds =~= s@);
                    } else {
                        assert(ds =~= s@.skip(1));
                    }
                }
            }
            return None;
        }
        let d = (u - 48) as u64;
        proof {
            lemma_subrange_step(ds, 0, i - start);
            assert(ds.subrange(0, i - start + 1).last() == ds[i - start]);
        }
        let next = match acc.checked_mul(10) {
            Some(a) => a.checked_add(d),
            None => None,
        };
        match next {
            Some(b) => {
                acc = b;
            },
            None => {
                // The magnitude already exceeds the unsigned 64-bit range,
                // so the full literal cannot denote a 64-bit value.
                proof {
                    let m = i - start + 1;
                    assert(digits_value(ds.subrange(0, m)) == acc * 10 + d);
                    assert(acc * 10 + d > u64::MAX);
                    if all_digits(ds) {
                        lemma_digits_prefix(ds, m);
                        lemma_digits_nonneg(ds);
                        assert(digits_value(ds) > u64::MAX);
                        if start == 0 {
                            assert(ds =~= s@);
                            assert(int_literal_value(s@) == digits_value(ds));
                        } else {
                            assert(ds =~= s@.skip(1));
                            if neg {
                                assert(int_literal_value(s@) == -digits_value(ds));
                            } else {
                                assert(int_literal_value(s@) == digits_value(ds));
                            }
                        }
                        assert(!i64_in_range(int_literal_value(s@)));
                    } else {
                        assert(!is_int_literal(s@)) by {
                            if start == 0 {
                                assert(ds =~= s@);
                            } else {
                                assert(ds =~= s@.skip(1));
                            }
                        }
                    }
                }
                return None;
            },
        }
        i += 1;
    }
    proof {
        assert(ds.subrange(0, len - start) =~= ds);
        if start == 0 {
            assert(ds =~= s@);
            assert(is_int_literal(s@));
            assert(int_literal_value(s@) == digits_value(ds));
        } else {
            assert(ds =~= s@.skip(1));
            assert(is_int_literal(s@));
            if neg {
                assert(int_literal_value(s@) == -digits_value(ds));
            } else {
                assert(int_literal_value(s@) == digits_value(ds));
            }
        }
    }
    if neg {
        if acc > 9223372036854775808u64 {
            return None;
        }
        if acc == 9223372036854775808u64 {
            Some(i64::MIN)
        } else {
            Some(-(acc as i64))
        }
    } else {
        if acc > 9223372036854775807u64 {
            return None;
        }
        Some(acc as i64)
    }
}

} // verus!
