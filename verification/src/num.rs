//! Decimal text form of integers: formatting, parsing, and the proof
//! that the two invert each other. The store keeps its counter as
//! decimal text, and invocation output embeds the counter in decimal.

use vstd::prelude::*;
use crate::text::push_char;

verus! {

/// The character for one decimal digit.
pub open spec fn digit_char(d: int) -> char {
    if d == 0 { '0' }
    else if d == 1 { '1' }
    else if d == 2 { '2' }
    else if d == 3 { '3' }
    else if d == 4 { '4' }
    else if d == 5 { '5' }
    else if d == 6 { '6' }
    else if d == 7 { '7' }
    else if d == 8 { '8' }
    else { '9' }
}

/// Whether a character is a decimal digit.
pub open spec fn is_digit_char(c: char) -> bool {
    c == '0' || c == '1' || c == '2' || c == '3' || c == '4'
    || c == '5' || c == '6' || c == '7' || c == '8' || c == '9'
}

/// Numeric value of a digit character (0 on non-digits).
pub open spec fn digit_val(c: char) -> int {
    if c == '0' { 0 }
    else if c == '1' { 1 }
    else if c == '2' { 2 }
    else if c == '3' { 3 }
    else if c == '4' { 4 }
    else if c == '5' { 5 }
    else if c == '6' { 6 }
    else if c == '7' { 7 }
    else if c == '8' { 8 }
    else if c == '9' { 9 }
    else { 0 }
}

/// Decimal text of a natural number, most significant digit first.
pub open spec fn dec_of_nat(n: nat) -> Seq<char>
    decreases n,
{
    if n < 10 {
        seq![digit_char(n as int)]
    } else {
        dec_of_nat(n / 10).push(digit_char((n % 10) as int))
    }
}

/// Decimal text of an integer: a leading minus sign on negatives.
pub open spec fn dec_of_int(i: int) -> Seq<char> {
    if i < 0 {
        seq!['-'] + dec_of_nat((-i) as nat)
    } else {
        dec_of_nat(i as nat)
    }
}

/// Whether every character of the sequence is a decimal digit.
pub open spec fn all_digits(s: Seq<char>) -> bool {
    forall|i: int| 0 <= i < s.len() ==> is_digit_char(s[i])
}

/// Value of a digit sequence read as a base-10 numeral.
pub open spec fn digits_val(s: Seq<char>) -> int
    decreases s.len(),
{
    if s.len() == 0 {
        0
    } else {
        digits_val(s.drop_last()) * 10 + digit_val(s.last())
    }
}

/// Mathematical meaning of decimal text: the signed value it denotes,
/// or nothing when the text is not an optionally-signed digit string.
pub open spec fn parse_dec(s: Seq<char>) -> Option<int> {
    if s.len() >= 2 && s[0] == '-' && all_digits(s.skip(1)) {
        Some(-digits_val(s.skip(1)))
    } else if s.len() >= 1 && all_digits(s) {
        Some(digits_val(s))
    } else {
        None
    }
}

pub open spec fn pow10(k: nat) -> int
    decreases k,
{
    if k == 0 { 1 } else { 10 * pow10((k - 1) as nat) }
}

pub proof fn lemma_pow10_pos(k: nat)
    ensures
        pow10(k) >= 1,
    decreases k,
{
    if k > 0 {
        lemma_pow10_pos((k - 1) as nat);
    }
}

pub proof fn lemma_digits_val_nonneg(s: Seq<char>)
    requires
        all_digits(s),
    ensures
        digits_val(s) >= 0,
    decreases s.len(),
{
    if s.len() > 0 {
        assert(all_digits(s.drop_last()));
        lemma_digits_val_nonneg(s.drop_last());
    }
}

/// Reading a numeral left to right multiplies the prefix value by a
/// power of ten: the value of `p + q` in terms of the parts.
pub proof fn lemma_digits_val_append(p: Seq<char>, q: Seq<char>)
    ensures
        digits_val(p + q) == digits_val(p) * pow10(q.len()) + digits_val(q),
    decreases q.len(),
{
    if q.len() == 0 {
        assert(p + q =~= p);
    } else {
        lemma_digits_val_append(p, q.drop_last());
        assert((p + q).drop_last() =~= p + q.drop_last());
        assert((p + q).last() == q.last());
        assert(digits_val(p + q)
            == (digits_val(p) * pow10((q.len() - 1) as nat) + digits_val(q.drop_last())) * 10
                + digit_val(q.last()));
        assert((digits_val(p) * pow10((q.len() - 1) as nat)) * 10
            == digits_val(p) * (pow10((q.len() - 1) as nat) * 10)) by (nonlinear_arith);
        assert(pow10((q.len() - 1) as nat) * 10 == pow10(q.len()));
    }
}

/// Appending further digits never shrinks a numeral's value.
pub proof fn lemma_digits_val_extend(p: Seq<char>, q: Seq<char>)
    requires
        all_digits(p),
        all_digits(q),
    ensures
        digits_val(p + q) >= digits_val(p),
{
    lemma_digits_val_append(p, q);
    lemma_digits_val_nonneg(p);
    lemma_digits_val_nonneg(q);
    lemma_pow10_pos(q.len());
    let a = digits_val(p);
    let b = pow10(q.len());
    assert(a * b >= a) by (nonlinear_arith)
        requires
            a >= 0,
            b >= 1,
    ;
}

/// The value and shape of a single digit's character.
pub proof fn lemma_digit_char_val(d: int)
    requires
        0 <= d < 10,
    ensures
        digit_val(digit_char(d)) == d,
        is_digit_char(digit_char(d)),
        digit_char(d) != '-',
{
}

/// The decimal text of a natural number is a nonempty digit string
/// denoting that number.
pub proof fn lemma_dec_of_nat_props(n: nat)
    ensures
        all_digits(dec_of_nat(n)),
        dec_of_nat(n).len() >= 1,
        digits_val(dec_of_nat(n)) == n,
        is_digit_char(dec_of_nat(n)[0]),
    decreases n,
{
    if n < 10 {
        lemma_digit_char_val(n as int);
        let s = dec_of_nat(n);
        assert(s =~= seq![digit_char(n as int)]);
        assert(s.drop_last() =~= Seq::<char>::empty());
        assert(digits_val(s) == digits_val(s.drop_last()) * 10 + digit_val(s.last()));
        assert(digits_val(s) == n);
    } else {
        lemma_dec_of_nat_props(n / 10);
        lemma_digit_char_val((n % 10) as int);
        let s = dec_of_nat(n);
        assert(s.drop_last() =~= dec_of_nat(n / 10));
        assert(s.last() == digit_char((n % 10) as int));
        assert(digits_val(s) == (n / 10) * 10 + (n % 10));
        assert(s[0] == dec_of_nat(n / 10)[0]);
    }
}

/// Formatting then parsing a signed integer gives the integer back.
pub proof fn lemma_dec_round_trip(i: int)
    ensures
        parse_dec(dec_of_int(i)) == Some(i),
{
    if i < 0 {
        lemma_dec_of_nat_props((-i) as nat);
        let s = dec_of_int(i);
        assert(s.skip(1) =~= dec_of_nat((-i) as nat));
        assert(s[0] == '-');
    } else {
        lemma_dec_of_nat_props(i as nat);
        let s = dec_of_int(i);
        assert(is_digit_char(s[0]));
        assert(s[0] != '-');
    }
}

/// The digit character for a small number.
fn digit_char_x(d: u64) -> (c: char)
    requires
        d < 10,
    ensures
        c == digit_char(d as int),
{
    if d == 0 { '0' }
    else if d == 1 { '1' }
    else if d == 2 { '2' }
    else if d == 3 { '3' }
    else if d == 4 { '4' }
    else if d == 5 { '5' }
    else if d == 6 { '6' }
    else if d == 7 { '7' }
    else if d == 8 { '8' }
    else { '9' }
}

/// Formats an unsigned number as decimal text.
pub fn u64_to_string(n: u64) -> (s: String)
    ensures
        s@ == dec_of_nat(n as nat),
    decreases n,
{
    if n < 10 {
        let mut s = String::new();
        push_char(&mut s, digit_char_x(n));
        proof {
            assert(s@ =~= seq![digit_char(n as int)]);
        }
        s
    } else {
        let mut s = u64_to_string(n / 10);
        push_char(&mut s, digit_char_x(n % 10));
        proof {
            assert(n as nat / 10 == (n / 10) as nat);
            assert(n as nat % 10 == (n % 10) as nat);
        }
        s
    }
}

/// Formats a signed number as decimal text.
pub fn i64_to_string(n: i64) -> (s: String)
    ensures
        s@ == dec_of_int(n as int),
{
    if n >= 0 {
        u64_to_string(n as u64)
    } else {
        let m: u64 = if n == i64::MIN { 9223372036854775808u64 } else { (0i64 - n) as u64 };
        proof {
            assert(m as nat == (-(n as int)) as nat);
        }
        let mut s = String::new();
        push_char(&mut s, '-');
        let d = u64_to_string(m);
        let r = s.concat(d.as_str());
        proof {
            assert(r@ =~= seq!['-'] + dec_of_nat((-(n as int)) as nat));
        }
        r
    }
}

/// Tells a digit character from any other and gives its value.
fn digit_of(c: char) -> (r: Option<u64>)
    ensures
        match r {
            Some(d) => is_digit_char(c) && d < 10 && d as int == digit_val(c),
            None => !is_digit_char(c),
        },
{
    match c {
        '0' => Some(0),
        '1' => Some(1),
        '2' => Some(2),
        '3' => Some(3),
        '4' => Some(4),
        '5' => Some(5),
        '6' => Some(6),
        '7' => Some(7),
        '8' => Some(8),
        '9' => Some(9),
        _ => None,
    }
}

/// Parses decimal text into a signed 64-bit number. Returns nothing
/// exactly when the text denotes no integer or one outside the type's
/// range.
pub fn parse_i64(s: &str) -> (r: Option<i64>)
    ensures
        match r {
            Some(x) => parse_dec(s@) == Some(x as int),
            None => parse_dec(s@) is None
                || (parse_dec(s@) matches Some(v)
                    && (v < i64::MIN as int || v > i64::MAX as int)),
        },
{
    let chars = crate::text::str_to_chars(s);
    let n = chars.len();
    if n == 0 {
        return None;
    }
    let neg = chars[0] == '-';
    let start: usize = if neg { 1 } else { 0 };
    if start >= n {
        // a bare sign
        return None;
    }
    let ghost body = s@.skip(start as int);
    let mut i: usize = start;
    let mut acc: u64 = 0;
    while i < n
        invariant
            chars@ == s@,
            n == s@.len(),
            start <= i <= n,
            start < n,
            start == (if neg { 1int } else { 0int }),
            neg ==> s@[0] == '-',
            !neg ==> s@[0] != '-',
            body == s@.skip(start as int),
            all_digits(s@.subrange(start as int, i as int)),
            acc as int == digits_val(s@.subrange(start as int, i as int)),
        decreases n - i,
    {
        let c = chars[i];
        let ghost pre = s@.subrange(start as int, i as int);
        match digit_of(c) {
            None => {
                proof {
                    assert(!is_digit_char(s@[i as int]));
                    if neg {
                        assert(s@.skip(1)[i - 1] == s@[i as int]);
                        assert(!all_digits(s@.skip(1)));
                        assert(!is_digit_char('-'));
                        assert(!all_digits(s@)) by {
                            assert(s@[0] == '-');
                        }
                    } else {
                        assert(!all_digits(s@));
                        assert(s@[0] != '-');
                    }
                }
                return None;
            },
            Some(d) => {
                let ghost pre2 = s@.subrange(start as int, i as int + 1);
                proof {
                    assert(pre2.drop_last() =~= pre);
                    assert(pre2.last() == s@[i as int]);
                }
                if acc > (u64::MAX - d) / 10 {
                    // the numeral exceeds the 64-bit range however it continues
                    proof {
                        let a = acc as int;
                        let dv = d as int;
                        let top = u64::MAX as int;
                        assert(digits_val(pre2) == a * 10 + dv);
                        assert(a * 10 + dv > top) by (nonlinear_arith)
                            requires
                                a > (top - dv) / 10,
                                0 <= dv < 10,
                                a <= top,
                        ;
                        if parse_dec(s@) is Some {
                            lemma_digits_val_nonneg(pre2);
                            if neg {
                                assert(all_digits(s@.skip(1)));
                                let rest = s@.subrange(i as int + 1, n as int);
                                assert forall|j: int| 0 <= j < rest.len()
                                    implies is_digit_char(rest[j]) by {
                                    assert(rest[j] == s@.skip(1)[i as int + j]);
                                }
                                assert(s@.skip(1) =~= pre2 + rest);
                                lemma_digits_val_extend(pre2, rest);
                            } else {
                                assert(s@[0] != '-');
                                assert(all_digits(s@));
                                let rest = s@.subrange(i as int + 1, n as int);
                                assert forall|j: int| 0 <= j < rest.len()
                                    implies is_digit_char(rest[j]) by {
                                    assert(rest[j] == s@[i as int + 1 + j]);
                                }
                                assert(s@ =~= pre2 + rest);
                                lemma_digits_val_extend(pre2, rest);
                            }
                        }
                    }
                    return None;
                }
                acc = acc * 10 + d;
            },
        }
        i = i + 1;
    }
    proof {
        assert(s@.subrange(start as int, n as int) =~= body);
        if neg {
            assert(body =~= s@.skip(1));
            assert(n >= 2);
            assert(parse_dec(s@) == Some(-digits_val(s@.skip(1))));
        } else {
            assert(body =~= s@);
            assert(s@[0] != '-');
            assert(parse_dec(s@) == Some(digits_val(s@)));
        }
    }
    if neg {
        if acc > 9223372036854775808u64 {
            return None;
        }
        if acc == 9223372036854775808u64 {
            Some(i64::MIN)
        } else {
            Some(0i64 - (acc as i64))
        }
    } else {
        if acc > i64::MAX as u64 {
            return None;
        }
        Some(acc as i64)
    }
}

} // verus!
