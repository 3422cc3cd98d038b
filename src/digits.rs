//! Decimal digit strings: reading them as numbers and writing numbers as them.

use vstd::prelude::*;

verus! {

/// An ASCII decimal digit.
pub open spec fn is_digit(c: char) -> bool {
    '0' <= c && c <= '9'
}

/// Every character of `s` is an ASCII decimal digit.
pub open spec fn all_digits(s: Seq<char>) -> bool {
    forall|i: int| 0 <= i < s.len() ==> is_digit(#[trigger] s[i])
}

/// The numeric value of a decimal digit.
pub open spec fn digit_value(c: char) -> nat {
    (c as int - '0' as int) as nat
}

/// The decimal digit that denotes `d` (for `d < 10`).
pub open spec fn digit_char(d: nat) -> char {
    if d == 0 {
        '0'
    } else if d == 1 {
        '1'
    } else if d == 2 {
        '2'
    } else if d == 3 {
        '3'
    } else if d == 4 {
        '4'
    } else if d == 5 {
        '5'
    } else if d == 6 {
        '6'
    } else if d == 7 {
        '7'
    } else if d == 8 {
        '8'
    } else {
        '9'
    }
}

/// The number that a string of decimal digits denotes, most significant digit first.
pub open spec fn digits_value(s: Seq<char>) -> nat
    decreases s.len(),
{
    if s.len() == 0 {
        0
    } else {
        digits_value(s.drop_last()) * 10 + digit_value(s.last())
    }
}

/// `10` to the power `n`.
pub open spec fn pow10(n: nat) -> nat
    decreases n,
{
    if n == 0 {
        1
    } else {
        10 * pow10((n - 1) as nat)
    }
}

/// The decimal form of `n`: no sign, no leading zero, `"0"` for zero.
pub open spec fn decimal(n: nat) -> Seq<char>
    decreases n,
{
    if n < 10 {
        seq![digit_char(n)]
    } else {
        decimal(n / 10).push(digit_char(n % 10))
    }
}

/// The last `w` decimal digits of `n`, with leading zeros.
pub open spec fn fixed_digits(n: nat, w: nat) -> Seq<char>
    decreases w,
{
    if w == 0 {
        Seq::empty()
    } else {
        fixed_digits(n / 10, (w - 1) as nat).push(digit_char(n % 10))
    }
}

/// `n` in decimal, padded with leading zeros to at least `w` digits.
pub open spec fn padded_decimal(n: nat, w: nat) -> Seq<char> {
    if n < pow10(w) {
        fixed_digits(n, w)
    } else {
        decimal(n)
    }
}

/// The value of a non-empty digit string, when it fits in a `u32`.
pub open spec fn parse_decimal(s: Seq<char>) -> Option<u32> {
    if s.len() > 0 && all_digits(s) && digits_value(s) <= u32::MAX {
        Some(digits_value(s) as u32)
    } else {
        None
    }
}

pub proof fn lemma_digit_round_trip(c: char)
    requires
        is_digit(c),
    ensures
        digit_value(c) < 10,
        digit_char(digit_value(c)) == c,
{
}

pub proof fn lemma_digits_bound(s: Seq<char>)
    requires
        all_digits(s),
    ensures
        digits_value(s) < pow10(s.len()),
    decreases s.len(),
{
    if s.len() > 0 {
        let p = s.drop_last();
        assert(all_digits(p)) by {
            assert forall|i: int| 0 <= i < p.len() implies is_digit(#[trigger] p[i]) by {
                assert(p[i] == s[i]);
            }
        }
        lemma_digits_bound(p);
        assert(is_digit(s[s.len() - 1]));
        let a = digits_value(p);
        let b = pow10(p.len());
        assert(a * 10 + 9 < b * 10) by (nonlinear_arith)
            requires
                a < b,
        ;
    }
}

/// A prefix of a digit string never denotes more than the whole string.
pub proof fn lemma_digits_prefix_le(s: Seq<char>, n: int)
    requires
        all_digits(s),
        0 <= n <= s.len(),
    ensures
        digits_value(s.subrange(0, n)) <= digits_value(s),
    decreases s.len() - n,
{
    if n < s.len() {
        lemma_digits_prefix_le(s, n + 1);
        let q = s.subrange(0, n + 1);
        assert(q.drop_last() =~= s.subrange(0, n));
        let a = digits_value(s.subrange(0, n));
        assert(a <= a * 10) by (nonlinear_arith);
    } else {
        assert(s.subrange(0, n) =~= s);
    }
}

/// A digit string with no leading zero is written back unchanged by `decimal`.
pub proof fn lemma_decimal_of_digits(s: Seq<char>)
    requires
        all_digits(s),
        s.len() > 0,
        s[0] != '0',
    ensures
        decimal(digits_value(s)) == s,
        digits_value(s) > 0,
    decreases s.len(),
{
    let p = s.drop_last();
    let c = s.last();
    assert(is_digit(c));
    lemma_digit_round_trip(c);
    if s.len() == 1 {
        assert(p.len() == 0);
        assert(is_digit(s[0]));
        assert(decimal(digits_value(s)) =~= s);
    } else {
        assert(all_digits(p)) by {
            assert forall|i: int| 0 <= i < p.len() implies is_digit(#[trigger] p[i]) by {
                assert(p[i] == s[i]);
            }
        }
        assert(p[0] == s[0]);
        lemma_decimal_of_digits(p);
        let a = digits_value(p);
        let d = digit_value(c);
        let n = a * 10 + d;
        assert(n / 10 == a && n % 10 == d && n >= 10) by (nonlinear_arith)
            requires
                a > 0,
                d < 10,
                n == a * 10 + d,
        ;
        assert(decimal(n) == decimal(a).push(digit_char(d)));
        assert(decimal(n) =~= s);
    }
}

/// A digit string is the fixed-width form of its own value.
pub proof fn lemma_fixed_of_digits(s: Seq<char>)
    requires
        all_digits(s),
    ensures
        fixed_digits(digits_value(s), s.len()) == s,
    decreases s.len(),
{
    if s.len() > 0 {
        let p = s.drop_last();
        let c = s.last();
        assert(is_digit(c));
        lemma_digit_round_trip(c);
        assert(all_digits(p)) by {
            assert forall|i: int| 0 <= i < p.len() implies is_digit(#[trigger] p[i]) by {
                assert(p[i] == s[i]);
            }
        }
        lemma_fixed_of_digits(p);
        let a = digits_value(p);
        let d = digit_value(c);
        let n = a * 10 + d;
        assert(n / 10 == a && n % 10 == d) by (nonlinear_arith)
            requires
                d < 10,
                n == a * 10 + d,
        ;
        assert(fixed_digits(n, s.len()) =~= s);
    } else {
        assert(fixed_digits(digits_value(s), 0) =~= s);
    }
}

/// A digit string is the padded form of its own value, padded to its length.
pub proof fn lemma_padded_of_digits(s: Seq<char>)
    requires
        all_digits(s),
    ensures
        padded_decimal(digits_value(s), s.len()) == s,
{
    lemma_digits_bound(s);
    lemma_fixed_of_digits(s);
}

/// The decimal digit string of a single digit value.
fn digit_text(d: u32) -> (r: &'static str)
    requires
        d < 10,
    ensures
        r@ == seq![digit_char(d as nat)],
{
    proof {
        reveal_strlit("0");
        reveal_strlit("1");
        reveal_strlit("2");
        reveal_strlit("3");
        reveal_strlit("4");
        reveal_strlit("5");
        reveal_strlit("6");
        reveal_strlit("7");
        reveal_strlit("8");
        reveal_strlit("9");
    }
    let r = if d == 0 {
        "0"
    } else if d == 1 {
        "1"
    } else if d == 2 {
        "2"
    } else if d == 3 {
        "3"
    } else if d == 4 {
        "4"
    } else if d == 5 {
        "5"
    } else if d == 6 {
        "6"
    } else if d == 7 {
        "7"
    } else if d == 8 {
        "8"
    } else {
        "9"
    };
    assert(r@ =~= seq![digit_char(d as nat)]);
    r
}

/// Writes `n` in decimal.
pub fn decimal_string(n: u32) -> (r: String)
    ensures
        r@ == decimal(n as nat),
    decreases n,
{
    if n < 10 {
        String::from_str(digit_text(n))
    } else {
        let mut s = decimal_string(n / 10);
        s.append(digit_text(n % 10));
        s
    }
}

/// Writes the last `w` decimal digits of `n`, with leading zeros.
fn fixed_digits_string(n: u32, w: usize) -> (r: String)
    ensures
        r@ == fixed_digits(n as nat, w as nat),
    decreases w,
{
    if w == 0 {
        String::new()
    } else {
        let mut s = fixed_digits_string(n / 10, w - 1);
        s.append(digit_text(n % 10));
        s
    }
}

/// Writes `n` in decimal, padded with leading zeros to at least `w` digits.
pub fn padded_decimal_string(n: u32, w: usize) -> (r: String)
    ensures
        r@ == padded_decimal(n as nat, w as nat),
{
    let mut p: u64 = 1;
    let mut i: usize = 0;
    while i < w && p <= n as u64
        invariant
            i <= w,
            p == pow10(i as nat),
            p <= 0x1_0000_0000u64 * 10,
        decreases w - i,
    {
        p = p * 10;
        i = i + 1;
    }
    if (n as u64) < p {
        proof {
            lemma_pow10_mono(i as nat, w as nat);
        }
        fixed_digits_string(n, w)
    } else {
        proof {
            lemma_pow10_mono(i as nat, w as nat);
        }
        decimal_string(n)
    }
}

proof fn lemma_pow10_mono(a: nat, b: nat)
    requires
        a <= b,
    ensures
        pow10(a) <= pow10(b),
    decreases b - a,
{
    if a < b {
        lemma_pow10_mono(a, (b - 1) as nat);
    }
}

/// Reads the characters `from..to` of `s` as a decimal number.
/// Succeeds exactly when they are one or more digits whose value fits in a `u32`.
pub fn parse_decimal_range(s: &str, from: usize, to: usize) -> (r: Option<u32>)
    requires
        from <= to <= s@.len(),
    ensures
        r == parse_decimal(s@.subrange(from as int, to as int)),
{
    let ghost t = s@.subrange(from as int, to as int);
    if from == to {
        return None;
    }
    let mut acc: u64 = 0;
    let mut i: usize = from;
    while i < to
        invariant
            from <= i <= to <= s@.len(),
            t == s@.subrange(from as int, to as int),
            all_digits(t.subrange(0, i - from)),
            acc == digits_value(t.subrange(0, i - from)),
            acc <= u32::MAX,
        decreases to - i,
    {
        let c = s.get_char(i);
        let ghost k = i - from;
        assert(t[k] == c);
        if !('0' <= c && c <= '9') {
            assert(!all_digits(t));
            return None;
        }
        let d = (c as u32) - ('0' as u32);
        acc = acc * 10 + d as u64;
        i = i + 1;
        assert(t.subrange(0, k + 1).drop_last() =~= t.subrange(0, k));
        assert(all_digits(t.subrange(0, k + 1))) by {
            let q = t.subrange(0, k + 1);
            assert forall|j: int| 0 <= j < q.len() implies is_digit(#[trigger] q[j]) by {
                if j < k {
                    assert(q[j] == t.subrange(0, k)[j]);
                }
            }
        }
        if acc > 0xffff_ffffu64 {
            proof {
                if all_digits(t) {
                    lemma_digits_prefix_le(t, k + 1);
                }
            }
            return None;
        }
    }
    assert(t.subrange(0, to - from) =~= t);
    Some(acc as u32)
}

} // verus!
