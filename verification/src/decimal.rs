//! Decimal text of unsigned integers, as `to_string` writes it and as
//! `str::parse` reads it.
use vstd::prelude::*;

verus! {

/// ASCII `0`.
pub const ZERO: u8 = 0x30;
/// ASCII `9`.
pub const NINE: u8 = 0x39;
/// ASCII `+`.
pub const PLUS: u8 = 0x2b;

/// The ASCII byte of decimal digit `d`.
pub open spec fn digit_byte(d: nat) -> u8 {
    (ZERO + d) as u8
}

pub open spec fn is_digit(b: u8) -> bool {
    ZERO <= b <= NINE
}

/// Decimal text of `n`: no sign, no leading zeros, at least one digit.
pub open spec fn decimal(n: nat) -> Seq<u8>
    decreases n,
{
    if n < 10 {
        seq![digit_byte(n)]
    } else {
        decimal(n / 10).push(digit_byte(n % 10))
    }
}

/// The value of a run of decimal digits.
pub open spec fn digits_value(s: Seq<u8>) -> nat
    decreases s.len(),
{
    if s.len() == 0 {
        0
    } else {
        digits_value(s.drop_last()) * 10 + (s.last() - ZERO) as nat
    }
}

pub open spec fn all_digits(s: Seq<u8>) -> bool {
    forall|i: int| 0 <= i < s.len() ==> is_digit(#[trigger] s[i])
}

/// What `str::parse::<u16>` gives for the text `s`: an optional `+`, then
/// one or more decimal digits whose value fits in a `u16`.
pub open spec fn parse_u16_spec(s: Seq<u8>) -> Option<u16> {
    let digits = if s.len() > 0 && s[0] == PLUS {
        s.skip(1)
    } else {
        s
    };
    if digits.len() == 0 || !all_digits(digits) {
        None
    } else if digits_value(digits) <= u16::MAX {
        Some(digits_value(digits) as u16)
    } else {
        None
    }
}

/// Appends the decimal text of `n`.
pub fn push_decimal(out: &mut Vec<u8>, n: u64)
    ensures
        final(out)@ == old(out)@ + decimal(n as nat),
    decreases n,
{
    if n >= 10 {
        push_decimal(out, n / 10);
    }
    let d: u8 = (n % 10) as u8;
    out.push(ZERO + d);
    assert(old(out)@ + decimal(n as nat) =~= out@);
}

/// The decimal text of `n`.
pub fn to_decimal(n: u64) -> (text: Vec<u8>)
    ensures
        text@ == decimal(n as nat),
{
    let mut text: Vec<u8> = Vec::new();
    push_decimal(&mut text, n);
    assert(text@ =~= decimal(n as nat));
    text
}

proof fn lemma_saturate_step(v: nat, d: nat)
    requires
        d < 10,
    ensures
        ({
            let c: nat = 65536;
            let sv: nat = if v < c { v } else { c };
            let lhs: nat = if sv * 10 + d < c { sv * 10 + d } else { c };
            let rhs: nat = if v * 10 + d < c { v * 10 + d } else { c };
            lhs == rhs
        }),
{
    if v >= 65536 {
        assert(v * 10 >= 65536 * 10) by (nonlinear_arith)
            requires
                v >= 65536,
        ;
    }
}

/// Reads `text` as `str::parse::<u16>` does; `None` where it gives an error.
pub fn parse_u16(text: &[u8]) -> (r: Option<u16>)
    ensures
        r == parse_u16_spec(text@),
{
    let ghost s = text@;
    let mut start: usize = 0;
    if text.len() > 0 && text[0] == PLUS {
        start = 1;
    }
    let ghost digits = s.skip(start as int);
    assert(digits == (if s.len() > 0 && s[0] == PLUS { s.skip(1) } else { s })) by {
        if start == 0 {
            assert(s.skip(0) =~= s);
        }
    }
    if start == text.len() {
        return None;
    }
    // The value read so far, capped at one past the largest `u16`.
    let mut acc: u32 = 0;
    let mut i: usize = start;
    while i < text.len()
        invariant
            s == text@,
            digits == s.skip(start as int),
            digits == (if s.len() > 0 && s[0] == PLUS { s.skip(1) } else { s }),
            start <= i <= s.len(),
            all_digits(s.subrange(start as int, i as int)),
            acc as nat == (if digits_value(s.subrange(start as int, i as int)) < 65536 {
                digits_value(s.subrange(start as int, i as int))
            } else {
                65536
            }),
        decreases s.len() - i,
    {
        let b = text[i];
        if !(ZERO <= b && b <= NINE) {
            assert(digits[i - start] == b);
            assert(!is_digit(digits[i - start]));
            return None;
        }
        let ghost prefix = s.subrange(start as int, i as int);
        let ghost next = s.subrange(start as int, i + 1);
        assert(next.drop_last() =~= prefix);
        assert(next.last() == b);
        proof {
            lemma_saturate_step(digits_value(prefix), (b - ZERO) as nat);
        }
        let d: u32 = (b - ZERO) as u32;
        acc = acc * 10 + d;
        if acc > 65536 {
            acc = 65536;
        }
        i = i + 1;
    }
    assert(s.subrange(start as int, s.len() as int) =~= digits);
    if acc <= 65535 {
        Some(acc as u16)
    } else {
        None
    }
}

/// Decimal text reads back as the number it was written from.
pub proof fn lemma_digits_value_decimal(n: nat)
    ensures
        all_digits(decimal(n)),
        digits_value(decimal(n)) == n,
        decimal(n).len() > 0,
    decreases n,
{
    let t = decimal(n);
    if n >= 10 {
        lemma_digits_value_decimal(n / 10);
        assert(t.drop_last() =~= decimal(n / 10));
        assert(t.last() == digit_byte(n % 10));
        assert(digits_value(t) == digits_value(decimal(n / 10)) * 10 + n % 10);
    } else {
        assert(t.drop_last() =~= Seq::<u8>::empty());
        assert(digits_value(t) == digits_value(t.drop_last()) * 10 + n);
    }
}

/// Parsing the decimal text of a `u16` gives it back.
pub proof fn lemma_parse_decimal_u16(n: u16)
    ensures
        parse_u16_spec(decimal(n as nat)) == Some(n),
{
    lemma_digits_value_decimal(n as nat);
    let t = decimal(n as nat);
    assert(is_digit(t[0]));
}

} // verus!
