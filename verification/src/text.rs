use vstd::prelude::*;

verus! {

/// Relies on `str::chars`: yields exactly the characters of the string, in
/// order (collected into a vector here).
#[verifier::external_body]
pub fn chars_of(s: &str) -> (r: Vec<char>)
    ensures
        r@ == s@,
{
    s.chars().collect()
}

/// Relies on `String`'s `FromIterator<char>`: builds the string holding
/// exactly the given characters, in order.
#[verifier::external_body]
pub fn string_of(v: Vec<char>) -> (r: String)
    ensures
        r@ == v@,
{
    v.into_iter().collect()
}


/// The unicode code point of a character.
pub fn char_code(c: char) -> (u: u32)
    ensures
        u as int == c as int,
{
    c as u32
}

/// The decimal digit `d` as a character.
pub open spec fn digit_char(d: int) -> char {
    if d == 0 {
        '0'
    } else if d == 1 {
        '1'
    } else if d == 2 {
        '2'
    } else if d == 3 {
        '3'
    } else if d == 4 {
        '4'
    } else if d == 5 {
        '5'
    } else if d == 6 {
        '6'
    } else if d == 7 {
        '7'
    } else if d == 8 {
        '8'
    } else {
        '9'
    }
}

pub open spec fn is_digit(c: char) -> bool {
    '0' <= c && c <= '9'
}

/// The numeric value of a decimal digit character.
pub open spec fn digit_val(c: char) -> int {
    c as int - '0' as int
}

/// The usual decimal rendering of a natural number, without leading zeros.
pub open spec fn dec_of_nat(n: nat) -> Seq<char>
    decreases n,
{
    if n < 10 {
        seq![digit_char(n as int)]
    } else {
        dec_of_nat(n / 10).push(digit_char((n % 10) as int))
    }
}

/// The decimal rendering of an integer: a `-` sign for negative values.
pub open spec fn dec_of_int(i: int) -> Seq<char> {
    if i >= 0 {
        dec_of_nat(i as nat)
    } else {
        seq!['-'] + dec_of_nat((-i) as nat)
    }
}

/// The number a sequence of decimal digit characters denotes.
pub open spec fn dec_num(s: Seq<char>) -> int
    decreases s.len(),
{
    if s.len() == 0 {
        0
    } else {
        dec_num(s.drop_last()) * 10 + digit_val(s.last())
    }
}

pub open spec fn all_digits(s: Seq<char>) -> bool {
    forall|i: int| 0 <= i < s.len() ==> is_digit(#[trigger] s[i])
}

pub open spec fn pow10(k: nat) -> nat
    decreases k,
{
    if k == 0 {
        1
    } else {
        10 * pow10((k - 1) as nat)
    }
}

pub proof fn lemma_digit_roundtrip(d: int)
    requires
        0 <= d < 10,
    ensures
        digit_val(digit_char(d)) == d,
        is_digit(digit_char(d)),
{
}

pub proof fn lemma_dec_of_nat_digits(n: nat)
    ensures
        all_digits(dec_of_nat(n)),
        dec_of_nat(n).len() >= 1,
    decreases n,
{
    if n >= 10 {
        lemma_dec_of_nat_digits(n / 10);
    }
}

/// Rendering then reading back a natural number is the identity.
pub proof fn lemma_dec_num_of_dec_of_nat(n: nat)
    ensures
        dec_num(dec_of_nat(n)) == n,
    decreases n,
{
    let s = dec_of_nat(n);
    if n < 10 {
        lemma_digit_roundtrip(n as int);
        assert(s =~= seq![digit_char(n as int)]);
        assert(s.drop_last() =~= Seq::<char>::empty());
        assert(s.last() == digit_char(n as int));
        assert(dec_num(s) == dec_num(s.drop_last()) * 10 + digit_val(s.last()));
    } else {
        lemma_dec_num_of_dec_of_nat(n / 10);
        lemma_digit_roundtrip((n % 10) as int);
        assert(s == dec_of_nat(n / 10).push(digit_char((n % 10) as int)));
        assert(s.drop_last() =~= dec_of_nat(n / 10));
        assert(s.last() == digit_char((n % 10) as int));
        assert(dec_num(s) == dec_num(s.drop_last()) * 10 + digit_val(s.last()));
        assert(dec_num(s) == (n / 10) * 10 + (n % 10));
    }
}

/// A number below `pow10(k)` renders to at most `k` digits.
pub proof fn lemma_dec_of_nat_len(n: nat, k: nat)
    requires
        k >= 1,
        n < pow10(k),
    ensures
        dec_of_nat(n).len() <= k,
    decreases n,
{
    if n >= 10 {
        assert(k >= 2) by {
            if k == 1 {
                assert(pow10(1nat) == 10);
            }
        }
        assert(n / 10 < pow10((k - 1) as nat)) by {
            assert(pow10(k) == 10 * pow10((k - 1) as nat));
            assert(n < 10 * pow10((k - 1) as nat));
        }
        lemma_dec_of_nat_len(n / 10, (k - 1) as nat);
    }
}

/// `pow10` is monotone, and the powers around the width of a 64-bit value
/// have these values.
pub proof fn lemma_pow10_le(a: nat, b: nat)
    requires
        a <= b,
    ensures
        pow10(a) <= pow10(b),
        pow10(19) == 10000000000000000000,
        pow10(20) == 100000000000000000000,
    decreases b,
{
    assert(pow10(19) == 10000000000000000000 && pow10(20) == 100000000000000000000) by {
        reveal_with_fuel(pow10, 21);
    }
    if a < b {
        lemma_pow10_le(a, (b - 1) as nat);
        assert(pow10(b) == 10 * pow10((b - 1) as nat));
    }
}

/// The exec digit for a value below ten.
pub fn digit_of(d: u8) -> (c: char)
    requires
        d < 10,
    ensures
        c == digit_char(d as int),
{
    if d == 0 {
        '0'
    } else if d == 1 {
        '1'
    } else if d == 2 {
        '2'
    } else if d == 3 {
        '3'
    } else if d == 4 {
        '4'
    } else if d == 5 {
        '5'
    } else if d == 6 {
        '6'
    } else if d == 7 {
        '7'
    } else if d == 8 {
        '8'
    } else {
        '9'
    }
}

/// Appends the decimal rendering of `n`.
pub fn push_dec_u64(out: &mut Vec<char>, n: u64)
    ensures
        final(out)@ == old(out)@ + dec_of_nat(n as nat),
    decreases n,
{
    if n < 10 {
        out.push(digit_of(n as u8));
    } else {
        push_dec_u64(out, n / 10);
        out.push(digit_of((n % 10) as u8));
        assert(final(out)@ =~= old(out)@ + dec_of_nat(n as nat));
    }
}

/// Appends the decimal rendering of `i`, with a `-` sign when negative.
pub fn push_dec_i64(out: &mut Vec<char>, i: i64)
    ensures
        final(out)@ == old(out)@ + dec_of_int(i as int),
{
    if i < 0 {
        let m: u64 = (-(i as i128)) as u64;
        out.push('-');
        push_dec_u64(out, m);
        assert(final(out)@ =~= old(out)@ + dec_of_int(i as int));
    } else {
        push_dec_u64(out, i as u64);
    }
}

} // verus!
