use vstd::prelude::*;

verus! {

/// The lowercase hex digit for a value below sixteen.
pub open spec fn hex_digit_char(d: int) -> char {
    if d == 0 {
        '0'
    } else if d == 1 {
        '1'
    } else if d == 2 {
        '2'
    } else if d == 3 {
        '3'
    } else if d == 4 {
        '4'
    } else if d == 5 {
        '5'
    } else if d == 6 {
        '6'
    } else if d == 7 {
        '7'
    } else if d == 8 {
        '8'
    } else if d == 9 {
        '9'
    } else if d == 10 {
        'a'
    } else if d == 11 {
        'b'
    } else if d == 12 {
        'c'
    } else if d == 13 {
        'd'
    } else if d == 14 {
        'e'
    } else {
        'f'
    }
}

pub open spec fn is_hex_digit(c: char) -> bool {
    ('0' <= c && c <= '9') || ('a' <= c && c <= 'f') || ('A' <= c && c <= 'F')
}

/// The numeric value of a hex digit character (either case).
pub open spec fn hex_val(c: char) -> int {
    if '0' <= c && c <= '9' {
        c as int - '0' as int
    } else if 'a' <= c && c <= 'f' {
        c as int - 'a' as int + 10
    } else {
        c as int - 'A' as int + 10
    }
}

/// The zero-padded, fixed-width, lowercase hex rendering of `n`.
pub open spec fn hex_of(n: nat, width: nat) -> Seq<char>
    decreases width,
{
    if width == 0 {
        seq![]
    } else {
        hex_of(n / 16, (width - 1) as nat).push(hex_digit_char((n % 16) as int))
    }
}

/// The number a sequence of hex digit characters denotes.
pub open spec fn hex_num(s: Seq<char>) -> int
    decreases s.len(),
{
    if s.len() == 0 {
        0
    } else {
        hex_num(s.drop_last()) * 16 + hex_val(s.last())
    }
}

pub open spec fn all_hex(s: Seq<char>) -> bool {
    forall|i: int| 0 <= i < s.len() ==> is_hex_digit(#[trigger] s[i])
}

pub open spec fn pow16(k: nat) -> nat
    decreases k,
{
    if k == 0 {
        1
    } else {
        16 * pow16((k - 1) as nat)
    }
}

pub proof fn lemma_hex_digit_roundtrip(d: int)
    requires
        0 <= d < 16,
    ensures
        hex_val(hex_digit_char(d)) == d,
        is_hex_digit(hex_digit_char(d)),
{
}

/// The fixed-width rendering has exactly `width` hex digits and reads back to
/// the value it was rendered from.
pub proof fn lemma_hex_roundtrip(n: nat, width: nat)
    requires
        n < pow16(width),
    ensures
        hex_of(n, width).len() == width,
        all_hex(hex_of(n, width)),
        hex_num(hex_of(n, width)) == n,
    decreases width,
{
    let s = hex_of(n, width);
    if width == 0 {
    } else {
        assert(n / 16 < pow16((width - 1) as nat)) by {
            assert(pow16(width) == 16 * pow16((width - 1) as nat));
        }
        lemma_hex_roundtrip(n / 16, (width - 1) as nat);
        lemma_hex_digit_roundtrip((n % 16) as int);
        let prev = hex_of(n / 16, (width - 1) as nat);
        assert(s == prev.push(hex_digit_char((n % 16) as int)));
        assert(s.drop_last() =~= prev);
        assert(s.last() == hex_digit_char((n % 16) as int));
        assert(forall|i: int|
            0 <= i < s.len() ==> is_hex_digit(#[trigger] s[i]) == if i < prev.len() {
                is_hex_digit(prev[i])
            } else {
                is_hex_digit(s.last())
            });
        assert(hex_num(s) == hex_num(s.drop_last()) * 16 + hex_val(s.last()));
        assert(hex_num(s) == (n / 16) * 16 + (n % 16));
    }
}

/// A string of `k` hex digits denotes a value below `pow16(k)`.
pub proof fn lemma_hex_num_bound(s: Seq<char>)
    requires
        all_hex(s),
    ensures
        0 <= hex_num(s) < pow16(s.len()),
    decreases s.len(),
{
    if s.len() > 0 {
        assert(all_hex(s.drop_last()));
        lemma_hex_num_bound(s.drop_last());
        assert(0 <= hex_val(s.last()) <= 15);
    }
}

pub fn hex_digit_of(d: u8) -> (c: char)
    requires
        d < 16,
    ensures
        c == hex_digit_char(d as int),
{
    if d == 0 {
        '0'
    } else if d == 1 {
        '1'
    } else if d == 2 {
        '2'
    } else if d == 3 {
        '3'
    } else if d == 4 {
        '4'
    } else if d == 5 {
        '5'
    } else if d == 6 {
        '6'
    } else if d == 7 {
        '7'
    } else if d == 8 {
        '8'
    } else if d == 9 {
        '9'
    } else if d == 10 {
        'a'
    } else if d == 11 {
        'b'
    } else if d == 12 {
        'c'
    } else if d == 13 {
        'd'
    } else if d == 14 {
        'e'
    } else {
        'f'
    }
}

/// Appends the fixed-width lowercase hex rendering of `n`.
pub fn push_hex(out: &mut Vec<char>, n: u128, width: usize)
    ensures
        final(out)@ == old(out)@ + hex_of(n as nat, width as nat),
    decreases width,
{
    if width == 0 {
    } else {
        push_hex(out, n / 16, width - 1);
        out.push(hex_digit_of((n % 16) as u8));
        assert(final(out)@ =~= old(out)@ + hex_of(n as nat, width as nat));
    }
}

/// The numeric value of one hex digit character, if it is one.
pub fn hex_val_of(c: char) -> (r: Option<u8>)
    ensures
        r is Some <==> is_hex_digit(c),
        r is Some ==> r->0 == hex_val(c) && r->0 < 16,
{
    let u = c as u32;
    if 48 <= u && u <= 57 {
        Some((u - 48) as u8)
    } else if 97 <= u && u <= 102 {
        Some((u - 97 + 10) as u8)
    } else if 65 <= u && u <= 70 {
        Some((u - 65 + 10) as u8)
    } else {
        None
    }
}

/// Reads a hex id of at most `width` digits (either case accepted), as the
/// host renders them. Returns `None` on an empty string, a stray character,
/// or an over-long string.
pub fn parse_hex(s: &Vec<char>, width: usize) -> (r: Option<u128>)
    requires
        width <= 32,
    ensures
        r is Some <==> (1 <= s@.len() <= width && all_hex(s@)),
        r is Some ==> r->0 as int == hex_num(s@),
{
    if s.len() == 0 || s.len() > width {
        return None;
    }
    let mut acc: u128 = 0;
    let mut j: usize = 0;
    while j < s.len()
        invariant
            j <= s@.len() <= width <= 32,
            all_hex(s@.take(j as int)),
            acc as int == hex_num(s@.take(j as int)),
            (acc as nat) < pow16(j as nat),
        decreases s@.len() - j,
    {
        proof {
            lemma_pow16_le(j as nat, 31);
        }
        match hex_val_of(s[j]) {
            None => {
                return None;
            },
            Some(v) => {
                proof {
                    let t = s@.take(j + 1);
                    assert(t.drop_last() =~= s@.take(j as int));
                    assert(t.last() == s@[j as int]);
                }
                assert((acc as nat) * 16 + 15 < pow16((j + 1) as nat)) by {
                    assert(pow16((j + 1) as nat) == 16 * pow16(j as nat));
                }
                acc = acc * 16 + (v as u128);
            },
        }
        j += 1;
    }
    proof {
        assert(s@.take(s@.len() as int) =~= s@);
    }
    Some(acc)
}

/// `pow16` is monotone in its exponent, and sixteen to the thirty-second is
/// one beyond the largest 128-bit value.
pub proof fn lemma_pow16_le(a: nat, b: nat)
    requires
        a <= b,
    ensures
        pow16(a) <= pow16(b),
        pow16(32) == 0x100000000000000000000000000000000,
    decreases b,
{
    assert(pow16(32) == 0x100000000000000000000000000000000) by {
        reveal_with_fuel(pow16, 33);
    }
    if a < b {
        lemma_pow16_le(a, (b - 1) as nat);
        assert(pow16(b) == 16 * pow16((b - 1) as nat));
    }
}

} // verus!
