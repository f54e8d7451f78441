use vstd::prelude::*;

verus! {

/// The standard base64 alphabet: `A`-`Z`, `a`-`z`, `0`-`9`, `+`, `/`.
pub open spec fn b64_char(d: int) -> char {
    if d < 26 {
        ((65 + d) as u8) as char
    } else if d < 52 {
        ((97 + d - 26) as u8) as char
    } else if d < 62 {
        ((48 + d - 52) as u8) as char
    } else if d == 62 {
        '+'
    } else {
        '/'
    }
}

pub open spec fn is_b64_char(c: char) -> bool {
    ('A' <= c && c <= 'Z') || ('a' <= c && c <= 'z') || ('0' <= c && c <= '9') || c == '+' || c
        == '/'
}

pub open spec fn b64_val(c: char) -> int {
    if 'A' <= c && c <= 'Z' {
        c as int - 'A' as int
    } else if 'a' <= c && c <= 'z' {
        c as int - 'a' as int + 26
    } else if '0' <= c && c <= '9' {
        c as int - '0' as int + 52
    } else if c == '+' {
        62
    } else {
        63
    }
}

/// Standard base64 with `=` padding: three input bytes per four output
/// characters, the final group padded.
pub open spec fn base64_of(b: Seq<u8>) -> Seq<char>
    decreases b.len(),
{
    if b.len() == 0 {
        seq![]
    } else if b.len() == 1 {
        let x = b[0] as int;
        seq![b64_char(x / 4), b64_char((x % 4) * 16), '=', '=']
    } else if b.len() == 2 {
        let x = b[0] as int;
        let y = b[1] as int;
        seq![b64_char(x / 4), b64_char((x % 4) * 16 + y / 16), b64_char((y % 16) * 4), '=']
    } else {
        let x = b[0] as int;
        let y = b[1] as int;
        let z = b[2] as int;
        seq![
            b64_char(x / 4),
            b64_char((x % 4) * 16 + y / 16),
            b64_char((y % 16) * 4 + z / 64),
            b64_char(z % 64),
        ] + base64_of(b.skip(3))
    }
}

pub proof fn lemma_b64_roundtrip(d: int)
    requires
        0 <= d < 64,
    ensures
        b64_val(b64_char(d)) == d,
        is_b64_char(b64_char(d)),
        b64_char(d) != '=',
{
}

/// The rendering of `n` bytes has `4 * ((n + 2) / 3)` characters.
pub proof fn lemma_base64_len(b: Seq<u8>)
    ensures
        base64_of(b).len() == 4 * ((b.len() + 2) / 3),
    decreases b.len(),
{
    if b.len() >= 3 {
        lemma_base64_len(b.skip(3));
    }
}

/// Every character of a base64 rendering is from the alphabet or `=`.
pub proof fn lemma_base64_chars(b: Seq<u8>)
    ensures
        forall|i: int|
            0 <= i < base64_of(b).len() ==> (is_b64_char(#[trigger] base64_of(b)[i]) || base64_of(
                b,
            )[i] == '='),
    decreases b.len(),
{
    if b.len() == 0 {
    } else if b.len() == 1 {
        let x = b[0] as int;
        lemma_b64_roundtrip(x / 4);
        lemma_b64_roundtrip((x % 4) * 16);
    } else if b.len() == 2 {
        let x = b[0] as int;
        let y = b[1] as int;
        lemma_b64_roundtrip(x / 4);
        lemma_b64_roundtrip((x % 4) * 16 + y / 16);
        lemma_b64_roundtrip((y % 16) * 4);
    } else {
        let x = b[0] as int;
        let y = b[1] as int;
        let z = b[2] as int;
        lemma_b64_roundtrip(x / 4);
        lemma_b64_roundtrip((x % 4) * 16 + y / 16);
        lemma_b64_roundtrip((y % 16) * 4 + z / 64);
        lemma_b64_roundtrip(z % 64);
        lemma_base64_chars(b.skip(3));
        assert forall|i: int|
            0 <= i < base64_of(b).len() implies (is_b64_char(#[trigger] base64_of(b)[i])
            || base64_of(b)[i] == '=') by {
            if i >= 4 {
                assert(base64_of(b)[i] == base64_of(b.skip(3))[i - 4]);
            }
        }
    }
}

/// Spells out the first four characters of a nonempty rendering, their
/// values, where `=` padding appears, and what follows them.
pub proof fn lemma_base64_group(b: Seq<u8>)
    requires
        b.len() >= 1,
    ensures
        base64_of(b).len() >= 4,
        is_b64_char(base64_of(b)[0]) && b64_val(base64_of(b)[0]) == b[0] as int / 4,
        b.len() == 1 ==> is_b64_char(base64_of(b)[1]) && b64_val(base64_of(b)[1]) == (b[0] as int
            % 4) * 16 && base64_of(b)[2] == '=' && base64_of(b)[3] == '=' && base64_of(b).len()
            == 4,
        b.len() == 2 ==> is_b64_char(base64_of(b)[1]) && b64_val(base64_of(b)[1]) == (b[0] as int
            % 4) * 16 + b[1] as int / 16 && is_b64_char(base64_of(b)[2]) && b64_val(
            base64_of(b)[2],
        ) == (b[1] as int % 16) * 4 && base64_of(b)[2] != '=' && base64_of(b)[3] == '=' && base64_of(
            b,
        ).len() == 4,
        b.len() >= 3 ==> is_b64_char(base64_of(b)[1]) && b64_val(base64_of(b)[1]) == (b[0] as int
            % 4) * 16 + b[1] as int / 16 && is_b64_char(base64_of(b)[2]) && b64_val(
            base64_of(b)[2],
        ) == (b[1] as int % 16) * 4 + b[2] as int / 64 && base64_of(b)[2] != '=' && is_b64_char(
            base64_of(b)[3],
        ) && b64_val(base64_of(b)[3]) == b[2] as int % 64 && base64_of(b)[3] != '=' && base64_of(
            b,
        ).skip(4) == base64_of(b.skip(3)),
{
    lemma_base64_len(b);
    if b.len() == 1 {
        let x = b[0] as int;
        lemma_b64_roundtrip(x / 4);
        lemma_b64_roundtrip((x % 4) * 16);
    } else if b.len() == 2 {
        let x = b[0] as int;
        let y = b[1] as int;
        lemma_b64_roundtrip(x / 4);
        lemma_b64_roundtrip((x % 4) * 16 + y / 16);
        lemma_b64_roundtrip((y % 16) * 4);
    } else {
        let x = b[0] as int;
        let y = b[1] as int;
        let z = b[2] as int;
        lemma_b64_roundtrip(x / 4);
        lemma_b64_roundtrip((x % 4) * 16 + y / 16);
        lemma_b64_roundtrip((y % 16) * 4 + z / 64);
        lemma_b64_roundtrip(z % 64);
        assert(base64_of(b).skip(4) =~= base64_of(b.skip(3)));
    }
}

/// Relies on base64's `Engine::encode` with the standard alphabet and
/// padding: RFC 4648 base64, exactly as `base64_of` spells it out.
#[verifier::external_body]
pub fn base64_encode(b: &Vec<u8>) -> (r: String)
    ensures
        r@ == base64_of(b@),
{
    base64::Engine::encode(&base64::engine::general_purpose::STANDARD, b)
}

/// The numeric value of one alphabet character, if it is one.
pub fn b64_val_of(c: char) -> (r: Option<u8>)
    ensures
        r is Some <==> is_b64_char(c),
        r is Some ==> r->0 == b64_val(c) && r->0 < 64,
{
    let u = c as u32;
    if 65 <= u && u <= 90 {
        Some((u - 65) as u8)
    } else if 97 <= u && u <= 122 {
        Some((u - 97 + 26) as u8)
    } else if 48 <= u && u <= 57 {
        Some((u - 48 + 52) as u8)
    } else if u == 43 {
        Some(62)
    } else if u == 47 {
        Some(63)
    } else {
        None
    }
}

/// Decodes a canonical base64 rendering from position `i` on: whenever the
/// tail is `base64_of(b)` for some bytes `b`, it succeeds and appends
/// exactly `b`.
pub fn base64_decode_into(s: &Vec<char>, i: usize, out: &mut Vec<u8>) -> (ok: bool)
    requires
        i <= s@.len(),
    ensures
        forall|b: Seq<u8>|
            s@.skip(i as int) == base64_of(b) ==> ok && final(out)@ == old(out)@ + b,
    decreases s@.len() - i,
{
    let ghost tail = s@.skip(i as int);
    proof {
        assert(tail.len() == s@.len() - i);
    }
    if i == s.len() {
        proof {
            assert forall|b: Seq<u8>| tail == base64_of(b) implies out@ == old(out)@ + b by {
                lemma_base64_len(b);
                assert(b =~= Seq::<u8>::empty());
                assert(out@ =~= old(out)@ + b);
            }
        }
        return true;
    }
    if s.len() - i < 4 {
        proof {
            assert forall|b: Seq<u8>| tail != base64_of(b) by {
                lemma_base64_len(b);
            }
        }
        return false;
    }
    let c0 = s[i];
    let c1 = s[i + 1];
    let c2 = s[i + 2];
    let c3 = s[i + 3];
    proof {
        assert(tail[0] == c0 && tail[1] == c1 && tail[2] == c2 && tail[3] == c3);
    }
    let v0 = match b64_val_of(c0) {
        Some(v) => v,
        None => {
            proof {
                assert forall|b: Seq<u8>| tail != base64_of(b) by {
                    if tail == base64_of(b) {
                        lemma_base64_len(b);
                        assert(b.len() >= 1);
                        lemma_base64_group(b);
                        assert(false);
                    }
                }
            }
            return false;
        },
    };
    let v1 = match b64_val_of(c1) {
        Some(v) => v,
        None => {
            proof {
                assert forall|b: Seq<u8>| tail != base64_of(b) by {
                    if tail == base64_of(b) {
                        lemma_base64_len(b);
                        assert(b.len() >= 1);
                        lemma_base64_group(b);
                        assert(false);
                    }
                }
            }
            return false;
        },
    };
    if c2 == '=' {
        // Only the final, doubly padded group of a single trailing byte has
        // `=` in its third place.
        proof {
            assert forall|b: Seq<u8>| tail == base64_of(b) implies (b.len() == 1 && i + 4
                == s@.len() && c3 == '=' && v0 == b[0] as int / 4 && v1 == (b[0] as int % 4)
                * 16) by {
                lemma_base64_len(b);
                assert(b.len() >= 1);
                lemma_base64_group(b);
            }
        }
        if !(i + 4 == s.len() && c3 == '=') {
            return false;
        }
        if v1 % 16 != 0 {
            return false;
        }
        out.push(v0 * 4 + v1 / 16);
        proof {
            assert forall|b: Seq<u8>| tail == base64_of(b) implies out@ == old(out)@ + b by {
                assert(v0 * 4 + v1 / 16 == b[0]);
                assert(b =~= seq![b[0]]);
                assert(out@ =~= old(out)@ + b);
            }
        }
        true
    } else if c3 == '=' {
        // A singly padded group closes the string with two trailing bytes.
        let v2 = match b64_val_of(c2) {
            Some(v) => v,
            None => {
                proof {
                    assert forall|b: Seq<u8>| tail != base64_of(b) by {
                        if tail == base64_of(b) {
                            lemma_base64_len(b);
                            assert(b.len() >= 1);
                            lemma_base64_group(b);
                            assert(false);
                        }
                    }
                }
                return false;
            },
        };
        proof {
            assert forall|b: Seq<u8>| tail == base64_of(b) implies (b.len() == 2 && i + 4
                == s@.len() && v0 == b[0] as int / 4 && v1 == (b[0] as int % 4) * 16 + b[1] as int
                / 16 && v2 == (b[1] as int % 16) * 4) by {
                lemma_base64_len(b);
                assert(b.len() >= 1);
                lemma_base64_group(b);
            }
        }
        if i + 4 != s.len() {
            return false;
        }
        if v2 % 4 != 0 {
            return false;
        }
        out.push(v0 * 4 + v1 / 16);
        out.push((v1 % 16) * 16 + v2 / 4);
        proof {
            assert forall|b: Seq<u8>| tail == base64_of(b) implies out@ == old(out)@ + b by {
                let x = b[0] as int;
                let y = b[1] as int;
                assert(v1 / 16 == x % 4 && v1 % 16 == y / 16);
                assert(v0 * 4 + v1 / 16 == x);
                assert((v1 % 16) * 16 + v2 / 4 == y);
                assert(b =~= seq![b[0], b[1]]);
                assert(out@ =~= old(out)@ + b);
            }
        }
        true
    } else {
        // A full group of three bytes; the rendering continues after it.
        let v2 = match b64_val_of(c2) {
            Some(v) => v,
            None => {
                proof {
                    assert forall|b: Seq<u8>| tail != base64_of(b) by {
                        if tail == base64_of(b) {
                            lemma_base64_len(b);
                            assert(b.len() >= 1);
                            lemma_base64_group(b);
                            assert(false);
                        }
                    }
                }
                return false;
            },
        };
        let v3 = match b64_val_of(c3) {
            Some(v) => v,
            None => {
                proof {
                    assert forall|b: Seq<u8>| tail != base64_of(b) by {
                        if tail == base64_of(b) {
                            lemma_base64_len(b);
                            assert(b.len() >= 1);
                            lemma_base64_group(b);
                            assert(false);
                        }
                    }
                }
                return false;
            },
        };
        let ghost out0 = out@;
        out.push(v0 * 4 + v1 / 16);
        out.push((v1 % 16) * 16 + v2 / 4);
        out.push((v2 % 4) * 64 + v3);
        let ok = base64_decode_into(s, i + 4, out);
        proof {
            assert forall|b: Seq<u8>| tail == base64_of(b) implies ok && out@ == old(out)@ + b by {
                lemma_base64_len(b);
                assert(b.len() >= 1);
                lemma_base64_group(b);
                assert(b.len() >= 3);
                let x = b[0] as int;
                let y = b[1] as int;
                let z = b[2] as int;
                assert(v0 == x / 4 && v1 == (x % 4) * 16 + y / 16);
                assert(v2 == (y % 16) * 4 + z / 64 && v3 == z % 64);
                assert(v1 / 16 == x % 4 && v1 % 16 == y / 16);
                assert(v2 / 4 == y % 16 && v2 % 4 == z / 64);
                assert(v0 * 4 + v1 / 16 == x);
                assert((v1 % 16) * 16 + v2 / 4 == y);
                assert((v2 % 4) * 64 + v3 == z);
                assert(s@.skip(i as int + 4) =~= tail.skip(4));
                assert(tail.skip(4) == base64_of(b.skip(3)));
                assert(out0 + seq![x as u8, y as u8, z as u8] + b.skip(3) =~= old(out)@ + b);
            }
        }
        ok
    }
}

} // verus!
