use vstd::prelude::*;
use crate::hex::{hex_digit_char, hex_digit_of};
use crate::text::is_digit;
// Doubles cross this layer as their IEEE bit patterns; only the two
// trusted wrappers below touch the native type, to hand it to the
// outside formatter and parser.
use core::primitive::f64 as RawF64;

verus! {

/// How one character appears inside a JSON string literal: quotes and
/// backslashes get a backslash, control characters a `\u00..` form, and
/// everything else stands for itself.
pub open spec fn escaped_char(c: char) -> Seq<char> {
    if c == '"' {
        seq!['\\', '"']
    } else if c == '\\' {
        seq!['\\', '\\']
    } else if 0 <= c as int && (c as int) < 32 {
        seq!['\\', 'u', '0', '0', hex_digit_char(c as int / 16), hex_digit_char(c as int % 16)]
    } else {
        seq![c]
    }
}

pub open spec fn escaped(s: Seq<char>) -> Seq<char>
    decreases s.len(),
{
    if s.len() == 0 {
        seq![]
    } else {
        escaped_char(s[0]) + escaped(s.drop_first())
    }
}

/// A JSON string literal: the escaped text between two quotes.
pub open spec fn json_of_string(s: Seq<char>) -> Seq<char> {
    seq!['"'] + escaped(s) + seq!['"']
}

pub open spec fn json_of_bool(b: bool) -> Seq<char> {
    if b {
        seq!['t', 'r', 'u', 'e']
    } else {
        seq!['f', 'a', 'l', 's', 'e']
    }
}

pub proof fn lemma_escaped_push(s: Seq<char>, c: char)
    ensures
        escaped(s.push(c)) == escaped(s) + escaped_char(c),
    decreases s.len(),
{
    let t = s.push(c);
    if s.len() == 0 {
        assert(t[0] == c);
        assert(t.drop_first() =~= s);
        assert(escaped(t) == escaped_char(c) + escaped(s));
        assert(escaped_char(c) + escaped(s) =~= escaped(s) + escaped_char(c));
    } else {
        lemma_escaped_push(s.drop_first(), c);
        assert(t[0] == s[0]);
        assert(t.drop_first() =~= s.drop_first().push(c));
        assert(escaped(t) == escaped_char(s[0]) + escaped(s.drop_first().push(c)));
        assert(escaped(t) =~= (escaped_char(s[0]) + escaped(s.drop_first())) + escaped_char(c));
        assert(escaped(s) == escaped_char(s[0]) + escaped(s.drop_first()));
        assert(escaped(t) =~= escaped(s) + escaped_char(c));
    }
}

/// Characters that escape to themselves leave a string unchanged.
pub proof fn lemma_escaped_identity(s: Seq<char>)
    requires
        forall|i: int| 0 <= i < s.len() ==> (s[i] != '"' && s[i] != '\\' && (#[trigger] s[i]) as int
            >= 32),
    ensures
        escaped(s) == s,
    decreases s.len(),
{
    if s.len() == 0 {
        assert(escaped(s) =~= s);
    } else {
        assert(forall|i: int|
            0 <= i < s.drop_first().len() ==> s.drop_first()[i] == #[trigger] s[i + 1]);
        lemma_escaped_identity(s.drop_first());
        assert(escaped(s) =~= s);
    }
}

/// Appends the escaped form of `s`.
pub fn push_escaped(out: &mut Vec<char>, s: &Vec<char>)
    ensures
        final(out)@ == old(out)@ + escaped(s@),
{
    let n = s.len();
    let mut i: usize = 0;
    proof {
        assert(s@.take(0) =~= Seq::<char>::empty());
        assert(out@ =~= old(out)@ + escaped(s@.take(0)));
    }
    while i < n
        invariant
            n == s@.len(),
            i <= n,
            out@ == old(out)@ + escaped(s@.take(i as int)),
        decreases n - i,
    {
        let c = s[i];
        let u = crate::text::char_code(c);
        if c == '"' {
            out.push('\\');
            out.push('"');
            assert(escaped_char(c) =~= seq!['\\', '"']);
        } else if c == '\\' {
            out.push('\\');
            out.push('\\');
            assert(escaped_char(c) =~= seq!['\\', '\\']);
        } else if u < 32 {
            out.push('\\');
            out.push('u');
            out.push('0');
            out.push('0');
            out.push(hex_digit_of((u / 16) as u8));
            out.push(hex_digit_of((u % 16) as u8));
            assert(escaped_char(c) =~= seq![
                '\\',
                'u',
                '0',
                '0',
                hex_digit_char(c as int / 16),
                hex_digit_char(c as int % 16),
            ]);
            assert(u as int == c as int);
        } else {
            assert(escaped_char(c) =~= seq![c]);
            out.push(c);
        }
        proof {
            assert(out@ =~= (old(out)@ + escaped(s@.take(i as int))) + escaped_char(c));
            lemma_escaped_push(s@.take(i as int), c);
            assert(s@.take(i + 1) =~= s@.take(i as int).push(c));
            assert(out@ =~= old(out)@ + escaped(s@.take(i + 1)));
        }
        i += 1;
    }
    proof {
        assert(s@.take(n as int) =~= s@);
    }
}

/// Appends the JSON string literal for `s`.
pub fn push_json_string(out: &mut Vec<char>, s: &Vec<char>)
    ensures
        final(out)@ == old(out)@ + json_of_string(s@),
{
    out.push('"');
    push_escaped(out, s);
    out.push('"');
    proof {
        assert(final(out)@ =~= old(out)@ + json_of_string(s@));
    }
}

/// Appends `true` or `false`.
pub fn push_json_bool(out: &mut Vec<char>, b: bool)
    ensures
        final(out)@ == old(out)@ + json_of_bool(b),
{
    if b {
        out.push('t');
        out.push('r');
        out.push('u');
        out.push('e');
    } else {
        out.push('f');
        out.push('a');
        out.push('l');
        out.push('s');
        out.push('e');
    }
    proof {
        assert(final(out)@ =~= old(out)@ + json_of_bool(b));
    }
}

/// A double is finite when its exponent bits are not all ones.
pub open spec fn is_finite_double(bits: u64) -> bool {
    (bits >> 52) & 0x7ff != 0x7ff
}

pub open spec fn is_number_char(c: char) -> bool {
    is_digit(c) || c == '-' || c == '+' || c == '.' || c == 'e' || c == 'E'
}

/// The shape every finite rendering takes: a nonempty run of number
/// characters that starts with a digit or minus sign and shows a decimal
/// point or exponent somewhere.
pub open spec fn double_token_shape(s: Seq<char>) -> bool {
    s.len() >= 1 && (forall|i: int| 0 <= i < s.len() ==> is_number_char(#[trigger] s[i])) && (s[0]
        == '-' || is_digit(s[0])) && (exists|i: int| 0 <= i < s.len() && (s[i] == '.' || #[trigger] s[i]
        == 'e'))
}

/// What the outside formatter prints for the double with these bits.
pub uninterp spec fn raw_double_token(bits: u64) -> Seq<char>;

/// The JSON rendering of a double: the formatter's shortest round-tripping
/// token for finite values, `null` otherwise.
pub open spec fn json_of_double(bits: u64) -> Seq<char> {
    if !is_finite_double(bits) {
        seq!['n', 'u', 'l', 'l']
    } else if double_token_shape(raw_double_token(bits)) {
        raw_double_token(bits)
    } else {
        seq!['0', '.', '0']
    }
}

pub proof fn lemma_double_token_shape(bits: u64)
    requires
        is_finite_double(bits),
    ensures
        double_token_shape(json_of_double(bits)),
{
    if !double_token_shape(raw_double_token(bits)) {
        let s = seq!['0', '.', '0'];
        assert(s[0] == '0' && s[1] == '.' && s[2] == '0');
        assert(double_token_shape(s));
    }
}

/// Relies on serde_json's number formatting (the zmij shortest-round-trip
/// algorithm) for finite doubles, and on its `null` rendering for
/// non-finite ones.
#[verifier::external_body]
pub fn render_double(bits: u64) -> (r: String)
    ensures
        is_finite_double(bits) && double_token_shape(raw_double_token(bits)) ==> r@
            == raw_double_token(bits),
        r@ == json_of_double(bits),
{
    serde_json::to_string(&RawF64::from_bits(bits)).unwrap_or_else(|_| "null".to_string())
}

/// Relies on `str::parse` for doubles together with the formatter's
/// round-trip guarantee: the shortest rendering of a finite double reads
/// back as exactly that double.
#[verifier::external_body]
pub fn parse_double(s: &Vec<char>) -> (r: Option<u64>)
    ensures
        forall|b: u64|
            is_finite_double(b) && s@ == json_of_double(b) ==> r == Some(b),
{
    let t: String = s.iter().collect();
    match t.parse::<RawF64>() {
        Ok(v) => Some(v.to_bits()),
        Err(_) => None,
    }
}

/// Appends the JSON rendering of the double with these bits.
pub fn push_json_double(out: &mut Vec<char>, bits: u64)
    ensures
        final(out)@ == old(out)@ + json_of_double(bits),
{
    let rendered = render_double(bits);
    let mut chars = crate::text::chars_of(rendered.as_str());
    out.append(&mut chars);
}

} // verus!
