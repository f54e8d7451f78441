use vstd::prelude::*;
use crate::anyvalue::{
    deep_any, deep_entries, deep_items, bytes_prefix, bytes_prefix_chars, bytes_repr, json_of_any,
    json_of_entries, json_of_items, has_bytes_prefix, wf_any, AnyVal, AnyValue,
};
use crate::b64::{base64_decode_into, base64_of, is_b64_char, lemma_base64_chars};
use crate::hex::hex_val_of;
use crate::json::{
    escaped, escaped_char, is_number_char, json_of_bool, json_of_double, json_of_string,
    lemma_double_token_shape, lemma_escaped_identity, parse_double,
};
use crate::text::{
    all_digits, char_code, dec_num, dec_of_int, dec_of_nat, digit_val, is_digit,
    lemma_dec_num_of_dec_of_nat, lemma_dec_of_nat_digits, lemma_dec_of_nat_len, lemma_pow10_le,
    pow10, string_of,
    chars_of,
};

verus! {

broadcast use vstd::string::group_string_axioms;

/// `t` occurs in `s` starting at `i`.
pub open spec fn text_at(s: Seq<char>, i: int, t: Seq<char>) -> bool {
    0 <= i && i + t.len() <= s.len() && (forall|j: int| 0 <= j < t.len() ==> s[i + j] == #[trigger] t[j])
}

/// Position `i` may end a value: the input stops there or a separator or
/// closing bracket follows.
pub open spec fn closes_at(s: Seq<char>, i: int) -> bool {
    i >= s.len() || s[i] == ',' || s[i] == ']' || s[i] == '}'
}

/// The rendering of `v` occupies `s` from `i` on and ends where a value may
/// end.
pub open spec fn any_matches_at(s: Seq<char>, i: int, v: AnyVal) -> bool {
    text_at(s, i, json_of_any(v)) && closes_at(s, i + json_of_any(v).len())
}

/// The escaped body of a string literal sits at `j`, closed by a quote.
pub open spec fn str_body_at(s: Seq<char>, j: int, t: Seq<char>) -> bool {
    text_at(s, j, escaped(t)) && j + escaped(t).len() < s.len() && s[j + escaped(t).len()] == '"'
}

/// A nonempty, well-formed item sequence renders at `i` and a closing
/// bracket follows it.
pub open spec fn items_at(s: Seq<char>, i: int, items: Seq<AnyVal>) -> bool {
    items.len() >= 1 && (forall|k: int| 0 <= k < items.len() ==> wf_any(#[trigger] items[k]))
        && text_at(s, i, json_of_items(items)) && i + json_of_items(items).len() < s.len() && s[i
        + json_of_items(items).len()] == ']'
}

pub open spec fn entries_at(s: Seq<char>, i: int, entries: Seq<(Seq<char>, AnyVal)>) -> bool {
    entries.len() >= 1 && (forall|k: int| 0 <= k < entries.len() ==> wf_any(#[trigger] entries[k].1))
        && text_at(s, i, json_of_entries(entries)) && i + json_of_entries(entries).len() < s.len()
        && s[i + json_of_entries(entries).len()] == '}'
}

/// Occurrence of a concatenation is occurrence of both halves in place.
pub proof fn lemma_text_at_split(s: Seq<char>, i: int, a: Seq<char>, b: Seq<char>)
    ensures
        text_at(s, i, a + b) == (text_at(s, i, a) && text_at(s, i + a.len(), b)),
{
    if text_at(s, i, a + b) {
        assert forall|j: int| 0 <= j < a.len() implies s[i + j] == #[trigger] a[j] by {
            assert((a + b)[j] == a[j]);
            assert(s[i + j] == (a + b)[j]);
        }
        assert forall|j: int| 0 <= j < b.len() implies s[i + a.len() + j] == #[trigger] b[j] by {
            assert((a + b)[a.len() + j] == b[j]);
            assert(s[i + (a.len() + j)] == (a + b)[a.len() + j]);
        }
    }
    if text_at(s, i, a) && text_at(s, i + a.len(), b) {
        assert forall|j: int| 0 <= j < (a + b).len() implies s[i + j] == #[trigger] (a + b)[j] by {
            if j < a.len() {
                assert((a + b)[j] == a[j]);
            } else {
                assert((a + b)[j] == b[j - a.len()]);
                assert(s[i + a.len() + (j - a.len())] == b[j - a.len()]);
            }
        }
    }
}

/// The first character of a rendering names the shape of the value.
pub proof fn lemma_json_any_first(v: AnyVal)
    requires
        wf_any(v),
    ensures
        json_of_any(v).len() >= 1,
        v is Boolean ==> json_of_any(v)[0] == (if v->Boolean_0 {
            't'
        } else {
            'f'
        }),
        v is Int ==> (json_of_any(v)[0] == '-' || is_digit(json_of_any(v)[0])),
        v is Double ==> (json_of_any(v)[0] == '-' || is_digit(json_of_any(v)[0])),
        v is Text ==> json_of_any(v)[0] == '"',
        v is Bytes ==> json_of_any(v)[0] == '"',
        v is List ==> json_of_any(v)[0] == '[',
        v is Mapping ==> json_of_any(v)[0] == '{',
{
    match v {
        AnyVal::Boolean(b) => {
            assert(json_of_bool(b)[0] == (if b {
                't'
            } else {
                'f'
            }));
        },
        AnyVal::Int(n) => {
            lemma_dec_of_nat_digits(if n >= 0 {
                n as nat
            } else {
                (-n) as nat
            });
            if n >= 0 {
                assert(is_digit(dec_of_nat(n as nat)[0]));
            } else {
                assert(dec_of_int(n)[0] == '-');
            }
        },
        AnyVal::Double(bits) => {
            lemma_double_token_shape(bits);
        },
        AnyVal::Text(s) => {
            assert(json_of_string(s)[0] == '"');
        },
        AnyVal::Bytes(bs) => {
            assert(json_of_string(bytes_repr(bs))[0] == '"');
        },
        AnyVal::List(items) => {
            assert(json_of_any(v)[0] == '[');
        },
        AnyVal::Mapping(entries) => {
            assert(json_of_any(v)[0] == '{');
        },
    }
}

/// The byte-payload tag: thirty-eight characters, none of which needs
/// escaping.
pub proof fn lemma_bytes_prefix_chars()
    ensures
        bytes_prefix().len() == 37,
        forall|j: int|
            0 <= j < bytes_prefix().len() ==> ((#[trigger] bytes_prefix()[j]) != '"'
                && bytes_prefix()[j] != '\\' && bytes_prefix()[j] as int >= 32),
{
    reveal_strlit("data:application/octet-stream;base64,");
}

/// A rendered byte payload needs no escaping at all.
pub proof fn lemma_bytes_repr_escapes(bs: Seq<u8>)
    ensures
        escaped(bytes_repr(bs)) == bytes_repr(bs),
{
    lemma_bytes_prefix_chars();
    lemma_base64_chars(bs);
    assert forall|j: int|
        0 <= j < bytes_repr(bs).len() implies ((#[trigger] bytes_repr(bs)[j]) != '"' && bytes_repr(
        bs,
    )[j] != '\\' && bytes_repr(bs)[j] as int >= 32) by {
        if j < bytes_prefix().len() {
            assert(bytes_repr(bs)[j] == bytes_prefix()[j]);
        } else {
            assert(bytes_repr(bs)[j] == base64_of(bs)[j - bytes_prefix().len()]);
            let c = base64_of(bs)[j - bytes_prefix().len()];
            assert(is_b64_char(c) || c == '=');
        }
    }
    lemma_escaped_identity(bytes_repr(bs));
}

pub proof fn lemma_deep_items_push(s: Seq<AnyValue>, w: AnyValue)
    ensures
        deep_items(s.push(w)) == deep_items(s) + seq![deep_any(w)],
    decreases s.len(),
{
    let t = s.push(w);
    if s.len() == 0 {
        assert(t[0] == w);
        assert(t.drop_first() =~= s);
        assert(deep_items(t) == seq![deep_any(w)] + deep_items(s));
        assert(deep_items(t) =~= deep_items(s) + seq![deep_any(w)]);
    } else {
        lemma_deep_items_push(s.drop_first(), w);
        assert(t[0] == s[0]);
        assert(t.drop_first() =~= s.drop_first().push(w));
        assert(deep_items(t) == seq![deep_any(s[0])] + deep_items(s.drop_first().push(w)));
        assert(deep_items(s) == seq![deep_any(s[0])] + deep_items(s.drop_first()));
        assert(deep_items(t) =~= deep_items(s) + seq![deep_any(w)]);
    }
}

pub proof fn lemma_deep_entries_push(s: Seq<(String, AnyValue)>, e: (String, AnyValue))
    ensures
        deep_entries(s.push(e)) == deep_entries(s) + seq![(e.0@, deep_any(e.1))],
    decreases s.len(),
{
    let t = s.push(e);
    if s.len() == 0 {
        assert(t[0] == e);
        assert(t.drop_first() =~= s);
        assert(deep_entries(t) == seq![(e.0@, deep_any(e.1))] + deep_entries(s));
        assert(deep_entries(t) =~= deep_entries(s) + seq![(e.0@, deep_any(e.1))]);
    } else {
        lemma_deep_entries_push(s.drop_first(), e);
        assert(t[0] == s[0]);
        assert(t.drop_first() =~= s.drop_first().push(e));
        assert(deep_entries(t) == seq![(s[0].0@, deep_any(s[0].1))] + deep_entries(
            s.drop_first().push(e),
        ));
        assert(deep_entries(s) == seq![(s[0].0@, deep_any(s[0].1))] + deep_entries(s.drop_first()));
        assert(deep_entries(t) =~= deep_entries(s) + seq![(e.0@, deep_any(e.1))]);
    }
}

pub fn is_number_char_of(c: char) -> (b: bool)
    ensures
        b == is_number_char(c),
{
    let u = char_code(c);
    (48 <= u && u <= 57) || u == 45 || u == 43 || u == 46 || u == 101 || u == 69
}

/// The first position at or after `i` that does not hold a number
/// character.
pub fn scan_number_end(s: &Vec<char>, i: usize) -> (k: usize)
    requires
        i <= s@.len(),
    ensures
        i <= k <= s@.len(),
        forall|j: int| i <= j < k ==> is_number_char(#[trigger] s@[j]),
        k < s@.len() ==> !is_number_char(s@[k as int]),
    decreases s@.len() - i,
{
    if i == s.len() {
        i
    } else if is_number_char_of(s[i]) {
        scan_number_end(s, i + 1)
    } else {
        i
    }
}

/// Reads the escaped body of a string literal up to its closing quote,
/// appending the unescaped characters: whenever the input from `i` holds
/// `escaped(t)` and then a quote, it yields exactly `t` and stops just
/// past the quote.
#[verifier::rlimit(30)]
pub fn scan_string_tail(s: &Vec<char>, i: usize, out: &mut Vec<char>) -> (r: Option<usize>)
    requires
        i <= s@.len(),
    ensures
        r is Some ==> i < r->0 <= s@.len(),
        forall|t: Seq<char>|
            str_body_at(s@, i as int, t) ==> (r == Some((i + escaped(t).len() + 1) as usize)
                && final(out)@ == old(out)@ + t),
    decreases s@.len() - i,
{
    if i == s.len() {
        return None;
    }
    let c = s[i];
    if c == '"' {
        proof {
            assert forall|t: Seq<char>| str_body_at(s@, i as int, t) implies (i + escaped(t).len()
                + 1 == i + 1 && out@ == old(out)@ + t) by {
                if t.len() > 0 {
                    assert(escaped(t) == escaped_char(t[0]) + escaped(t.drop_first()));
                    assert(escaped(t)[0] == escaped_char(t[0])[0]);
                    assert(s@[i as int] == escaped(t)[0]);
                    assert(false);
                }
                assert(escaped(t).len() == 0);
                assert(out@ =~= old(out)@ + t);
            }
        }
        return Some(i + 1);
    }
    if c == '\\' {
        if i + 1 >= s.len() {
            proof {
                assert forall|t: Seq<char>| !str_body_at(s@, i as int, t) by {
                    if str_body_at(s@, i as int, t) {
                        if t.len() == 0 {
                            assert(s@[i as int] == '"');
                        } else {
                            assert(escaped(t) == escaped_char(t[0]) + escaped(t.drop_first()));
                            assert(escaped(t)[0] == escaped_char(t[0])[0]);
                            assert(escaped_char(t[0])[0] == '\\');
                            assert(escaped(t).len() >= escaped_char(t[0]).len());
                            assert(escaped_char(t[0]).len() >= 2);
                            assert(escaped(t)[1] == escaped_char(t[0])[1]);
                            assert(i + 1 < s@.len());
                        }
                        assert(false);
                    }
                }
            }
            return None;
        }
        let c2 = s[i + 1];
        if c2 == '"' || c2 == '\\' {
            out.push(c2);
            let r = scan_string_tail(s, i + 2, out);
            proof {
                assert forall|t: Seq<char>| str_body_at(s@, i as int, t) implies (r == Some(
                    (i + escaped(t).len() + 1) as usize,
                ) && out@ == old(out)@ + t) by {
                    assert(t.len() > 0) by {
                        if t.len() == 0 {
                            assert(s@[i as int] == '"');
                        }
                    }
                    assert(escaped(t) == escaped_char(t[0]) + escaped(t.drop_first()));
                    lemma_text_at_split(s@, i as int, escaped_char(t[0]), escaped(t.drop_first()));
                    assert(escaped_char(t[0])[0] == s@[i as int]);
                    assert(escaped_char(t[0]).len() == 2 && escaped_char(t[0])[1] == t[0]) by {
                        if t[0] != '"' && t[0] != '\\' {
                            assert(escaped_char(t[0])[0] != '\\');
                        }
                    }
                    assert(t[0] == c2);
                    assert(str_body_at(s@, i + 2, t.drop_first()));
                    assert(out@ == (old(out)@ + seq![c2]) + t.drop_first());
                    assert(out@ =~= old(out)@ + t);
                }
            }
            return r;
        }
        if c2 == 'u' {
            if s.len() - i < 6 || !(s[i + 2] == '0' && s[i + 3] == '0') {
                proof {
                    assert forall|t: Seq<char>| !str_body_at(s@, i as int, t) by {
                        if str_body_at(s@, i as int, t) {
                            lemma_scan_control_case(s@, i as int, t, c2);
                            assert(false);
                        }
                    }
                }
                return None;
            }
            let h1 = match hex_val_of(s[i + 4]) {
                Some(h) => h,
                None => {
                    proof {
                        assert forall|t: Seq<char>| !str_body_at(s@, i as int, t) by {
                            if str_body_at(s@, i as int, t) {
                                lemma_scan_control_case(s@, i as int, t, c2);
                                assert(false);
                            }
                        }
                    }
                    return None;
                },
            };
            let h2 = match hex_val_of(s[i + 5]) {
                Some(h) => h,
                None => {
                    proof {
                        assert forall|t: Seq<char>| !str_body_at(s@, i as int, t) by {
                            if str_body_at(s@, i as int, t) {
                                lemma_scan_control_case(s@, i as int, t, c2);
                                assert(false);
                            }
                        }
                    }
                    return None;
                },
            };
            if h1 >= 2 {
                proof {
                    assert forall|t: Seq<char>| !str_body_at(s@, i as int, t) by {
                        if str_body_at(s@, i as int, t) {
                            lemma_scan_control_case(s@, i as int, t, c2);
                            assert(false);
                        }
                    }
                }
                return None;
            }
            let decoded: char = ((h1 * 16 + h2) as u8) as char;
            out.push(decoded);
            let r = scan_string_tail(s, i + 6, out);
            proof {
                assert forall|t: Seq<char>| str_body_at(s@, i as int, t) implies (r == Some(
                    (i + escaped(t).len() + 1) as usize,
                ) && out@ == old(out)@ + t) by {
                    lemma_scan_control_case(s@, i as int, t, c2);
                    assert(escaped(t) == escaped_char(t[0]) + escaped(t.drop_first()));
                    lemma_text_at_split(s@, i as int, escaped_char(t[0]), escaped(t.drop_first()));
                    crate::hex::lemma_hex_digit_roundtrip(t[0] as int / 16);
                    crate::hex::lemma_hex_digit_roundtrip(t[0] as int % 16);
                    assert(h1 as int == t[0] as int / 16);
                    assert(h2 as int == t[0] as int % 16);
                    assert(decoded as int == t[0] as int);
                    assert(decoded == t[0]);
                    assert(str_body_at(s@, i + 6, t.drop_first()));
                    assert(out@ == (old(out)@ + seq![decoded]) + t.drop_first());
                    assert(out@ =~= old(out)@ + t);
                }
            }
            return r;
        }
        proof {
            assert forall|t: Seq<char>| !str_body_at(s@, i as int, t) by {
                if str_body_at(s@, i as int, t) {
                    if t.len() == 0 {
                        assert(s@[i as int] == '"');
                    } else {
                        assert(escaped(t) == escaped_char(t[0]) + escaped(t.drop_first()));
                        assert(escaped(t)[0] == escaped_char(t[0])[0]);
                        assert(escaped(t).len() >= 2);
                        assert(escaped(t)[1] == escaped_char(t[0])[1]);
                    }
                    assert(false);
                }
            }
        }
        return None;
    }
    // A plain character stands for itself.
    out.push(c);
    let r = scan_string_tail(s, i + 1, out);
    proof {
        assert forall|t: Seq<char>| str_body_at(s@, i as int, t) implies (r == Some(
            (i + escaped(t).len() + 1) as usize,
        ) && out@ == old(out)@ + t) by {
            assert(t.len() > 0) by {
                if t.len() == 0 {
                    assert(s@[i as int] == '"');
                }
            }
            assert(escaped(t) == escaped_char(t[0]) + escaped(t.drop_first()));
            lemma_text_at_split(s@, i as int, escaped_char(t[0]), escaped(t.drop_first()));
            assert(escaped_char(t[0])[0] == s@[i as int]);
            assert(escaped_char(t[0]) =~= seq![t[0]]) by {
                if t[0] == '"' || t[0] == '\\' || (0 <= t[0] as int && (t[0] as int) < 32) {
                    assert(escaped_char(t[0])[0] == '\\');
                }
            }
            assert(t[0] == c);
            assert(str_body_at(s@, i + 1, t.drop_first()));
            assert(out@ == (old(out)@ + seq![c]) + t.drop_first());
            assert(out@ =~= old(out)@ + t);
        }
    }
    r
}

/// In the escaped text, a `\u` escape can only come from a control
/// character, and then spells `\u00` and its two hex digits.
proof fn lemma_scan_control_case(s: Seq<char>, i: int, t: Seq<char>, c2: char)
    requires
        str_body_at(s, i, t),
        i + 1 < s.len(),
        s[i] == '\\',
        s[i + 1] == c2,
        c2 == 'u',
    ensures
        t.len() > 0,
        (t[0] as int) < 32,
        t[0] != '"' && t[0] != '\\',
        i + 6 <= s.len(),
        s[i + 2] == '0' && s[i + 3] == '0',
        s[i + 4] == crate::hex::hex_digit_char(t[0] as int / 16),
        s[i + 5] == crate::hex::hex_digit_char(t[0] as int % 16),
        crate::hex::is_hex_digit(s[i + 4]) && crate::hex::hex_val(s[i + 4]) == t[0] as int / 16,
        crate::hex::is_hex_digit(s[i + 5]) && crate::hex::hex_val(s[i + 5]) == t[0] as int % 16,
        t[0] as int / 16 < 2,
{
    assert(t.len() > 0) by {
        if t.len() == 0 {
            assert(s[i] == '"');
        }
    }
    assert(escaped(t) == escaped_char(t[0]) + escaped(t.drop_first()));
    assert(escaped(t)[0] == escaped_char(t[0])[0]);
    assert(escaped(t)[0] == s[i]);
    if t[0] == '"' || t[0] == '\\' {
        assert(escaped(t)[1] == escaped_char(t[0])[1]);
        assert(s[i + 1] == escaped(t)[1]);
        assert(false);
    }
    if (t[0] as int) >= 32 {
        assert(escaped_char(t[0])[0] == t[0]);
        assert(false);
    }
    assert(escaped_char(t[0]).len() == 6);
    assert(escaped(t).len() >= 6);
    assert forall|j: int| 0 <= j < 6 implies s[i + j] == escaped_char(t[0])[j] by {
        assert(escaped(t)[j] == escaped_char(t[0])[j]);
        assert(s[i + j] == escaped(t)[j]);
    }
    crate::hex::lemma_hex_digit_roundtrip(t[0] as int / 16);
    crate::hex::lemma_hex_digit_roundtrip(t[0] as int % 16);
}


/// Every character of a number token is a number character; an integer
/// token is digits with at most a leading minus sign.
pub proof fn lemma_number_token_chars(v: AnyVal)
    requires
        wf_any(v),
        v is Int || v is Double,
    ensures
        json_of_any(v).len() >= 1,
        forall|j: int|
            0 <= j < json_of_any(v).len() ==> is_number_char(#[trigger] json_of_any(v)[j]),
        v is Int ==> forall|j: int|
            0 <= j < json_of_any(v).len() ==> (is_digit(#[trigger] json_of_any(v)[j]) || (j == 0
                && json_of_any(v)[j] == '-')),
{
    match v {
        AnyVal::Int(m) => {
            if m >= 0 {
                lemma_dec_of_nat_digits(m as nat);
            } else {
                lemma_dec_of_nat_digits((-m) as nat);
                let tok = json_of_any(v);
                assert(tok == seq!['-'] + dec_of_nat((-m) as nat));
                assert forall|j: int|
                    0 <= j < tok.len() implies (is_digit(#[trigger] tok[j]) || (j == 0 && tok[j]
                    == '-')) by {
                    if j > 0 {
                        assert(tok[j] == dec_of_nat((-m) as nat)[j - 1]);
                    }
                }
            }
        },
        AnyVal::Double(bits) => {
            lemma_double_token_shape(bits);
        },
        _ => {},
    }
}

/// The parse result holds exactly `v`, ending where its rendering ends.
pub open spec fn parsed_to(r: Option<(AnyValue, usize)>, i: int, v: AnyVal) -> bool {
    r is Some && deep_any((r->0).0) == v && ((r->0).1 as int) == i + json_of_any(v).len()
}

/// Reads one number token: an integer as its digits spell it, or a double
/// through the formatter's round-trip guarantee.
#[verifier::loop_isolation(false)]
#[verifier::rlimit(60)]
fn parse_number(s: &Vec<char>, i: usize) -> (r: Option<(AnyValue, usize)>)
    requires
        i <= s@.len(),
    ensures
        r is Some ==> i < (r->0).1 <= s@.len(),
        forall|v: AnyVal|
            wf_any(v) && (v is Int || v is Double) && any_matches_at(s@, i as int, v)
                ==> parsed_to(r, i as int, v),
{
    let n = s.len();
    let k = scan_number_end(s, i);
    proof {
        assert forall|v: AnyVal|
            wf_any(v) && (v is Int || v is Double) && any_matches_at(
                s@,
                i as int,
                v,
            ) implies k == i + json_of_any(v).len() by {
            let tok = json_of_any(v);
            lemma_number_token_chars(v);
            if k < i + tok.len() {
                assert(s@[k as int] == tok[k - i]);
                assert(is_number_char(tok[k - i]));
                assert(false);
            }
            if k > i + tok.len() {
                let e = i + tok.len();
                assert(is_number_char(s@[e as int]));
                assert(closes_at(s@, e as int));
                assert(false);
            }
        }
    }
    if k == i {
        return None;
    }
    let mut token: Vec<char> = Vec::new();
    let mut j = i;
    while j < k
        invariant
            i <= j <= k <= n,
            n == s@.len(),
            token@ == s@.subrange(i as int, j as int),
        decreases k - j,
    {
        token.push(s[j]);
        proof {
            assert(token@ =~= s@.subrange(i as int, j + 1));
        }
        j += 1;
    }
    proof {
        assert forall|v: AnyVal|
            wf_any(v) && (v is Int || v is Double) && any_matches_at(
                s@,
                i as int,
                v,
            ) implies token@ == json_of_any(v) by {
            assert(token@.len() == json_of_any(v).len());
            assert forall|q: int| 0 <= q < token@.len() implies token@[q] == #[trigger] json_of_any(
                v,
            )[q] by {
                assert(token@[q] == s@[i + q]);
            }
            assert(token@ =~= json_of_any(v));
        }
    }
    let tlen = token.len();
    let mut has_mark = false;
    let mut q: usize = 0;
    while q < tlen
        invariant
            q <= tlen == token@.len(),
            has_mark == exists|p: int|
                0 <= p < q && ((#[trigger] token@[p]) == '.' || token@[p] == 'e' || token@[p]
                    == 'E'),
        decreases tlen - q,
    {
        let c = token[q];
        if c == '.' || c == 'e' || c == 'E' {
            has_mark = true;
            proof {
                assert(token@[q as int] == '.' || token@[q as int] == 'e' || token@[q as int]
                    == 'E');
            }
        }
        q += 1;
    }
    if has_mark {
        // A decimal point or exponent: only a double renders this way.
        proof {
            assert forall|v: AnyVal|
                wf_any(v) && (v is Int || v is Double) && any_matches_at(
                    s@,
                    i as int,
                    v,
                ) implies v is Double && token@ == json_of_double(v->Double_0) by {
                lemma_number_token_chars(v);
                if v is Int {
                    let p = choose|p: int|
                        0 <= p < token@.len() && ((#[trigger] token@[p]) == '.' || token@[p] == 'e'
                            || token@[p] == 'E');
                    assert(is_digit(json_of_any(v)[p]) || (p == 0 && json_of_any(v)[p] == '-'));
                    assert(false);
                }
            }
        }
        match parse_double(&token) {
            Some(bits) => Some((AnyValue::Double(bits), k)),
            None => None,
        }
    } else {
        // Digits with at most a sign: an integer.
        let neg = token[0] == '-';
        let start: usize = if neg {
            1
        } else {
            0
        };
        proof {
            assert forall|v: AnyVal|
                wf_any(v) && (v is Int || v is Double) && any_matches_at(
                    s@,
                    i as int,
                    v,
                ) implies v is Int && (v->Int_0 < 0 <==> neg) && (v->Int_0 >= 0
                ==> token@ == dec_of_nat(v->Int_0 as nat)) && (v->Int_0 < 0 ==> token@.subrange(
                1,
                token@.len() as int,
            ) == dec_of_nat((-v->Int_0) as nat) && token@.len() >= 2) by {
                lemma_number_token_chars(v);
                if v is Double {
                    lemma_double_token_shape(v->Double_0);
                    let p = choose|p: int|
                        0 <= p < json_of_double(v->Double_0).len() && (json_of_double(v->Double_0)[p]
                            == '.' || #[trigger] json_of_double(v->Double_0)[p] == 'e');
                    assert(token@[p] == '.' || token@[p] == 'e');
                    assert(false);
                }
                let m = v->Int_0;
                if m >= 0 {
                    lemma_dec_of_nat_digits(m as nat);
                    assert(is_digit(token@[0]));
                    assert(!neg);
                } else {
                    assert(token@ == seq!['-'] + dec_of_nat((-m) as nat));
                    assert(token@[0] == '-');
                    lemma_dec_of_nat_digits((-m) as nat);
                    assert(token@.subrange(1, token@.len() as int) =~= dec_of_nat((-m) as nat));
                }
            }
        }
        if start >= tlen {
            return None;
        }
        if tlen - start > 20 {
            proof {
                assert forall|v: AnyVal|
                    !(wf_any(v) && (v is Int || v is Double) && any_matches_at(
                        s@,
                        i as int,
                        v,
                    )) by {
                    if wf_any(v) && (v is Int || v is Double) && any_matches_at(s@, i as int, v) {
                        let m = v->Int_0;
                        lemma_pow10_le(19, 19);
                        if m >= 0 {
                            lemma_dec_of_nat_len(m as nat, 19);
                        } else {
                            lemma_dec_of_nat_len((-m) as nat, 19);
                        }
                        assert(false);
                    }
                }
            }
            return None;
        }
        let mut acc: u128 = 0;
        let mut d: usize = start;
        while d < tlen
            invariant
                start <= d <= tlen == token@.len(),
                tlen - start <= 20,
                start <= 1,
                all_digits(token@.subrange(start as int, d as int)),
                acc as int == dec_num(token@.subrange(start as int, d as int)),
                (acc as nat) < pow10((d - start) as nat),
            decreases tlen - d,
        {
            let c = token[d];
            let u = char_code(c);
            if !(48 <= u && u <= 57) {
                proof {
                    assert forall|v: AnyVal|
                        !(wf_any(v) && (v is Int || v is Double) && any_matches_at(
                            s@,
                            i as int,
                            v,
                        )) by {
                        if wf_any(v) && (v is Int || v is Double) && any_matches_at(
                            s@,
                            i as int,
                            v,
                        ) {
                            lemma_number_token_chars(v);
                            assert(is_digit(token@[d as int]) || (d == 0 && token@[d as int]
                                == '-'));
                            assert(false);
                        }
                    }
                }
                return None;
            }
            proof {
                lemma_pow10_le((d - start) as nat, 19);
                assert((acc as nat) * 10 + 9 < pow10((d - start + 1) as nat)) by {
                    assert(pow10((d - start + 1) as nat) == 10 * pow10((d - start) as nat));
                }
                let t = token@.subrange(start as int, d + 1);
                assert(t.drop_last() =~= token@.subrange(start as int, d as int));
                assert(t.last() == token@[d as int]);
                assert(digit_val(token@[d as int]) == u - 48);
            }
            acc = acc * 10 + ((u - 48) as u128);
            d += 1;
        }
        proof {
            assert forall|v: AnyVal|
                wf_any(v) && (v is Int || v is Double) && any_matches_at(
                    s@,
                    i as int,
                    v,
                ) implies v is Int && acc as int == (if v->Int_0 >= 0 {
                v->Int_0
            } else {
                -v->Int_0
            }) by {
                let m = v->Int_0;
                if m >= 0 {
                    assert(token@.subrange(0, token@.len() as int) =~= token@);
                    lemma_dec_num_of_dec_of_nat(m as nat);
                } else {
                    lemma_dec_num_of_dec_of_nat((-m) as nat);
                }
            }
        }
        if neg {
            if acc > 9223372036854775808u128 {
                return None;
            }
            Some((AnyValue::Int((-(acc as i128)) as i64), k))
        } else {
            if acc > 9223372036854775807u128 {
                return None;
            }
            Some((AnyValue::Int(acc as i64), k))
        }
    }
}


/// A string value occupies a quote, the escaped body, and a closing quote.
pub proof fn lemma_string_shape(s: Seq<char>, i: int, t: Seq<char>)
    requires
        text_at(s, i, json_of_string(t)),
    ensures
        s[i] == '"',
        str_body_at(s, i + 1, t),
        json_of_string(t).len() == escaped(t).len() + 2,
{
    assert(json_of_string(t) == (seq!['"'] + escaped(t)) + seq!['"']);
    lemma_text_at_split(s, i, seq!['"'] + escaped(t), seq!['"']);
    lemma_text_at_split(s, i, seq!['"'], escaped(t));
    assert(seq!['"'][0] == '"');
    assert(s[i + 0] == '"');
    let q = i + 1 + escaped(t).len();
    assert(s[q + 0] == '"');
}

/// The first item of a rendered list starts at once and ends at a comma or
/// the closing bracket; what follows a comma is again a rendered list.
pub proof fn lemma_items_head(s: Seq<char>, i: int, items: Seq<AnyVal>)
    requires
        items_at(s, i, items),
    ensures
        wf_any(items[0]),
        any_matches_at(s, i, items[0]),
        json_of_items(items).len() >= json_of_any(items[0]).len(),
        items.len() == 1 ==> json_of_items(items) == json_of_any(items[0]),
        items.len() >= 2 ==> s[i + json_of_any(items[0]).len()] == ',' && items_at(
            s,
            i + json_of_any(items[0]).len() + 1,
            items.drop_first(),
        ) && json_of_items(items).len() == json_of_any(items[0]).len() + 1 + json_of_items(
            items.drop_first(),
        ).len(),
{
    if items.len() == 1 {
        assert(closes_at(s, i + json_of_any(items[0]).len()));
    } else {
        let e0 = json_of_any(items[0]);
        let rest = json_of_items(items.drop_first());
        assert(json_of_items(items) == (e0 + seq![',']) + rest);
        lemma_text_at_split(s, i, e0 + seq![','], rest);
        lemma_text_at_split(s, i, e0, seq![',']);
        assert(seq![','][0] == ',');
        assert(s[i + e0.len() + 0] == ',');
        assert(closes_at(s, i + e0.len()));
        assert forall|k: int| 0 <= k < items.drop_first().len() implies wf_any(
            #[trigger] items.drop_first()[k],
        ) by {
            assert(items.drop_first()[k] == items[k + 1]);
        }
        assert(items_at(s, i + e0.len() + 1, items.drop_first()));
    }
}

/// The first entry of a rendered object: its quoted key, the colon, the
/// value, and then either the closing brace or a comma and another
/// rendered object body.
pub proof fn lemma_entries_head(s: Seq<char>, i: int, es: Seq<(Seq<char>, AnyVal)>)
    requires
        entries_at(s, i, es),
    ensures
        wf_any(es[0].1),
        s[i] == '"',
        str_body_at(s, i + 1, es[0].0),
        json_of_string(es[0].0).len() == escaped(es[0].0).len() + 2,
        s[i + json_of_string(es[0].0).len()] == ':',
        any_matches_at(s, i + json_of_string(es[0].0).len() + 1, es[0].1),
        json_of_entries(es).len() >= json_of_string(es[0].0).len() + 1 + json_of_any(es[0].1).len(),
        es.len() == 1 ==> json_of_entries(es).len() == json_of_string(es[0].0).len() + 1
            + json_of_any(es[0].1).len(),
        es.len() >= 2 ==> s[i + json_of_string(es[0].0).len() + 1 + json_of_any(es[0].1).len()]
            == ',' && entries_at(
            s,
            i + json_of_string(es[0].0).len() + 1 + json_of_any(es[0].1).len() + 1,
            es.drop_first(),
        ) && json_of_entries(es).len() == json_of_string(es[0].0).len() + 1 + json_of_any(
            es[0].1,
        ).len() + 1 + json_of_entries(es.drop_first()).len(),
{
    let key = json_of_string(es[0].0);
    let val = json_of_any(es[0].1);
    if es.len() == 1 {
        assert(json_of_entries(es) == (key + seq![':']) + val);
        lemma_text_at_split(s, i, key + seq![':'], val);
        lemma_text_at_split(s, i, key, seq![':']);
        lemma_string_shape(s, i, es[0].0);
        assert(seq![':'][0] == ':');
        assert(s[i + key.len() + 0] == ':');
        assert(closes_at(s, i + key.len() + 1 + val.len()));
    } else {
        let rest = json_of_entries(es.drop_first());
        assert(json_of_entries(es) == (((key + seq![':']) + val) + seq![',']) + rest);
        lemma_text_at_split(s, i, ((key + seq![':']) + val) + seq![','], rest);
        lemma_text_at_split(s, i, (key + seq![':']) + val, seq![',']);
        lemma_text_at_split(s, i, key + seq![':'], val);
        lemma_text_at_split(s, i, key, seq![':']);
        lemma_string_shape(s, i, es[0].0);
        assert(seq![':'][0] == ':');
        assert(s[i + key.len() + 0] == ':');
        assert(seq![','][0] == ',');
        assert(s[i + key.len() + 1 + val.len() + 0] == ',');
        assert(closes_at(s, i + key.len() + 1 + val.len()));
        assert forall|k: int| 0 <= k < es.drop_first().len() implies wf_any(
            #[trigger] es.drop_first()[k].1,
        ) by {
            assert(es.drop_first()[k] == es[k + 1]);
        }
        assert(entries_at(s, i + key.len() + 1 + val.len() + 1, es.drop_first()));
    }
}

/// Whether `a` starts with all of `b`.
pub fn starts_with_all(a: &Vec<char>, b: &Vec<char>, p: usize) -> (r: bool)
    requires
        p <= b@.len(),
    ensures
        r == (a@.len() >= b@.len() && (forall|j: int| p <= j < b@.len() ==> a@[j] == b@[j])),
    decreases b@.len() - p,
{
    if a.len() < b.len() {
        false
    } else if p == b.len() {
        true
    } else if a[p] == b[p] {
        starts_with_all(a, b, p + 1)
    } else {
        false
    }
}

/// Reads one value. Whenever a well-formed value's rendering sits at `i`,
/// ending where a value may end, the parser returns exactly that value and
/// stops exactly at the rendering's end: reading back what `json_of_any`
/// spells out is the identity.
#[verifier::loop_isolation(false)]
#[verifier::rlimit(100)]
pub fn parse_any(s: &Vec<char>, i: usize) -> (r: Option<(AnyValue, usize)>)
    requires
        i <= s@.len(),
    ensures
        r is Some ==> i < (r->0).1 <= s@.len(),
        forall|v: AnyVal|
            wf_any(v) && any_matches_at(s@, i as int, v) ==> parsed_to(r, i as int, v),
    decreases s@.len() - i, 0nat,
{
    proof {
        assert forall|v: AnyVal|
            wf_any(v) && any_matches_at(s@, i as int, v) implies (i < s@.len() && s@[i as int]
            == json_of_any(v)[0] && json_of_any(v).len() >= 1) by {
            lemma_json_any_first(v);
            assert(s@[i + 0] == json_of_any(v)[0]);
        }
    }
    if i == s.len() {
        return None;
    }
    let c = s[i];
    let u = char_code(c);
    if c == 't' {
        proof {
            assert forall|v: AnyVal|
                wf_any(v) && any_matches_at(s@, i as int, v) implies (v == AnyVal::Boolean(true)
                && json_of_any(v).len() == 4 && i + 4 <= s@.len() && s@[i + 1] == 'r' && s@[i + 2]
                == 'u' && s@[i + 3] == 'e') by {
                lemma_json_any_first(v);
                assert(v is Boolean && v->Boolean_0 == true);
                assert(s@[i + 1] == json_of_bool(true)[1]);
                assert(s@[i + 2] == json_of_bool(true)[2]);
                assert(s@[i + 3] == json_of_bool(true)[3]);
            }
        }
        if s.len() - i >= 4 && s[i + 1] == 'r' && s[i + 2] == 'u' && s[i + 3] == 'e' {
            Some((AnyValue::Boolean(true), i + 4))
        } else {
            None
        }
    } else if c == 'f' {
        proof {
            assert forall|v: AnyVal|
                wf_any(v) && any_matches_at(s@, i as int, v) implies (v == AnyVal::Boolean(false)
                && json_of_any(v).len() == 5 && i + 5 <= s@.len() && s@[i + 1] == 'a' && s@[i + 2]
                == 'l' && s@[i + 3] == 's' && s@[i + 4] == 'e') by {
                lemma_json_any_first(v);
                assert(v is Boolean && v->Boolean_0 == false);
                assert(s@[i + 1] == json_of_bool(false)[1]);
                assert(s@[i + 2] == json_of_bool(false)[2]);
                assert(s@[i + 3] == json_of_bool(false)[3]);
                assert(s@[i + 4] == json_of_bool(false)[4]);
            }
        }
        if s.len() - i >= 5 && s[i + 1] == 'a' && s[i + 2] == 'l' && s[i + 3] == 's' && s[i + 4]
            == 'e' {
            Some((AnyValue::Boolean(false), i + 5))
        } else {
            None
        }
    } else if c == '"' {
        proof {
            assert forall|v: AnyVal|
                wf_any(v) && any_matches_at(s@, i as int, v) && v is Text implies (str_body_at(
                s@,
                i + 1,
                v->Text_0,
            ) && json_of_any(v).len() == escaped(v->Text_0).len() + 2) by {
                lemma_string_shape(s@, i as int, v->Text_0);
            }
            assert forall|v: AnyVal|
                wf_any(v) && any_matches_at(s@, i as int, v) && v is Bytes implies (str_body_at(
                s@,
                i + 1,
                bytes_repr(v->Bytes_0),
            ) && escaped(bytes_repr(v->Bytes_0)) == bytes_repr(v->Bytes_0) && json_of_any(v).len()
                == bytes_repr(v->Bytes_0).len() + 2) by {
                lemma_bytes_repr_escapes(v->Bytes_0);
                lemma_string_shape(s@, i as int, bytes_repr(v->Bytes_0));
            }
            assert forall|v: AnyVal|
                wf_any(v) && any_matches_at(s@, i as int, v) implies (v is Text || v is Bytes) by {
                lemma_json_any_first(v);
            }
        }
        let mut content: Vec<char> = Vec::new();
        let r0 = scan_string_tail(s, i + 1, &mut content);
        match r0 {
            None => None,
            Some(end) => {
                let pfx = bytes_prefix_chars();
                proof {
                    lemma_bytes_prefix_chars();
                }
                if starts_with_all(&content, &pfx, 0) {
                    let mut bytes: Vec<u8> = Vec::new();
                    let ok = base64_decode_into(&content, pfx.len(), &mut bytes);
                    proof {
                        assert forall|v: AnyVal|
                            wf_any(v) && any_matches_at(s@, i as int, v) implies (v is Bytes
                            && content@ == bytes_repr(v->Bytes_0) && content@.skip(
                            bytes_prefix().len() as int,
                        ) == crate::b64::base64_of(v->Bytes_0) && end == i + json_of_any(
                            v,
                        ).len()) by {
                            if v is Text {
                                let t = v->Text_0;
                                assert(content@ == t);
                                assert(has_bytes_prefix(t)) by {
                                    assert(t.take(bytes_prefix().len() as int)
                                        =~= bytes_prefix());
                                }
                                assert(false);
                            }
                            let bs = v->Bytes_0;
                            assert(content@ == bytes_repr(bs));
                            assert(content@.skip(bytes_prefix().len() as int)
                                =~= crate::b64::base64_of(bs));
                        }
                    }
                    if ok {
                        Some((AnyValue::Bytes(bytes), end))
                    } else {
                        let txt = string_of(content);
                        Some((AnyValue::Text(txt), end))
                    }
                } else {
                    proof {
                        assert forall|v: AnyVal|
                            wf_any(v) && any_matches_at(s@, i as int, v) implies (v is Text
                            && content@ == v->Text_0 && end == i + json_of_any(v).len()) by {
                            if v is Bytes {
                                let bs = v->Bytes_0;
                                assert(content@ == bytes_repr(bs));
                                assert(content@.len() >= bytes_prefix().len());
                                assert(forall|j: int|
                                    0 <= j < bytes_prefix().len() ==> content@[j]
                                        == #[trigger] bytes_prefix()[j]);
                                assert(false);
                            }
                        }
                    }
                    let txt = string_of(content);
                    Some((AnyValue::Text(txt), end))
                }
            },
        }
    } else if c == '[' {
        proof {
            assert forall|v: AnyVal|
                wf_any(v) && any_matches_at(s@, i as int, v) implies (v is List && text_at(
                s@,
                i + 1,
                json_of_items(v->List_0),
            ) && json_of_any(v).len() == json_of_items(v->List_0).len() + 2 && s@[i + 1
                + json_of_items(v->List_0).len()] == ']' && i + 1 + json_of_items(
                v->List_0,
            ).len() < s@.len()) by {
                lemma_json_any_first(v);
                let items = v->List_0;
                assert(json_of_any(v) == (seq!['['] + json_of_items(items)) + seq![']']);
                lemma_text_at_split(s@, i as int, seq!['['] + json_of_items(items), seq![']']);
                lemma_text_at_split(s@, i as int, seq!['['], json_of_items(items));
                assert(seq![']'][0] == ']');
                assert(s@[i + 1 + json_of_items(items).len() + 0] == ']');
            }
        }
        if s.len() - i >= 2 && s[i + 1] == ']' {
            proof {
                assert forall|v: AnyVal|
                    wf_any(v) && any_matches_at(s@, i as int, v) implies (v == AnyVal::List(
                    Seq::empty(),
                ) && json_of_any(v).len() == 2) by {
                    let items = v->List_0;
                    if items.len() > 0 {
                        lemma_json_any_first(items[0]);
                        assert(json_of_items(items)[0] == json_of_any(items[0])[0]) by {
                            if items.len() >= 2 {
                                assert(json_of_items(items) == (json_of_any(items[0]) + seq![','])
                                    + json_of_items(items.drop_first()));
                            }
                        }
                        assert(s@[i + 1] == json_of_items(items)[0]);
                        assert(false);
                    }
                    assert(items =~= Seq::<AnyVal>::empty());
                }
            }
            let empty_elems: Vec<AnyValue> = Vec::new();
            Some((AnyValue::List(empty_elems), i + 2))
        } else {
            proof {
                assert forall|v: AnyVal|
                    wf_any(v) && any_matches_at(s@, i as int, v) implies items_at(
                    s@,
                    i + 1,
                    v->List_0,
                ) by {
                    let items = v->List_0;
                    if items.len() == 0 {
                        assert(s@[i + 1] == ']');
                        assert(i + 2 <= s@.len());
                        assert(false);
                    }
                }
            }
            let mut elems: Vec<AnyValue> = Vec::new();
            let r1 = parse_items(s, i + 1, &mut elems);
            proof {
                assert forall|v: AnyVal|
                    wf_any(v) && any_matches_at(s@, i as int, v) implies (r1 is Some && deep_items(
                    elems@,
                ) == v->List_0 && (r1->0) as int == i + json_of_any(v).len()) by {
                    assert(deep_items(elems@) =~= Seq::<AnyVal>::empty() + v->List_0);
                }
            }
            match r1 {
                Some(end) => Some((AnyValue::List(elems), end)),
                None => None,
            }
        }
    } else if c == '{' {
        proof {
            assert forall|v: AnyVal|
                wf_any(v) && any_matches_at(s@, i as int, v) implies (v is Mapping && text_at(
                s@,
                i + 1,
                json_of_entries(v->Mapping_0),
            ) && json_of_any(v).len() == json_of_entries(v->Mapping_0).len() + 2 && s@[i + 1
                + json_of_entries(v->Mapping_0).len()] == '}' && i + 1 + json_of_entries(
                v->Mapping_0,
            ).len() < s@.len()) by {
                lemma_json_any_first(v);
                let es = v->Mapping_0;
                assert(json_of_any(v) == (seq!['{'] + json_of_entries(es)) + seq!['}']);
                lemma_text_at_split(s@, i as int, seq!['{'] + json_of_entries(es), seq!['}']);
                lemma_text_at_split(s@, i as int, seq!['{'], json_of_entries(es));
                assert(seq!['}'][0] == '}');
                assert(s@[i + 1 + json_of_entries(es).len() + 0] == '}');
            }
        }
        if s.len() - i >= 2 && s[i + 1] == '}' {
            proof {
                assert forall|v: AnyVal|
                    wf_any(v) && any_matches_at(s@, i as int, v) implies (v == AnyVal::Mapping(
                    Seq::empty(),
                ) && json_of_any(v).len() == 2) by {
                    let es = v->Mapping_0;
                    if es.len() > 0 {
                        assert(json_of_entries(es)[0] == json_of_string(es[0].0)[0]) by {
                            if es.len() >= 2 {
                                assert(json_of_entries(es) == (((json_of_string(es[0].0)
                                    + seq![':']) + json_of_any(es[0].1)) + seq![','])
                                    + json_of_entries(es.drop_first()));
                            } else {
                                assert(json_of_entries(es) == (json_of_string(es[0].0) + seq![':'])
                                    + json_of_any(es[0].1));
                            }
                        }
                        assert(json_of_string(es[0].0)[0] == '"');
                        assert(s@[i + 1] == json_of_entries(es)[0]);
                        assert(false);
                    }
                    assert(es =~= Seq::<(Seq<char>, AnyVal)>::empty());
                }
            }
            let empty_entries: Vec<(String, AnyValue)> = Vec::new();
            Some((AnyValue::Mapping(empty_entries), i + 2))
        } else {
            proof {
                assert forall|v: AnyVal|
                    wf_any(v) && any_matches_at(s@, i as int, v) implies entries_at(
                    s@,
                    i + 1,
                    v->Mapping_0,
                ) by {
                    let es = v->Mapping_0;
                    if es.len() == 0 {
                        assert(s@[i + 1] == '}');
                        assert(i + 2 <= s@.len());
                        assert(false);
                    }
                }
            }
            let mut fields: Vec<(String, AnyValue)> = Vec::new();
            let r1 = parse_entries(s, i + 1, &mut fields);
            proof {
                assert forall|v: AnyVal|
                    wf_any(v) && any_matches_at(s@, i as int, v) implies (r1 is Some
                    && deep_entries(fields@) == v->Mapping_0 && (r1->0) as int == i + json_of_any(
                    v,
                ).len()) by {
                    assert(deep_entries(fields@) =~= Seq::<(Seq<char>, AnyVal)>::empty()
                        + v->Mapping_0);
                }
            }
            match r1 {
                Some(end) => Some((AnyValue::Mapping(fields), end)),
                None => None,
            }
        }
    } else if c == '-' || (48 <= u && u <= 57) {
        proof {
            assert forall|v: AnyVal|
                wf_any(v) && any_matches_at(s@, i as int, v) implies (v is Int || v is Double) by {
                lemma_json_any_first(v);
            }
        }
        parse_number(s, i)
    } else {
        proof {
            assert forall|v: AnyVal| !(wf_any(v) && any_matches_at(s@, i as int, v)) by {
                if wf_any(v) && any_matches_at(s@, i as int, v) {
                    lemma_json_any_first(v);
                    assert(false);
                }
            }
        }
        None
    }
}

/// Reads `item (, item)* ]`, appending the items: the inverse of a
/// rendered, bracket-closed item list.
#[verifier::loop_isolation(false)]
#[verifier::rlimit(100)]
fn parse_items(s: &Vec<char>, i: usize, out: &mut Vec<AnyValue>) -> (r: Option<usize>)
    requires
        i <= s@.len(),
    ensures
        r is Some ==> i < r->0 <= s@.len(),
        forall|items: Seq<AnyVal>|
            items_at(s@, i as int, items) ==> (r is Some && (r->0) as int == i + json_of_items(
                items,
            ).len() + 1 && deep_items(final(out)@) == deep_items(old(out)@) + items),
    decreases s@.len() - i, 1nat,
{
    let r0 = parse_any(s, i);
    proof {
        assert forall|items: Seq<AnyVal>| #[trigger] items_at(s@, i as int, items) implies (
        r0 is Some && parsed_to(r0, i as int, items[0]) && i + json_of_items(items).len()
            < s@.len()) by {
            lemma_items_head(s@, i as int, items);
            assert(parsed_to(r0, i as int, items[0]));
        }
    }
    let wj = match r0 {
        None => {
            return None;
        },
        Some(p) => p,
    };
    let w = wj.0;
    let j = wj.1;
    proof {
        assert forall|items: Seq<AnyVal>| #[trigger] items_at(s@, i as int, items) implies (
        deep_any(w) == items[0] && j as int == i + json_of_any(items[0]).len() && j
            < s@.len()) by {
            lemma_items_head(s@, i as int, items);
        }
    }
    let ghost out0 = out@;
    out.push(w);
    proof {
        lemma_deep_items_push(out0, w);
    }
    if j >= s.len() {
        return None;
    }
    let c = s[j];
    if c == ']' {
        proof {
            assert forall|items: Seq<AnyVal>| #[trigger] items_at(s@, i as int, items) implies ((j
                + 1) as int == i + json_of_items(items).len() + 1 && deep_items(out@)
                == deep_items(out0) + items) by {
                lemma_items_head(s@, i as int, items);
                if items.len() >= 2 {
                    assert(s@[j as int] == ',');
                    assert(false);
                }
                assert(deep_items(out0) + seq![deep_any(w)] =~= deep_items(out0) + items);
            }
        }
        Some(j + 1)
    } else if c == ',' {
        let r2 = parse_items(s, j + 1, out);
        proof {
            assert forall|items: Seq<AnyVal>| #[trigger] items_at(s@, i as int, items) implies (
            r2 is Some && (r2->0) as int == i + json_of_items(items).len() + 1 && deep_items(out@)
                == deep_items(out0) + items) by {
                lemma_items_head(s@, i as int, items);
                if items.len() == 1 {
                    assert(s@[j as int] == ']');
                    assert(false);
                }
                assert(items_at(s@, j + 1, items.drop_first()));
                assert((deep_items(out0) + seq![items[0]]) + items.drop_first() =~= deep_items(out0)
                    + items);
            }
        }
        r2
    } else {
        proof {
            assert forall|items: Seq<AnyVal>| !items_at(s@, i as int, items) by {
                if items_at(s@, i as int, items) {
                    lemma_items_head(s@, i as int, items);
                    assert(false);
                }
            }
        }
        None
    }
}

/// Reads `"key": value (, "key": value)* }`, appending the entries: the
/// inverse of a rendered, brace-closed entry list.
#[verifier::loop_isolation(false)]
#[verifier::rlimit(100)]
fn parse_entries(s: &Vec<char>, i: usize, out: &mut Vec<(String, AnyValue)>) -> (r: Option<usize>)
    requires
        i <= s@.len(),
    ensures
        r is Some ==> i < r->0 <= s@.len(),
        forall|es: Seq<(Seq<char>, AnyVal)>|
            entries_at(s@, i as int, es) ==> (r is Some && (r->0) as int == i + json_of_entries(
                es,
            ).len() + 1 && deep_entries(final(out)@) == deep_entries(old(out)@) + es),
    decreases s@.len() - i, 1nat,
{
    proof {
        assert forall|es: Seq<(Seq<char>, AnyVal)>| #[trigger] entries_at(s@, i as int, es) implies (
        i < s@.len() && s@[i as int] == '"' && str_body_at(s@, i + 1, es[0].0)) by {
            lemma_entries_head(s@, i as int, es);
        }
    }
    if i == s.len() {
        return None;
    }
    if s[i] != '"' {
        return None;
    }
    let mut keybuf: Vec<char> = Vec::new();
    let rk = scan_string_tail(s, i + 1, &mut keybuf);
    let kend = match rk {
        None => {
            return None;
        },
        Some(kend) => kend,
    };
    proof {
        assert forall|es: Seq<(Seq<char>, AnyVal)>| #[trigger] entries_at(s@, i as int, es) implies (
        kend as int == i + json_of_string(es[0].0).len() && keybuf@ == es[0].0 && kend < s@.len()
            && s@[kend as int] == ':' && any_matches_at(s@, kend + 1, es[0].1) && wf_any(
            es[0].1,
        )) by {
            lemma_entries_head(s@, i as int, es);
        }
    }
    if kend >= s.len() {
        return None;
    }
    if s[kend] != ':' {
        return None;
    }
    let rv = parse_any(s, kend + 1);
    proof {
        assert forall|es: Seq<(Seq<char>, AnyVal)>| #[trigger] entries_at(s@, i as int, es) implies (
        rv is Some && parsed_to(rv, kend + 1, es[0].1) && i + json_of_entries(es).len()
            < s@.len()) by {
            lemma_entries_head(s@, i as int, es);
            assert(parsed_to(rv, kend + 1, es[0].1));
        }
    }
    let wj = match rv {
        None => {
            return None;
        },
        Some(p) => p,
    };
    let w = wj.0;
    let j = wj.1;
    proof {
        assert forall|es: Seq<(Seq<char>, AnyVal)>| #[trigger] entries_at(s@, i as int, es) implies (
        deep_any(w) == es[0].1 && j as int == kend + 1 + json_of_any(es[0].1).len() && j
            < s@.len()) by {
            lemma_entries_head(s@, i as int, es);
        }
    }
    let ghost out0 = out@;
    let key = string_of(keybuf);
    out.push((key, w));
    proof {
        lemma_deep_entries_push(out0, (key, w));
    }
    if j >= s.len() {
        return None;
    }
    let c = s[j];
    if c == '}' {
        proof {
            assert forall|es: Seq<(Seq<char>, AnyVal)>| #[trigger] entries_at(
                s@,
                i as int,
                es,
            ) implies ((j + 1) as int == i + json_of_entries(es).len() + 1 && deep_entries(out@)
                == deep_entries(out0) + es) by {
                lemma_entries_head(s@, i as int, es);
                if es.len() >= 2 {
                    assert(s@[j as int] == ',');
                    assert(false);
                }
                assert(deep_entries(out0) + seq![(key@, deep_any(w))] =~= deep_entries(out0) + es);
            }
        }
        Some(j + 1)
    } else if c == ',' {
        let r2 = parse_entries(s, j + 1, out);
        proof {
            assert forall|es: Seq<(Seq<char>, AnyVal)>| #[trigger] entries_at(
                s@,
                i as int,
                es,
            ) implies (r2 is Some && (r2->0) as int == i + json_of_entries(es).len() + 1
                && deep_entries(out@) == deep_entries(out0) + es) by {
                lemma_entries_head(s@, i as int, es);
                if es.len() == 1 {
                    assert(s@[j as int] == '}');
                    assert(false);
                }
                assert(entries_at(s@, j + 1, es.drop_first()));
                assert((deep_entries(out0) + seq![(es[0].0, es[0].1)]) + es.drop_first()
                    =~= deep_entries(out0) + es);
            }
        }
        r2
    } else {
        proof {
            assert forall|es: Seq<(Seq<char>, AnyVal)>| !entries_at(s@, i as int, es) by {
                if entries_at(s@, i as int, es) {
                    lemma_entries_head(s@, i as int, es);
                    assert(false);
                }
            }
        }
        None
    }
}

/// Reads a whole JSON text back into a structured value: the inverse of
/// `any_value_to_json` on every well-formed value.
pub fn any_value_from_json(s: &str) -> (r: Option<AnyValue>)
    ensures
        forall|v: AnyVal|
            wf_any(v) && s@ == json_of_any(v) ==> (r is Some && deep_any(r->0) == v),
{
    let cs = chars_of(s);
    proof {
        assert forall|v: AnyVal|
            wf_any(v) && s@ == json_of_any(v) implies any_matches_at(cs@, 0, v) by {
            assert(text_at(cs@, 0, json_of_any(v))) by {
                assert(forall|j: int|
                    0 <= j < json_of_any(v).len() ==> cs@[0 + j] == #[trigger] json_of_any(v)[j]);
            }
            assert(closes_at(cs@, json_of_any(v).len() as int));
        }
    }
    match parse_any(&cs, 0) {
        Some((w, end)) => {
            if end == cs.len() {
                Some(w)
            } else {
                proof {
                    assert forall|v: AnyVal| !(wf_any(v) && s@ == json_of_any(v)) by {
                        if wf_any(v) && s@ == json_of_any(v) {
                            assert(end as int == 0 + json_of_any(v).len());
                            assert(false);
                        }
                    }
                }
                None
            }
        },
        None => None,
    }
}


/// The round trip the encoding promises: rendering any well-formed value
/// and reading the text back yields a value of exactly the same shape,
/// leaf for leaf. Well-formedness excludes only what no text could carry
/// back: a non-finite double (rendered as `null`) and a text leaf that
/// itself starts with the byte-payload tag.
pub fn any_value_round_trip(v: &AnyValue) -> (r: Option<AnyValue>)
    ensures
        wf_any(deep_any(*v)) ==> (r is Some && deep_any(r->0) == deep_any(*v)),
{
    let rendered = crate::anyvalue::any_value_to_json(v);
    any_value_from_json(rendered.as_str())
}

} // verus!
