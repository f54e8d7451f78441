use vstd::prelude::*;
use crate::b64::{base64_of, base64_encode};
use crate::json::{
    json_of_bool, json_of_double, json_of_string, is_finite_double, push_json_bool,
    push_json_double, push_json_string,
};
use crate::text::{chars_of, dec_of_int, push_dec_i64};

verus! {

/// A structured log-body value: the closed set of shapes a record body can
/// take. Doubles carry their IEEE bit pattern; byte payloads are kept as
/// bytes and only encoded when the value is rendered.
#[derive(Debug)]
pub enum AnyValue {
    Boolean(bool),
    Int(i64),
    Double(u64),
    Text(String),
    Bytes(Vec<u8>),
    List(Vec<AnyValue>),
    Mapping(Vec<(String, AnyValue)>),
}

/// The mathematical shape of an `AnyValue`.
pub enum AnyVal {
    Boolean(bool),
    Int(int),
    Double(u64),
    Text(Seq<char>),
    Bytes(Seq<u8>),
    List(Seq<AnyVal>),
    Mapping(Seq<(Seq<char>, AnyVal)>),
}

/// The mathematical shape of an executable value.
pub open spec fn deep_any(v: AnyValue) -> AnyVal
    decreases v,
{
    match v {
        AnyValue::Boolean(b) => AnyVal::Boolean(b),
        AnyValue::Int(n) => AnyVal::Int(n as int),
        AnyValue::Double(bits) => AnyVal::Double(bits),
        AnyValue::Text(s) => AnyVal::Text(s@),
        AnyValue::Bytes(bs) => AnyVal::Bytes(bs@),
        AnyValue::List(items) => AnyVal::List(deep_items(items@)),
        AnyValue::Mapping(entries) => AnyVal::Mapping(deep_entries(entries@)),
    }
}

pub open spec fn deep_items(s: Seq<AnyValue>) -> Seq<AnyVal>
    decreases s, s.len(),
{
    if s.len() == 0 {
        Seq::empty()
    } else {
        seq![deep_any(s[0])] + deep_items(s.drop_first())
    }
}

pub open spec fn deep_entries(s: Seq<(String, AnyValue)>) -> Seq<(Seq<char>, AnyVal)>
    decreases s, s.len(),
{
    if s.len() == 0 {
        Seq::empty()
    } else {
        seq![(s[0].0@, deep_any(s[0].1))] + deep_entries(s.drop_first())
    }
}

pub proof fn lemma_deep_items(s: Seq<AnyValue>)
    ensures
        deep_items(s).len() == s.len(),
        forall|k: int| 0 <= k < s.len() ==> deep_items(s)[k] == deep_any(#[trigger] s[k]),
    decreases s.len(),
{
    if s.len() > 0 {
        lemma_deep_items(s.drop_first());
        assert forall|k: int| 0 <= k < s.len() implies deep_items(s)[k] == deep_any(
            #[trigger] s[k],
        ) by {
            if k > 0 {
                assert(deep_items(s)[k] == deep_items(s.drop_first())[k - 1]);
                assert(s.drop_first()[k - 1] == s[k]);
            }
        }
    }
}

pub proof fn lemma_deep_entries(s: Seq<(String, AnyValue)>)
    ensures
        deep_entries(s).len() == s.len(),
        forall|k: int|
            0 <= k < s.len() ==> deep_entries(s)[k] == ((#[trigger] s[k]).0@, deep_any(s[k].1)),
    decreases s.len(),
{
    if s.len() > 0 {
        lemma_deep_entries(s.drop_first());
        assert forall|k: int| 0 <= k < s.len() implies deep_entries(s)[k] == ((#[trigger] s[k]).0@,
            deep_any(s[k].1)) by {
            if k > 0 {
                assert(deep_entries(s)[k] == deep_entries(s.drop_first())[k - 1]);
                assert(s.drop_first()[k - 1] == s[k]);
            }
        }
    }
}

impl DeepView for AnyValue {
    type V = AnyVal;

    open spec fn deep_view(&self) -> AnyVal {
        deep_any(*self)
    }
}

/// The tag a rendered byte payload carries so that consumers can tell
/// encoded bytes from an ordinary string.
pub open spec fn bytes_prefix() -> Seq<char> {
    "data:application/octet-stream;base64,"@
}

pub fn bytes_prefix_chars() -> (r: Vec<char>)
    ensures
        r@ == bytes_prefix(),
{
    chars_of("data:application/octet-stream;base64,")
}

/// The string a byte payload crosses the boundary as: the tag, then the
/// standard base64 of the bytes.
pub open spec fn bytes_repr(b: Seq<u8>) -> Seq<char> {
    bytes_prefix() + base64_of(b)
}

/// The JSON rendering of a structured value. Scalars render as JSON
/// scalars, byte payloads as tagged base64 strings, lists as arrays and
/// maps as objects, in entry order.
pub open spec fn json_of_any(v: AnyVal) -> Seq<char>
    decreases v,
{
    match v {
        AnyVal::Boolean(b) => json_of_bool(b),
        AnyVal::Int(n) => dec_of_int(n),
        AnyVal::Double(bits) => json_of_double(bits),
        AnyVal::Text(s) => json_of_string(s),
        AnyVal::Bytes(bs) => json_of_string(bytes_repr(bs)),
        AnyVal::List(items) => seq!['['] + json_of_items(items) + seq![']'],
        AnyVal::Mapping(entries) => seq!['{'] + json_of_entries(entries) + seq!['}'],
    }
}

pub open spec fn json_of_items(items: Seq<AnyVal>) -> Seq<char>
    decreases items, items.len(),
{
    if items.len() == 0 {
        seq![]
    } else if items.len() == 1 {
        json_of_any(items[0])
    } else {
        json_of_any(items[0]) + seq![','] + json_of_items(items.drop_first())
    }
}

pub open spec fn json_of_entries(entries: Seq<(Seq<char>, AnyVal)>) -> Seq<char>
    decreases entries, entries.len(),
{
    if entries.len() == 0 {
        seq![]
    } else if entries.len() == 1 {
        json_of_string(entries[0].0) + seq![':'] + json_of_any(entries[0].1)
    } else {
        json_of_string(entries[0].0) + seq![':'] + json_of_any(entries[0].1) + seq![',']
            + json_of_entries(entries.drop_first())
    }
}

/// Whether a string starts with the byte-payload tag.
pub open spec fn has_bytes_prefix(s: Seq<char>) -> bool {
    s.len() >= bytes_prefix().len() && s.take(bytes_prefix().len() as int) == bytes_prefix()
}

/// The values whose rendering is unambiguous: doubles are finite (a
/// non-finite double renders as `null` and cannot be read back), and no
/// text leaf itself starts with the byte-payload tag (such a string would
/// read back as a byte payload).
pub open spec fn wf_any(v: AnyVal) -> bool
    decreases v,
{
    match v {
        AnyVal::Boolean(_) => true,
        AnyVal::Int(n) => i64::MIN <= n <= i64::MAX,
        AnyVal::Double(bits) => is_finite_double(bits),
        AnyVal::Text(s) => !has_bytes_prefix(s),
        AnyVal::Bytes(_) => true,
        AnyVal::List(items) => forall|k: int| 0 <= k < items.len() ==> wf_any(#[trigger] items[k]),
        AnyVal::Mapping(entries) => forall|k: int|
            0 <= k < entries.len() ==> wf_any(#[trigger] entries[k].1),
    }
}

/// Rendering one more list item appends a comma (after the first) and the
/// item's rendering.
pub proof fn lemma_json_of_items_push(items: Seq<AnyVal>, v: AnyVal)
    ensures
        json_of_items(items.push(v)) == if items.len() == 0 {
            json_of_any(v)
        } else {
            json_of_items(items) + seq![','] + json_of_any(v)
        },
    decreases items.len(),
{
    let t = items.push(v);
    if items.len() == 0 {
        assert(t[0] == v);
    } else {
        lemma_json_of_items_push(items.drop_first(), v);
        assert(t.drop_first() =~= items.drop_first().push(v));
        assert(t[0] == items[0]);
        if items.len() == 1 {
            assert(json_of_items(t) =~= json_of_items(items) + seq![','] + json_of_any(v));
        } else {
            assert(json_of_items(t) =~= json_of_items(items) + seq![','] + json_of_any(v));
        }
    }
}

pub proof fn lemma_json_of_entries_push(entries: Seq<(Seq<char>, AnyVal)>, e: (Seq<char>, AnyVal))
    ensures
        json_of_entries(entries.push(e)) == if entries.len() == 0 {
            json_of_string(e.0) + seq![':'] + json_of_any(e.1)
        } else {
            json_of_entries(entries) + seq![','] + json_of_string(e.0) + seq![':'] + json_of_any(
                e.1,
            )
        },
    decreases entries.len(),
{
    let t = entries.push(e);
    if entries.len() == 0 {
        assert(t[0] == e);
    } else {
        lemma_json_of_entries_push(entries.drop_first(), e);
        assert(t.drop_first() =~= entries.drop_first().push(e));
        assert(t[0] == entries[0]);
        assert(json_of_entries(t) =~= json_of_entries(entries) + seq![','] + json_of_string(e.0)
            + seq![':'] + json_of_any(e.1));
    }
}

/// Appends the JSON rendering of `v`.
#[verifier::loop_isolation(false)]
pub fn push_json_any(out: &mut Vec<char>, v: &AnyValue)
    ensures
        final(out)@ == old(out)@ + json_of_any(v.deep_view()),
    decreases v,
{
    match v {
        AnyValue::Boolean(b) => {
            push_json_bool(out, *b);
        },
        AnyValue::Int(n) => {
            push_dec_i64(out, *n);
        },
        AnyValue::Double(bits) => {
            push_json_double(out, *bits);
        },
        AnyValue::Text(s) => {
            let cs = chars_of(s.as_str());
            push_json_string(out, &cs);
        },
        AnyValue::Bytes(bs) => {
            let mut content = bytes_prefix_chars();
            let encoded = base64_encode(bs);
            let mut encoded_chars = chars_of(encoded.as_str());
            content.append(&mut encoded_chars);
            assert(content@ == bytes_repr(bs@));
            push_json_string(out, &content);
        },
        AnyValue::List(items) => {
            let ghost model = deep_items(items@);
            out.push('[');
            let n = items.len();
            let mut k: usize = 0;
            proof {
                lemma_deep_items(items@);
                assert(model.take(0) =~= Seq::<AnyVal>::empty());
                assert(out@ =~= old(out)@ + seq!['['] + json_of_items(model.take(0)));
            }
            while k < n
                invariant
                    n == items@.len(),
                    k <= n,
                    model == deep_items(items@),
                    out@ == old(out)@ + seq!['['] + json_of_items(model.take(k as int)),
                decreases n - k,
            {
                if k > 0 {
                    out.push(',');
                }
                proof {
                    assert(*v == AnyValue::List(*items));
                    assert(decreases_to!(*v => *items));
                    assert(decreases_to!(*items => items@));
                    assert(decreases_to!(items@ => items@[k as int]));
                }
                push_json_any(out, &items[k]);
                proof {
                    lemma_deep_items(items@);
                    assert(items@[k as int].deep_view() == model[k as int]);
                    lemma_json_of_items_push(model.take(k as int), model[k as int]);
                    assert(model.take(k + 1) =~= model.take(k as int).push(model[k as int]));
                    assert(out@ =~= old(out)@ + seq!['['] + json_of_items(model.take(k + 1)));
                }
                k += 1;
            }
            out.push(']');
            proof {
                assert(model.take(n as int) =~= model);
                assert(out@ =~= old(out)@ + json_of_any(v.deep_view()));
            }
        },
        AnyValue::Mapping(entries) => {
            let ghost model = deep_entries(entries@);
            out.push('{');
            let n = entries.len();
            let mut k: usize = 0;
            proof {
                lemma_deep_entries(entries@);
                assert(model.take(0) =~= Seq::<(Seq<char>, AnyVal)>::empty());
                assert(out@ =~= old(out)@ + seq!['{'] + json_of_entries(model.take(0)));
            }
            while k < n
                invariant
                    n == entries@.len(),
                    k <= n,
                    model == deep_entries(entries@),
                    out@ == old(out)@ + seq!['{'] + json_of_entries(model.take(k as int)),
                decreases n - k,
            {
                if k > 0 {
                    out.push(',');
                }
                let key_chars = chars_of(entries[k].0.as_str());
                push_json_string(out, &key_chars);
                out.push(':');
                proof {
                    assert(*v == AnyValue::Mapping(*entries));
                    assert(decreases_to!(*v => *entries));
                    assert(decreases_to!(*entries => entries@));
                    assert(decreases_to!(entries@ => entries@[k as int]));
                    assert(decreases_to!(entries@[k as int] => entries@[k as int].1));
                }
                push_json_any(out, &entries[k].1);
                proof {
                    lemma_deep_entries(entries@);
                    assert(entries@[k as int].1.deep_view() == model[k as int].1);
                    assert(entries@[k as int].0@ == model[k as int].0);
                    lemma_json_of_entries_push(model.take(k as int), model[k as int]);
                    assert(model.take(k + 1) =~= model.take(k as int).push(model[k as int]));
                    assert(out@ =~= old(out)@ + seq!['{'] + json_of_entries(model.take(k + 1)));
                }
                k += 1;
            }
            out.push('}');
            proof {
                assert(model.take(n as int) =~= model);
                assert(out@ =~= old(out)@ + json_of_any(v.deep_view()));
            }
        },
    }
}

/// The JSON text of a structured value, as the boundary carries it.
pub fn any_value_to_json(v: &AnyValue) -> (r: String)
    ensures
        r@ == json_of_any(v.deep_view()),
{
    let mut out: Vec<char> = Vec::new();
    push_json_any(&mut out, v);
    crate::text::string_of(out)
}

} // verus!
