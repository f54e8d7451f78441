use vstd::prelude::*;
use crate::anyvalue::AnyVal;
use crate::anyvalue::json_of_items;
use crate::error::Error;
use crate::json::{json_of_bool, json_of_double, json_of_string, push_json_bool, push_json_double,
    push_json_string};
use crate::text::{chars_of, dec_of_int, push_dec_i64, string_of};

verus! {

/// A point in time: whole seconds since the epoch and the sub-second
/// remainder.
#[derive(Debug, Clone, Copy, PartialEq, Eq, Structural)]
pub struct Datetime {
    pub seconds: u64,
    pub nanoseconds: u32,
}

/// A wall-clock reading relative to the epoch, as the embedding code hands
/// it over: whether the reading predates the epoch, and the magnitude of
/// the offset split into seconds and the sub-second remainder.
#[derive(Debug, Clone, Copy, PartialEq, Eq, Structural)]
pub struct EpochOffset {
    pub before_epoch: bool,
    pub seconds: u64,
    pub nanoseconds: u32,
}

/// The offset a converted timestamp stands for, in nanoseconds.
pub open spec fn total_nanos(d: Datetime) -> int {
    d.seconds * 1000000000 + d.nanoseconds
}

impl Datetime {
    /// Converts a wall-clock reading. Succeeds exactly on times at or
    /// after the epoch, keeping the offset to the nanosecond; an earlier
    /// time is rejected, never clamped.
    pub fn from_epoch_offset(t: EpochOffset) -> (r: Result<Datetime, Error>)
        ensures
            r is Ok <==> !t.before_epoch,
            !t.before_epoch ==> r == Ok::<Datetime, Error>(
                Datetime { seconds: t.seconds, nanoseconds: t.nanoseconds },
            ),
            !t.before_epoch ==> total_nanos(r->Ok_0) == t.seconds * 1000000000 + t.nanoseconds,
            t.before_epoch ==> r == Err::<Datetime, Error>(Error::TimeBeforeEpoch),
    {
        if t.before_epoch {
            Err(Error::TimeBeforeEpoch)
        } else {
            Ok(Datetime { seconds: t.seconds, nanoseconds: t.nanoseconds })
        }
    }
}

/// The SDK's array payloads as this layer reads them. A double is carried
/// as its bit pattern. The source enum is open-ended: a shape outside the
/// closed set arrives as `Other`.
#[derive(Debug)]
pub enum OtelArray {
    Bool(Vec<bool>),
    I64(Vec<i64>),
    F64(Vec<u64>),
    String(Vec<String>),
    Other,
}

/// The SDK's scalar-or-array attribute payload as this layer reads it.
#[derive(Debug)]
pub enum OtelValue {
    Bool(bool),
    I64(i64),
    F64(u64),
    String(String),
    Array(OtelArray),
    Other,
}

/// One attribute as the SDK hands it over.
#[derive(Debug)]
pub struct OtelKeyValue {
    pub key: String,
    pub value: OtelValue,
}

/// The boundary's tagged attribute payload: scalars and homogeneous
/// arrays over the same closed set of scalar shapes.
#[derive(Debug)]
pub enum Value {
    Bool(bool),
    S64(i64),
    F64(u64),
    String(String),
    BoolArray(Vec<bool>),
    S64Array(Vec<i64>),
    F64Array(Vec<u64>),
    StringArray(Vec<String>),
}

/// One boundary attribute; keys need not be unique in a sequence and
/// order is kept.
#[derive(Debug)]
pub struct KeyValue {
    pub key: String,
    pub value: Value,
}

/// The value kinds this layer's closed world covers. Anything else is a
/// contract violation, reported loudly rather than dropped.
pub open spec fn otel_value_supported(v: OtelValue) -> bool {
    match v {
        OtelValue::Other => false,
        OtelValue::Array(arr) => !(arr is Other),
        _ => true,
    }
}

/// The one-to-one payload mapping: scalars keep their shape, each array
/// maps to the same-typed array, never split or coerced.
pub open spec fn wasi_value_of(v: OtelValue) -> Value {
    match v {
        OtelValue::Bool(b) => Value::Bool(b),
        OtelValue::I64(n) => Value::S64(n),
        OtelValue::F64(bits) => Value::F64(bits),
        OtelValue::String(s) => Value::String(s),
        OtelValue::Array(OtelArray::Bool(items)) => Value::BoolArray(items),
        OtelValue::Array(OtelArray::I64(items)) => Value::S64Array(items),
        OtelValue::Array(OtelArray::F64(items)) => Value::F64Array(items),
        OtelValue::Array(OtelArray::String(items)) => Value::StringArray(items),
        _ => Value::Bool(false),
    }
}

pub open spec fn wasi_key_value_of(kv: OtelKeyValue) -> KeyValue {
    KeyValue { key: kv.key, value: wasi_value_of(kv.value) }
}

pub open spec fn attrs_supported(attrs: Seq<OtelKeyValue>) -> bool {
    forall|k: int| 0 <= k < attrs.len() ==> otel_value_supported((#[trigger] attrs[k]).value)
}

pub open spec fn wasi_attrs_of(attrs: Seq<OtelKeyValue>) -> Seq<KeyValue> {
    attrs.map_values(|kv: OtelKeyValue| wasi_key_value_of(kv))
}

/// Converts one attribute payload: total on the closed set, and a loud
/// `UnsupportedValueKind` on anything beyond it.
pub fn value_to_wasi(v: OtelValue) -> (r: Result<Value, Error>)
    ensures
        r is Ok <==> otel_value_supported(v),
        otel_value_supported(v) ==> r == Ok::<Value, Error>(wasi_value_of(v)),
        !otel_value_supported(v) ==> r == Err::<Value, Error>(Error::UnsupportedValueKind),
{
    match v {
        OtelValue::Bool(b) => Ok(Value::Bool(b)),
        OtelValue::I64(n) => Ok(Value::S64(n)),
        OtelValue::F64(bits) => Ok(Value::F64(bits)),
        OtelValue::String(s) => Ok(Value::String(s)),
        OtelValue::Array(OtelArray::Bool(items)) => Ok(Value::BoolArray(items)),
        OtelValue::Array(OtelArray::I64(items)) => Ok(Value::S64Array(items)),
        OtelValue::Array(OtelArray::F64(items)) => Ok(Value::F64Array(items)),
        OtelValue::Array(OtelArray::String(items)) => Ok(Value::StringArray(items)),
        OtelValue::Array(OtelArray::Other) => Err(Error::UnsupportedValueKind),
        OtelValue::Other => Err(Error::UnsupportedValueKind),
    }
}

pub fn key_value_to_wasi(kv: OtelKeyValue) -> (r: Result<KeyValue, Error>)
    ensures
        r is Ok <==> otel_value_supported(kv.value),
        otel_value_supported(kv.value) ==> r == Ok::<KeyValue, Error>(wasi_key_value_of(kv)),
        !otel_value_supported(kv.value) ==> r == Err::<KeyValue, Error>(
            Error::UnsupportedValueKind,
        ),
{
    let OtelKeyValue { key, value } = kv;
    match value_to_wasi(value) {
        Ok(v) => Ok(KeyValue { key, value: v }),
        Err(e) => Err(e),
    }
}

/// Converts an attribute sequence in order, stopping loudly at the first
/// unsupported payload.
#[verifier::loop_isolation(false)]
pub fn attrs_to_wasi(attrs: Vec<OtelKeyValue>) -> (r: Result<Vec<KeyValue>, Error>)
    ensures
        r is Ok <==> attrs_supported(attrs@),
        attrs_supported(attrs@) ==> (r->Ok_0)@ == wasi_attrs_of(attrs@),
        !attrs_supported(attrs@) ==> r == Err::<Vec<KeyValue>, Error>(Error::UnsupportedValueKind),
{
    let ghost attrs0 = attrs@;
    let mut rest = attrs;
    let mut out: Vec<KeyValue> = Vec::new();
    let ghost k: int = 0;
    proof {
        assert(out@ =~= wasi_attrs_of(attrs0.take(0)));
        assert(rest@ =~= attrs0.skip(0));
    }
    while rest.len() > 0
        invariant
            0 <= k <= attrs0.len(),
            rest@ == attrs0.skip(k),
            out@ == wasi_attrs_of(attrs0.take(k)),
            attrs_supported(attrs0.take(k)),
        decreases rest@.len(),
    {
        let kv = rest.remove(0);
        proof {
            assert(kv == attrs0[k]);
        }
        match key_value_to_wasi(kv) {
            Ok(w) => {
                out.push(w);
            },
            Err(e) => {
                proof {
                    assert(!otel_value_supported(attrs0[k].value));
                }
                return Err(e);
            },
        }
        proof {
            assert(rest@ =~= attrs0.skip(k + 1));
            assert(out@ =~= wasi_attrs_of(attrs0.take(k + 1)));
            assert forall|p: int|
                0 <= p < k + 1 implies otel_value_supported(
                (#[trigger] attrs0.take(k + 1)[p]).value,
            ) by {
                if p < k {
                    assert(attrs0.take(k)[p] == attrs0.take(k + 1)[p]);
                }
            }
            k = k + 1;
        }
    }
    proof {
        assert(attrs0.take(k) =~= attrs0);
    }
    Ok(out)
}

/// Identifies the library that produced a signal. The name is required;
/// the rest is optional.
#[derive(Debug)]
pub struct InstrumentationScope {
    pub name: String,
    pub version: Option<String>,
    pub schema_url: Option<String>,
    pub attributes: Vec<KeyValue>,
}

/// The scope as the SDK hands it over.
#[derive(Debug)]
pub struct OtelInstrumentationScope {
    pub name: String,
    pub version: Option<String>,
    pub schema_url: Option<String>,
    pub attributes: Vec<OtelKeyValue>,
}

pub fn scope_to_wasi(scope: OtelInstrumentationScope) -> (r: Result<InstrumentationScope, Error>)
    ensures
        r is Ok <==> attrs_supported(scope.attributes@),
        r is Ok ==> ((r->Ok_0).name == scope.name && (r->Ok_0).version == scope.version && (
        r->Ok_0).schema_url == scope.schema_url && (r->Ok_0).attributes@ == wasi_attrs_of(
            scope.attributes@,
        )),
        !attrs_supported(scope.attributes@) ==> r == Err::<InstrumentationScope, Error>(
            Error::UnsupportedValueKind,
        ),
{
    let OtelInstrumentationScope { name, version, schema_url, attributes } = scope;
    match attrs_to_wasi(attributes) {
        Ok(attrs) => Ok(InstrumentationScope { name, version, schema_url, attributes: attrs }),
        Err(e) => Err(e),
    }
}

/// Describes the process or service emitting telemetry. Attribute order
/// is kept; no key is deduplicated.
#[derive(Debug)]
pub struct Resource {
    pub attributes: Vec<KeyValue>,
    pub schema_url: Option<String>,
}

/// The resource as the SDK hands it over.
#[derive(Debug)]
pub struct OtelResource {
    pub attributes: Vec<OtelKeyValue>,
    pub schema_url: Option<String>,
}

pub fn resource_to_wasi(res: OtelResource) -> (r: Result<Resource, Error>)
    ensures
        r is Ok <==> attrs_supported(res.attributes@),
        r is Ok ==> ((r->Ok_0).schema_url == res.schema_url && (r->Ok_0).attributes@
            == wasi_attrs_of(res.attributes@)),
        !attrs_supported(res.attributes@) ==> r == Err::<Resource, Error>(
            Error::UnsupportedValueKind,
        ),
{
    let OtelResource { attributes, schema_url } = res;
    match attrs_to_wasi(attributes) {
        Ok(attrs) => Ok(Resource { attributes: attrs, schema_url }),
        Err(e) => Err(e),
    }
}

/// The JSON text of an attribute payload: scalars as JSON scalars,
/// arrays as same-typed JSON arrays.
pub open spec fn json_of_value(v: Value) -> Seq<char> {
    match v {
        Value::Bool(b) => json_of_bool(b),
        Value::S64(n) => dec_of_int(n as int),
        Value::F64(bits) => json_of_double(bits),
        Value::String(s) => json_of_string(s@),
        Value::BoolArray(items) => seq!['['] + json_of_items(
            items@.map_values(|b: bool| AnyVal::Boolean(b)),
        ) + seq![']'],
        Value::S64Array(items) => seq!['['] + json_of_items(
            items@.map_values(|n: i64| AnyVal::Int(n as int)),
        ) + seq![']'],
        Value::F64Array(items) => seq!['['] + json_of_items(
            items@.map_values(|bits: u64| AnyVal::Double(bits)),
        ) + seq![']'],
        Value::StringArray(items) => seq!['['] + json_of_items(
            items@.map_values(|s: String| AnyVal::Text(s@)),
        ) + seq![']'],
    }
}

/// Renders an attribute payload as JSON text, exactly as `json_of_value`
/// spells it out.
pub fn value_to_json(v: &Value) -> (r: String)
    ensures
        r@ == json_of_value(*v),
{
    let mut out: Vec<char> = Vec::new();
    push_json_value(&mut out, v);
    string_of(out)
}

#[verifier::loop_isolation(false)]
pub fn push_json_value(out: &mut Vec<char>, v: &Value)
    ensures
        final(out)@ == old(out)@ + json_of_value(*v),
{
    match v {
        Value::Bool(b) => {
            push_json_bool(out, *b);
        },
        Value::S64(n) => {
            push_dec_i64(out, *n);
        },
        Value::F64(bits) => {
            push_json_double(out, *bits);
        },
        Value::String(s) => {
            let cs = chars_of(s.as_str());
            push_json_string(out, &cs);
        },
        Value::BoolArray(items) => {
            let ghost model = items@.map_values(|b: bool| AnyVal::Boolean(b));
            out.push('[');
            let n = items.len();
            let mut k: usize = 0;
            proof {
                assert(model.take(0) =~= Seq::<AnyVal>::empty());
                assert(out@ =~= old(out)@ + seq!['['] + json_of_items(model.take(0)));
            }
            while k < n
                invariant
                    k <= n,
                    out@ == old(out)@ + seq!['['] + json_of_items(model.take(k as int)),
                decreases n - k,
            {
                if k > 0 {
                    out.push(',');
                }
                push_json_bool(out, items[k]);
                proof {
                    crate::anyvalue::lemma_json_of_items_push(model.take(k as int), model[k as int]);
                    assert(model.take(k + 1) =~= model.take(k as int).push(model[k as int]));
                    assert(out@ =~= old(out)@ + seq!['['] + json_of_items(model.take(k + 1)));
                }
                k += 1;
            }
            out.push(']');
            proof {
                assert(model.take(n as int) =~= model);
                assert(out@ =~= old(out)@ + json_of_value(*v));
            }
        },
        Value::S64Array(items) => {
            let ghost model = items@.map_values(|n: i64| AnyVal::Int(n as int));
            out.push('[');
            let n = items.len();
            let mut k: usize = 0;
            proof {
                assert(model.take(0) =~= Seq::<AnyVal>::empty());
                assert(out@ =~= old(out)@ + seq!['['] + json_of_items(model.take(0)));
            }
            while k < n
                invariant
                    k <= n,
                    out@ == old(out)@ + seq!['['] + json_of_items(model.take(k as int)),
                decreases n - k,
            {
                if k > 0 {
                    out.push(',');
                }
                push_dec_i64(out, items[k]);
                proof {
                    crate::anyvalue::lemma_json_of_items_push(model.take(k as int), model[k as int]);
                    assert(model.take(k + 1) =~= model.take(k as int).push(model[k as int]));
                    assert(out@ =~= old(out)@ + seq!['['] + json_of_items(model.take(k + 1)));
                }
                k += 1;
            }
            out.push(']');
            proof {
                assert(model.take(n as int) =~= model);
                assert(out@ =~= old(out)@ + json_of_value(*v));
            }
        },
        Value::F64Array(items) => {
            let ghost model = items@.map_values(|bits: u64| AnyVal::Double(bits));
            out.push('[');
            let n = items.len();
            let mut k: usize = 0;
            proof {
                assert(model.take(0) =~= Seq::<AnyVal>::empty());
                assert(out@ =~= old(out)@ + seq!['['] + json_of_items(model.take(0)));
            }
            while k < n
                invariant
                    k <= n,
                    out@ == old(out)@ + seq!['['] + json_of_items(model.take(k as int)),
                decreases n - k,
            {
                if k > 0 {
                    out.push(',');
                }
                push_json_double(out, items[k]);
                proof {
                    crate::anyvalue::lemma_json_of_items_push(model.take(k as int), model[k as int]);
                    assert(model.take(k + 1) =~= model.take(k as int).push(model[k as int]));
                    assert(out@ =~= old(out)@ + seq!['['] + json_of_items(model.take(k + 1)));
                }
                k += 1;
            }
            out.push(']');
            proof {
                assert(model.take(n as int) =~= model);
                assert(out@ =~= old(out)@ + json_of_value(*v));
            }
        },
        Value::StringArray(items) => {
            let ghost model = items@.map_values(|s: String| AnyVal::Text(s@));
            out.push('[');
            let n = items.len();
            let mut k: usize = 0;
            proof {
                assert(model.take(0) =~= Seq::<AnyVal>::empty());
                assert(out@ =~= old(out)@ + seq!['['] + json_of_items(model.take(0)));
            }
            while k < n
                invariant
                    k <= n,
                    out@ == old(out)@ + seq!['['] + json_of_items(model.take(k as int)),
                decreases n - k,
            {
                if k > 0 {
                    out.push(',');
                }
                let cs = chars_of(items[k].as_str());
                push_json_string(out, &cs);
                proof {
                    crate::anyvalue::lemma_json_of_items_push(model.take(k as int), model[k as int]);
                    assert(model.take(k + 1) =~= model.take(k as int).push(model[k as int]));
                    assert(out@ =~= old(out)@ + seq!['['] + json_of_items(model.take(k + 1)));
                }
                k += 1;
            }
            out.push(']');
            proof {
                assert(model.take(n as int) =~= model);
                assert(out@ =~= old(out)@ + json_of_value(*v));
            }
        },
    }
}

} // verus!
