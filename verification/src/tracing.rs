use vstd::prelude::*;
use crate::error::Error;
use crate::hex::{all_hex, hex_num, hex_of, lemma_hex_roundtrip, lemma_pow16_le, parse_hex,
    push_hex};
use crate::text::{chars_of, string_of};
use crate::types::{attrs_supported, attrs_to_wasi, wasi_attrs_of, scope_to_wasi, Datetime,
    EpochOffset, InstrumentationScope, KeyValue, OtelInstrumentationScope, OtelKeyValue};

verus! {

/// The sampled bit of a trace, the only flag this layer carries.
#[derive(Debug, Clone, Copy, PartialEq, Eq, Structural)]
pub struct TraceFlags {
    pub sampled: bool,
}

/// A span's place in a distributed trace, as it crosses the boundary:
/// ids rendered as fixed-width lowercase hex, vendor state as ordered
/// key/value pairs.
#[derive(Debug)]
pub struct SpanContext {
    pub trace_id: String,
    pub span_id: String,
    pub trace_flags: TraceFlags,
    pub is_remote: bool,
    pub trace_state: Vec<(String, String)>,
}

/// A span's trace identity as the SDK holds it: raw ids, the sampled
/// bit, and the vendor state as its canonical comma-separated header.
#[derive(Debug)]
pub struct OtelSpanContext {
    pub trace_id: u128,
    pub span_id: u64,
    pub sampled: bool,
    pub is_remote: bool,
    pub trace_state: String,
}

pub open spec fn deep_pairs(ps: Seq<(String, String)>) -> Seq<(Seq<char>, Seq<char>)> {
    ps.map_values(|p: (String, String)| (p.0@, p.1@))
}

/// The first position of `c` in `s`, or `-1`.
pub open spec fn find_char(s: Seq<char>, c: char) -> int
    decreases s.len(),
{
    if s.len() == 0 {
        -1
    } else if s[0] == c {
        0
    } else {
        let r = find_char(s.drop_first(), c);
        if r < 0 {
            -1
        } else {
            r + 1
        }
    }
}

pub proof fn lemma_find_char(s: Seq<char>, c: char)
    ensures
        find_char(s, c) >= 0 ==> (0 <= find_char(s, c) < s.len() && s[find_char(s, c)] == c
            && forall|j: int| 0 <= j < find_char(s, c) ==> s[j] != c),
        find_char(s, c) < 0 ==> forall|j: int| 0 <= j < s.len() ==> s[j] != c,
    decreases s.len(),
{
    if s.len() > 0 && s[0] != c {
        lemma_find_char(s.drop_first(), c);
        let r = find_char(s.drop_first(), c);
        if r >= 0 {
            assert forall|j: int| 0 <= j < r + 1 implies s[j] != c by {
                if j > 0 {
                    assert(s.drop_first()[j - 1] == s[j]);
                }
            }
        } else {
            assert forall|j: int| 0 <= j < s.len() implies s[j] != c by {
                if j > 0 {
                    assert(s.drop_first()[j - 1] == s[j]);
                }
            }
        }
    }
}

/// The pairs one header segment contributes: its text split at the first
/// `=`, or nothing when it has none (a malformed segment is dropped).
pub open spec fn segment_entry(seg: Seq<char>) -> Seq<(Seq<char>, Seq<char>)> {
    let e = find_char(seg, '=');
    if e < 0 {
        seq![]
    } else {
        seq![(seg.take(e), seg.skip(e + 1))]
    }
}

/// Splitting the canonical header: one segment per comma, each split at
/// its first `=`, malformed segments silently dropped.
pub open spec fn split_header(s: Seq<char>) -> Seq<(Seq<char>, Seq<char>)>
    decreases s.len(),
{
    let m = find_char(s, ',');
    if m < 0 || m >= s.len() {
        segment_entry(s)
    } else {
        segment_entry(s.take(m)) + split_header(s.skip(m + 1))
    }
}

/// The header a pair list joins back into: `k=v` segments separated by
/// commas.
pub open spec fn join_pairs(ps: Seq<(Seq<char>, Seq<char>)>) -> Seq<char>
    decreases ps.len(),
{
    if ps.len() == 0 {
        seq![]
    } else if ps.len() == 1 {
        ps[0].0 + seq!['='] + ps[0].1
    } else {
        ps[0].0 + seq!['='] + ps[0].1 + seq![','] + join_pairs(ps.drop_first())
    }
}

/// The first position of `c` at or after `i`, if any.
fn find_from(s: &Vec<char>, i: usize, c: char) -> (r: Option<usize>)
    requires
        i <= s@.len(),
    ensures
        r is Some ==> (i <= r->0 < s@.len() && s@[r->0 as int] == c && find_char(
            s@.skip(i as int),
            c,
        ) == r->0 - i),
        r is None ==> find_char(s@.skip(i as int), c) < 0,
    decreases s@.len() - i,
{
    if i == s.len() {
        return None;
    }
    proof {
        assert(s@.skip(i as int)[0] == s@[i as int]);
    }
    if s[i] == c {
        return Some(i);
    }
    let r = find_from(s, i + 1, c);
    proof {
        assert(s@.skip(i as int).drop_first() =~= s@.skip(i + 1));
    }
    r
}

/// Copies `s[i..j]` into a fresh vector.
fn slice_chars(s: &Vec<char>, i: usize, j: usize) -> (r: Vec<char>)
    requires
        i <= j <= s@.len(),
    ensures
        r@ == s@.subrange(i as int, j as int),
{
    let mut out: Vec<char> = Vec::new();
    let mut k = i;
    proof {
        assert(out@ =~= s@.subrange(i as int, i as int));
    }
    while k < j
        invariant
            i <= k <= j <= s@.len(),
            out@ == s@.subrange(i as int, k as int),
        decreases j - k,
    {
        out.push(s[k]);
        proof {
            assert(out@ =~= s@.subrange(i as int, k + 1));
        }
        k += 1;
    }
    out
}

/// Appends the pairs of one segment `s[i..j]`.
fn push_segment(s: &Vec<char>, i: usize, j: usize, out: &mut Vec<(String, String)>)
    requires
        i <= j <= s@.len(),
    ensures
        deep_pairs(final(out)@) == deep_pairs(old(out)@) + segment_entry(
            s@.subrange(i as int, j as int),
        ),
{
    let ghost seg = s@.subrange(i as int, j as int);
    let e = match find_from(s, i, '=') {
        Some(e) => {
            if e >= j {
                proof {
                    lemma_find_char(seg, '=');
                    if find_char(seg, '=') >= 0 {
                        let p = find_char(seg, '=');
                        assert(s@.skip(i as int)[p] == seg[p]);
                        assert(find_char(s@.skip(i as int), '=') <= p) by {
                            lemma_find_char(s@.skip(i as int), '=');
                        }
                        assert(false);
                    }
                    assert(deep_pairs(out@) =~= deep_pairs(out@) + segment_entry(seg));
                }
                return ;
            }
            e
        },
        None => {
            proof {
                lemma_find_char(seg, '=');
                if find_char(seg, '=') >= 0 {
                    let p = find_char(seg, '=');
                    assert(s@.skip(i as int)[p] == seg[p]);
                    lemma_find_char(s@.skip(i as int), '=');
                    assert(false);
                }
                assert(deep_pairs(out@) =~= deep_pairs(out@) + segment_entry(seg));
            }
            return ;
        },
    };
    proof {
        // `e` is the first `=` inside the segment.
        lemma_find_char(s@.skip(i as int), '=');
        lemma_find_char(seg, '=');
        let p = find_char(seg, '=');
        if p >= 0 && p < e - i {
            assert(s@.skip(i as int)[p] == seg[p]);
            assert(false);
        }
        if p < 0 || p > e - i {
            assert(seg[e - i] == s@[e as int]);
            assert(false);
        }
        assert(p == e - i);
    }
    let key = slice_chars(s, i, e);
    let val = slice_chars(s, e + 1, j);
    let ghost out0 = out@;
    out.push((string_of(key), string_of(val)));
    proof {
        let p = find_char(seg, '=');
        assert(seg.take(p) =~= s@.subrange(i as int, e as int));
        assert(seg.skip(p + 1) =~= s@.subrange(e + 1, j as int));
        assert(deep_pairs(out@) =~= deep_pairs(out0) + segment_entry(seg));
    }
}

/// Splits the tail of the header from `i` on, appending each segment's
/// pair.
fn split_state_from(s: &Vec<char>, i: usize, out: &mut Vec<(String, String)>)
    requires
        i <= s@.len(),
    ensures
        deep_pairs(final(out)@) == deep_pairs(old(out)@) + split_header(s@.skip(i as int)),
    decreases s@.len() - i,
{
    let ghost tail = s@.skip(i as int);
    let slen = s.len();
    match find_from(s, i, ',') {
        None => {
            push_segment(s, i, s.len(), out);
            proof {
                assert(s@.subrange(i as int, s@.len() as int) =~= tail);
                assert(split_header(tail) == segment_entry(tail));
            }
        },
        Some(m) => {
            proof {
                lemma_find_char(tail, ',');
                assert(find_char(tail, ',') == m - i);
                assert(tail.take(m - i) =~= s@.subrange(i as int, m as int));
            }
            let ghost out0 = out@;
            push_segment(s, i, m, out);
            split_state_from(s, m + 1, out);
            proof {
                assert(tail.skip(m - i + 1) =~= s@.skip(m + 1));
                assert(split_header(tail) == segment_entry(tail.take(m - i)) + split_header(
                    tail.skip(m - i + 1),
                ));
                assert(deep_pairs(out@) =~= deep_pairs(old(out)@) + split_header(tail));
            }
        },
    }
}

/// Splits a canonical trace-state header into its key/value pairs,
/// dropping malformed segments.
pub fn split_trace_state(header: &str) -> (r: Vec<(String, String)>)
    ensures
        deep_pairs(r@) == split_header(header@),
{
    let cs = chars_of(header);
    let mut out: Vec<(String, String)> = Vec::new();
    split_state_from(&cs, 0, &mut out);
    proof {
        assert(cs@.skip(0) =~= header@);
        assert(deep_pairs(out@) =~= split_header(header@));
    }
    out
}

/// What converting a span context promises, field by field: ids in
/// fixed-width lowercase hex, the sampled and remote flags verbatim, the
/// vendor state split on commas and first `=` signs.
pub open spec fn is_wasi_context_of(r: SpanContext, sc: OtelSpanContext) -> bool {
    r.trace_id@ == hex_of(sc.trace_id as nat, 32) && r.span_id@ == hex_of(sc.span_id as nat, 16)
        && r.trace_flags.sampled == sc.sampled && r.is_remote == sc.is_remote && deep_pairs(
        r.trace_state@,
    ) == split_header(sc.trace_state@)
}

/// Renders an id as fixed-width lowercase hex.
pub fn hex_string(id: u128, width: usize) -> (r: String)
    ensures
        r@ == hex_of(id as nat, width as nat),
{
    let mut out: Vec<char> = Vec::new();
    push_hex(&mut out, id, width);
    string_of(out)
}

/// Converts the SDK's trace identity into its boundary form.
pub fn span_context_to_wasi(sc: OtelSpanContext) -> (r: SpanContext)
    ensures
        is_wasi_context_of(r, sc),
{
    let trace_id = hex_string(sc.trace_id, 32);
    let span_id = hex_string(sc.span_id as u128, 16);
    let trace_state = split_trace_state(sc.trace_state.as_str());
    SpanContext {
        trace_id,
        span_id,
        trace_flags: TraceFlags { sampled: sc.sampled },
        is_remote: sc.is_remote,
        trace_state,
    }
}

/// What an id string reads back as: its hex value when it is well-formed
/// hex of at most the id's width, the all-zero invalid id otherwise.
pub open spec fn parse_id_spec(s: Seq<char>, width: nat) -> int {
    if 1 <= s.len() <= width && all_hex(s) {
        hex_num(s)
    } else {
        0
    }
}

/// Reads a boundary span context back into the SDK's shape, degrading
/// gracefully: an unparseable id becomes the reserved all-zero invalid
/// id, and the pairs join back into a canonical header.
pub fn span_context_from_wasi(sc: &SpanContext) -> (r: OtelSpanContext)
    ensures
        r.trace_id as int == parse_id_spec(sc.trace_id@, 32),
        r.span_id as int == parse_id_spec(sc.span_id@, 16),
        r.sampled == sc.trace_flags.sampled,
        r.is_remote == sc.is_remote,
        r.trace_state@ == join_pairs(deep_pairs(sc.trace_state@)),
{
    let tid_chars = chars_of(sc.trace_id.as_str());
    let trace_id: u128 = match parse_hex(&tid_chars, 32) {
        Some(v) => v,
        None => 0,
    };
    let sid_chars = chars_of(sc.span_id.as_str());
    let span_id: u64 = match parse_hex(&sid_chars, 16) {
        Some(v) => {
            proof {
                crate::hex::lemma_hex_num_bound(sid_chars@);
                lemma_pow16_le(sid_chars@.len() as nat, 16);
                assert(crate::hex::pow16(16) == 0x10000000000000000) by {
                    reveal_with_fuel(crate::hex::pow16, 17);
                }
            }
            v as u64
        },
        None => 0,
    };
    let mut header: Vec<char> = Vec::new();
    let n = sc.trace_state.len();
    let ghost model = deep_pairs(sc.trace_state@);
    let mut k: usize = 0;
    proof {
        assert(model.take(0) =~= Seq::<(Seq<char>, Seq<char>)>::empty());
        assert(header@ =~= join_pairs(model.take(0)));
    }
    while k < n
        invariant
            k <= n == sc.trace_state@.len(),
            model == deep_pairs(sc.trace_state@),
            header@ == join_pairs(model.take(k as int)),
        decreases n - k,
    {
        if k > 0 {
            header.push(',');
        }
        let mut key_chars = chars_of(sc.trace_state[k].0.as_str());
        header.append(&mut key_chars);
        header.push('=');
        let mut val_chars = chars_of(sc.trace_state[k].1.as_str());
        header.append(&mut val_chars);
        proof {
            lemma_join_pairs_push(model.take(k as int), model[k as int]);
            assert(model.take(k + 1) =~= model.take(k as int).push(model[k as int]));
            assert(header@ =~= join_pairs(model.take(k + 1)));
        }
        k += 1;
    }
    proof {
        assert(model.take(n as int) =~= model);
    }
    OtelSpanContext {
        trace_id,
        span_id,
        sampled: sc.trace_flags.sampled,
        is_remote: sc.is_remote,
        trace_state: string_of(header),
    }
}

pub proof fn lemma_join_pairs_push(ps: Seq<(Seq<char>, Seq<char>)>, p: (Seq<char>, Seq<char>))
    ensures
        join_pairs(ps.push(p)) == if ps.len() == 0 {
            p.0 + seq!['='] + p.1
        } else {
            join_pairs(ps) + seq![','] + p.0 + seq!['='] + p.1
        },
    decreases ps.len(),
{
    let t = ps.push(p);
    if ps.len() == 0 {
        assert(t[0] == p);
    } else {
        lemma_join_pairs_push(ps.drop_first(), p);
        assert(t[0] == ps[0]);
        assert(t.drop_first() =~= ps.drop_first().push(p));
        if ps.len() == 1 {
            assert(join_pairs(t) =~= join_pairs(ps) + seq![','] + p.0 + seq!['='] + p.1);
        } else {
            assert(join_pairs(t) =~= join_pairs(ps) + seq![','] + p.0 + seq!['='] + p.1);
        }
    }
}

/// The round trip the boundary promises: rendering a trace identity and
/// reading it back preserves the trace id, the span id, the sampled bit
/// and the remote flag exactly.
pub proof fn lemma_span_context_round_trip(sc: OtelSpanContext, w: SpanContext)
    requires
        is_wasi_context_of(w, sc),
    ensures
        parse_id_spec(w.trace_id@, 32) == sc.trace_id as int,
        parse_id_spec(w.span_id@, 16) == sc.span_id as int,
        w.trace_flags.sampled == sc.sampled,
        w.is_remote == sc.is_remote,
{
    lemma_pow16_le(32, 32);
    assert((sc.trace_id as nat) < crate::hex::pow16(32));
    lemma_hex_roundtrip(sc.trace_id as nat, 32);
    assert((sc.span_id as nat) < crate::hex::pow16(16)) by {
        lemma_pow16_le(16, 32);
        reveal_with_fuel(crate::hex::pow16, 17);
    }
    lemma_hex_roundtrip(sc.span_id as nat, 16);
}


/// The five span kinds, a closed one-to-one mapping.
#[derive(Debug, Clone, Copy, PartialEq, Eq, Structural)]
pub enum SpanKind {
    Client,
    Server,
    Producer,
    Consumer,
    Internal,
}

/// The kind as the SDK holds it.
#[derive(Debug, Clone, Copy, PartialEq, Eq, Structural)]
pub enum OtelSpanKind {
    Client,
    Server,
    Producer,
    Consumer,
    Internal,
}

pub open spec fn wasi_kind_of(k: OtelSpanKind) -> SpanKind {
    match k {
        OtelSpanKind::Client => SpanKind::Client,
        OtelSpanKind::Server => SpanKind::Server,
        OtelSpanKind::Producer => SpanKind::Producer,
        OtelSpanKind::Consumer => SpanKind::Consumer,
        OtelSpanKind::Internal => SpanKind::Internal,
    }
}

pub fn span_kind_to_wasi(k: OtelSpanKind) -> (r: SpanKind)
    ensures
        r == wasi_kind_of(k),
{
    match k {
        OtelSpanKind::Client => SpanKind::Client,
        OtelSpanKind::Server => SpanKind::Server,
        OtelSpanKind::Producer => SpanKind::Producer,
        OtelSpanKind::Consumer => SpanKind::Consumer,
        OtelSpanKind::Internal => SpanKind::Internal,
    }
}

/// A span's outcome: unset or successful as unit cases, an error with
/// its description.
#[derive(Debug)]
pub enum Status {
    Unset,
    Okay,
    Error(String),
}

/// The outcome as the SDK holds it.
#[derive(Debug)]
pub enum OtelStatus {
    Unset,
    Okay,
    Error(String),
}

pub open spec fn wasi_status_of(s: OtelStatus) -> Status {
    match s {
        OtelStatus::Unset => Status::Unset,
        OtelStatus::Okay => Status::Okay,
        OtelStatus::Error(d) => Status::Error(d),
    }
}

pub fn status_to_wasi(s: OtelStatus) -> (r: Status)
    ensures
        r == wasi_status_of(s),
{
    match s {
        OtelStatus::Unset => Status::Unset,
        OtelStatus::Okay => Status::Okay,
        OtelStatus::Error(d) => Status::Error(d),
    }
}

/// A timed note on a span.
#[derive(Debug)]
pub struct Event {
    pub name: String,
    pub time: Datetime,
    pub attributes: Vec<KeyValue>,
}

#[derive(Debug)]
pub struct OtelEvent {
    pub name: String,
    pub time: EpochOffset,
    pub attributes: Vec<OtelKeyValue>,
}

/// A reference from one span to another trace identity.
#[derive(Debug)]
pub struct Link {
    pub span_context: SpanContext,
    pub attributes: Vec<KeyValue>,
}

#[derive(Debug)]
pub struct OtelLink {
    pub span_context: OtelSpanContext,
    pub attributes: Vec<OtelKeyValue>,
}

/// The timestamp a non-rejected reading converts to.
pub open spec fn dt_of(t: EpochOffset) -> Datetime {
    Datetime { seconds: t.seconds, nanoseconds: t.nanoseconds }
}

/// A completed span as the boundary carries it.
#[derive(Debug)]
pub struct SpanData {
    pub span_context: SpanContext,
    pub parent_span_id: String,
    pub span_kind: SpanKind,
    pub name: String,
    pub start_time: Datetime,
    pub end_time: Datetime,
    pub attributes: Vec<KeyValue>,
    pub events: Vec<Event>,
    pub links: Vec<Link>,
    pub status: Status,
    pub instrumentation_scope: InstrumentationScope,
    pub dropped_attributes: u32,
    pub dropped_events: u32,
    pub dropped_links: u32,
}

/// A completed span as the SDK hands it over, with the three independent
/// dropped-count counters the SDK tracked.
#[derive(Debug)]
pub struct OtelSpanData {
    pub span_context: OtelSpanContext,
    pub parent_span_id: u64,
    pub span_kind: OtelSpanKind,
    pub name: String,
    pub start_time: EpochOffset,
    pub end_time: EpochOffset,
    pub attributes: Vec<OtelKeyValue>,
    pub events: Vec<OtelEvent>,
    pub links: Vec<OtelLink>,
    pub status: OtelStatus,
    pub instrumentation_scope: OtelInstrumentationScope,
    pub dropped_attributes: u32,
    pub dropped_events: u32,
    pub dropped_links: u32,
}

/// Every timestamp of the span is at or after the epoch.
pub open spec fn span_times_ok(s: OtelSpanData) -> bool {
    !s.start_time.before_epoch && !s.end_time.before_epoch && (forall|k: int|
        0 <= k < s.events@.len() ==> !(#[trigger] s.events@[k]).time.before_epoch)
}

/// Every attribute payload of the span is in the closed supported set.
pub open spec fn span_values_ok(s: OtelSpanData) -> bool {
    attrs_supported(s.attributes@) && attrs_supported(s.instrumentation_scope.attributes@) && (
    forall|k: int| 0 <= k < s.events@.len() ==> attrs_supported(
        (#[trigger] s.events@[k]).attributes@,
    )) && (forall|k: int|
        0 <= k < s.links@.len() ==> attrs_supported((#[trigger] s.links@[k]).attributes@))
}

/// Converts one event. The time is checked before the attributes.
pub fn event_to_wasi(e: OtelEvent) -> (r: Result<Event, Error>)
    ensures
        r is Ok <==> (!e.time.before_epoch && attrs_supported(e.attributes@)),
        e.time.before_epoch ==> r == Err::<Event, Error>(Error::TimeBeforeEpoch),
        !e.time.before_epoch && !attrs_supported(e.attributes@) ==> r == Err::<Event, Error>(
            Error::UnsupportedValueKind,
        ),
        r is Ok ==> ((r->Ok_0).name == e.name && (r->Ok_0).time == dt_of(e.time) && (
        r->Ok_0).attributes@ == wasi_attrs_of(e.attributes@)),
{
    let OtelEvent { name, time, attributes } = e;
    let dt = match Datetime::from_epoch_offset(time) {
        Ok(d) => d,
        Err(err) => {
            return Err(err);
        },
    };
    match attrs_to_wasi(attributes) {
        Ok(attrs) => Ok(Event { name, time: dt, attributes: attrs }),
        Err(err) => Err(err),
    }
}

/// Converts one link: the context mapping never fails, the attributes
/// must be supported.
pub fn link_to_wasi(l: OtelLink) -> (r: Result<Link, Error>)
    ensures
        r is Ok <==> attrs_supported(l.attributes@),
        !attrs_supported(l.attributes@) ==> r == Err::<Link, Error>(Error::UnsupportedValueKind),
        r is Ok ==> (is_wasi_context_of((r->Ok_0).span_context, l.span_context) && (
        r->Ok_0).attributes@ == wasi_attrs_of(l.attributes@)),
{
    let OtelLink { span_context, attributes } = l;
    let ctx = span_context_to_wasi(span_context);
    match attrs_to_wasi(attributes) {
        Ok(attrs) => Ok(Link { span_context: ctx, attributes: attrs }),
        Err(err) => Err(err),
    }
}

/// What a converted span promises, field by field.
pub open spec fn is_wasi_span_of(w: SpanData, s: OtelSpanData) -> bool {
    is_wasi_context_of(w.span_context, s.span_context) && w.parent_span_id@ == hex_of(
        s.parent_span_id as nat,
        16,
    ) && w.span_kind == wasi_kind_of(s.span_kind) && w.name == s.name && w.start_time == dt_of(
        s.start_time,
    ) && w.end_time == dt_of(s.end_time) && w.attributes@ == wasi_attrs_of(s.attributes@)
        && w.status == wasi_status_of(s.status) && w.instrumentation_scope.name
        == s.instrumentation_scope.name && w.instrumentation_scope.version
        == s.instrumentation_scope.version && w.instrumentation_scope.schema_url
        == s.instrumentation_scope.schema_url && w.instrumentation_scope.attributes@
        == wasi_attrs_of(s.instrumentation_scope.attributes@) && w.dropped_attributes
        == s.dropped_attributes && w.dropped_events == s.dropped_events && w.dropped_links
        == s.dropped_links && w.events@.len() == s.events@.len() && (forall|k: int|
        0 <= k < s.events@.len() ==> ((#[trigger] w.events@[k]).name == s.events@[k].name
            && w.events@[k].time == dt_of(s.events@[k].time) && w.events@[k].attributes@
            == wasi_attrs_of(s.events@[k].attributes@))) && w.links@.len() == s.links@.len() && (
    forall|k: int|
        0 <= k < s.links@.len() ==> (is_wasi_context_of(
            (#[trigger] w.links@[k]).span_context,
            s.links@[k].span_context,
        ) && w.links@[k].attributes@ == wasi_attrs_of(s.links@[k].attributes@)))
}

/// Converts a completed span into its boundary form: hex ids, converted
/// timestamps, converted attributes, events and links in order, the
/// dropped counters carried through. Times that predate the epoch are
/// rejected first; an unsupported attribute payload is rejected next;
/// nothing else fails.
#[verifier::loop_isolation(false)]
#[verifier::rlimit(60)]
pub fn span_to_wasi(s: OtelSpanData) -> (r: Result<SpanData, Error>)
    ensures
        r is Ok <==> (span_times_ok(s) && span_values_ok(s)),
        !span_times_ok(s) ==> r == Err::<SpanData, Error>(Error::TimeBeforeEpoch),
        span_times_ok(s) && !span_values_ok(s) ==> r == Err::<SpanData, Error>(
            Error::UnsupportedValueKind,
        ),
        r is Ok ==> is_wasi_span_of(r->Ok_0, s),
{
    let OtelSpanData {
        span_context,
        parent_span_id,
        span_kind,
        name,
        start_time,
        end_time,
        attributes,
        events,
        links,
        status,
        instrumentation_scope,
        dropped_attributes,
        dropped_events,
        dropped_links,
    } = s;
    // First pass: reject any timestamp that predates the epoch.
    if start_time.before_epoch || end_time.before_epoch {
        return Err(Error::TimeBeforeEpoch);
    }
    let ghost events0 = events@;
    let mut k: usize = 0;
    let n = events.len();
    while k < n
        invariant
            k <= n == events0.len(),
            events@ == events0,
            forall|p: int| 0 <= p < k ==> !(#[trigger] events0[p]).time.before_epoch,
        decreases n - k,
    {
        if events[k].time.before_epoch {
            return Err(Error::TimeBeforeEpoch);
        }
        k += 1;
    }
    // Second pass: convert everything; only an unsupported attribute
    // payload can fail now.
    let wasi_context = span_context_to_wasi(span_context);
    let parent = hex_string(parent_span_id as u128, 16);
    let start_dt = match Datetime::from_epoch_offset(start_time) {
        Ok(d) => d,
        Err(err) => {
            return Err(err);
        },
    };
    let end_dt = match Datetime::from_epoch_offset(end_time) {
        Ok(d) => d,
        Err(err) => {
            return Err(err);
        },
    };
    let attrs = match attrs_to_wasi(attributes) {
        Ok(a) => a,
        Err(err) => {
            return Err(err);
        },
    };
    let mut wasi_events: Vec<Event> = Vec::new();
    let mut rest_events = events;
    let ghost ke: int = 0;
    while rest_events.len() > 0
        invariant
            0 <= ke <= events0.len(),
            rest_events@ == events0.skip(ke),
            wasi_events@.len() == ke,
            forall|p: int| 0 <= p < events0.len() ==> !(#[trigger] events0[p]).time.before_epoch,
            forall|p: int|
                0 <= p < ke ==> ((#[trigger] wasi_events@[p]).name == events0[p].name
                    && wasi_events@[p].time == dt_of(events0[p].time) && wasi_events@[p].attributes@
                    == wasi_attrs_of(events0[p].attributes@)),
            forall|p: int| 0 <= p < ke ==> attrs_supported((#[trigger] events0[p]).attributes@),
        decreases rest_events@.len(),
    {
        let e = rest_events.remove(0);
        proof {
            assert(e == events0[ke]);
        }
        match event_to_wasi(e) {
            Ok(w) => {
                wasi_events.push(w);
            },
            Err(err) => {
                return Err(err);
            },
        }
        proof {
            assert(rest_events@ =~= events0.skip(ke + 1));
            ke = ke + 1;
        }
    }
    let mut wasi_links: Vec<Link> = Vec::new();
    let mut rest_links = links;
    let ghost links0 = rest_links@;
    let ghost kl: int = 0;
    while rest_links.len() > 0
        invariant
            0 <= kl <= links0.len(),
            rest_links@ == links0.skip(kl),
            wasi_links@.len() == kl,
            forall|p: int|
                0 <= p < kl ==> (is_wasi_context_of(
                    (#[trigger] wasi_links@[p]).span_context,
                    links0[p].span_context,
                ) && wasi_links@[p].attributes@ == wasi_attrs_of(links0[p].attributes@)),
            forall|p: int| 0 <= p < kl ==> attrs_supported((#[trigger] links0[p]).attributes@),
        decreases rest_links@.len(),
    {
        let l = rest_links.remove(0);
        proof {
            assert(l == links0[kl]);
        }
        match link_to_wasi(l) {
            Ok(w) => {
                wasi_links.push(w);
            },
            Err(err) => {
                return Err(err);
            },
        }
        proof {
            assert(rest_links@ =~= links0.skip(kl + 1));
            kl = kl + 1;
        }
    }
    let scope = match scope_to_wasi(instrumentation_scope) {
        Ok(sc) => sc,
        Err(err) => {
            return Err(err);
        },
    };
    Ok(
        SpanData {
            span_context: wasi_context,
            parent_span_id: parent,
            span_kind: span_kind_to_wasi(span_kind),
            name,
            start_time: start_dt,
            end_time: end_dt,
            attributes: attrs,
            events: wasi_events,
            links: wasi_links,
            status: status_to_wasi(status),
            instrumentation_scope: scope,
            dropped_attributes,
            dropped_events,
            dropped_links,
        },
    )
}


/// The round trip composed: converting a trace identity to the boundary
/// and reading it back preserves the trace id, the span id, the sampled
/// bit and the remote flag, whatever the ids are.
pub fn span_context_round_trip(sc: OtelSpanContext) -> (r: OtelSpanContext)
    ensures
        r.trace_id == sc.trace_id,
        r.span_id == sc.span_id,
        r.sampled == sc.sampled,
        r.is_remote == sc.is_remote,
{
    let ghost sc0 = sc;
    let w = span_context_to_wasi(sc);
    let back = span_context_from_wasi(&w);
    proof {
        lemma_span_context_round_trip(sc0, w);
    }
    back
}

} // verus!
