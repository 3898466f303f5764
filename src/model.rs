//! Input records, the output tree, and the conversion of one record.

use vstd::prelude::*;

verus! {

/// Span kind substituted when a record carries none.
pub const SPAN_KIND_INTERNAL: i32 = 1;

/// Flags substituted when a record carries none.
pub const DEFAULT_FLAGS: u32 = 256;

/// One entry of a resource's attribute mapping, as read from the host;
/// `None` where the key or the value could not be read as text.
pub struct RawAttribute {
    pub key: Option<String>,
    pub value: Option<String>,
}

/// The resource a record points at: an identity token and its attributes.
pub struct ResourceRef {
    pub id: u64,
    pub attributes: Vec<RawAttribute>,
}

/// The instrumentation scope a record points at: an identity token, name and version.
pub struct ScopeRef {
    pub id: u64,
    pub name: String,
    pub version: String,
}

/// One span as the host hands it over; optional fields are `None` where absent.
pub struct SpanRecord {
    pub trace_id: u128,
    pub span_id: u64,
    pub name: String,
    pub kind: Option<i32>,
    pub start_time: Option<u64>,
    pub end_time: Option<u64>,
    pub flags: Option<u32>,
    pub resource: ResourceRef,
    pub instrumentation_scope: ScopeRef,
}

/// A string-valued attribute of the output.
pub struct KeyValue {
    pub key: String,
    pub value: String,
}

/// A span of the output, with identifiers as big-endian bytes.
pub struct Span {
    pub trace_id: Vec<u8>,
    pub span_id: Vec<u8>,
    pub name: String,
    pub kind: i32,
    pub start_time_unix_nano: u64,
    pub end_time_unix_nano: u64,
    pub flags: u32,
}

/// The spans of one instrumentation scope.
pub struct ScopeSpans {
    pub name: String,
    pub version: String,
    pub spans: Vec<Span>,
}

/// The spans of one resource, split by scope.
pub struct ResourceSpans {
    pub attributes: Vec<KeyValue>,
    pub scope_spans: Vec<ScopeSpans>,
}

/// The whole export request.
pub struct ExportTraceServiceRequest {
    pub resource_spans: Vec<ResourceSpans>,
}

/// Mathematical value of a [`Span`].
pub ghost struct SpanView {
    pub trace_id: Seq<u8>,
    pub span_id: Seq<u8>,
    pub name: Seq<char>,
    pub kind: i32,
    pub start_time_unix_nano: u64,
    pub end_time_unix_nano: u64,
    pub flags: u32,
}

impl View for KeyValue {
    type V = (Seq<char>, Seq<char>);

    open spec fn view(&self) -> (Seq<char>, Seq<char>) {
        (self.key@, self.value@)
    }
}

impl View for Span {
    type V = SpanView;

    open spec fn view(&self) -> SpanView {
        SpanView {
            trace_id: self.trace_id@,
            span_id: self.span_id@,
            name: self.name@,
            kind: self.kind,
            start_time_unix_nano: self.start_time_unix_nano,
            end_time_unix_nano: self.end_time_unix_nano,
            flags: self.flags,
        }
    }
}

/// The `n` low-order bytes of `v`, most significant first.
pub open spec fn be_bytes(v: nat, n: nat) -> Seq<u8>
    decreases n,
{
    if n == 0 {
        seq![]
    } else {
        be_bytes(v / 256, (n - 1) as nat).push((v % 256) as u8)
    }
}

/// The output span that a record stands for, defaults substituted.
pub open spec fn span_of(r: &SpanRecord) -> SpanView {
    SpanView {
        trace_id: be_bytes(r.trace_id as nat, 16),
        span_id: be_bytes(r.span_id as nat, 8),
        name: r.name@,
        kind: match r.kind {
            Some(k) => k,
            None => SPAN_KIND_INTERNAL,
        },
        start_time_unix_nano: match r.start_time {
            Some(t) => t,
            None => 0,
        },
        end_time_unix_nano: match r.end_time {
            Some(t) => t,
            None => 0,
        },
        flags: match r.flags {
            Some(f) => f,
            None => DEFAULT_FLAGS,
        },
    }
}

/// Whether an attribute entry is kept: both its key and value were read as text.
pub open spec fn is_text_entry(a: RawAttribute) -> bool {
    a.key.is_some() && a.value.is_some()
}

/// The key/value pairs kept from `attrs`, in their order.
pub open spec fn kept_attributes(attrs: Seq<RawAttribute>) -> Seq<(Seq<char>, Seq<char>)>
    decreases attrs.len(),
{
    if attrs.len() == 0 {
        seq![]
    } else {
        let rest = kept_attributes(attrs.drop_last());
        let a = attrs.last();
        if is_text_entry(a) {
            rest.push((a.key.unwrap()@, a.value.unwrap()@))
        } else {
            rest
        }
    }
}

/// The `n` low-order bytes of `v`, most significant first.
pub fn to_be_bytes(v: u128, n: usize) -> (r: Vec<u8>)
    requires
        n <= 16,
    ensures
        r@ == be_bytes(v as nat, n as nat),
{
    let mut out: Vec<u8> = vec![0u8; n];
    let mut rest: u128 = v;
    let mut i: usize = n;
    while i > 0
        invariant
            i <= n,
            out@.len() == n,
            be_bytes(v as nat, n as nat) == be_bytes(rest as nat, i as nat) + out@.subrange(i as int, n as int),
        decreases i,
    {
        let ghost tail = out@.subrange(i as int, n as int);
        out.set(i - 1, (rest % 256) as u8);
        assert(out@.subrange(i - 1, n as int) == seq![(rest % 256) as u8] + tail);
        assert(be_bytes(rest as nat, i as nat) == be_bytes((rest / 256) as nat, (i - 1) as nat).push((rest % 256) as u8));
        rest = rest / 256;
        i = i - 1;
    }
    assert(out@.subrange(0, n as int) == out@);
    out
}

/// Converts one record into its output span, substituting the defaults for absent fields.
pub fn convert_span(r: &SpanRecord) -> (s: Span)
    ensures
        s@ == span_of(r),
{
    let kind = match r.kind {
        Some(k) => k,
        None => SPAN_KIND_INTERNAL,
    };
    let start = match r.start_time {
        Some(t) => t,
        None => 0,
    };
    let end = match r.end_time {
        Some(t) => t,
        None => 0,
    };
    let flags = match r.flags {
        Some(f) => f,
        None => DEFAULT_FLAGS,
    };
    Span {
        trace_id: to_be_bytes(r.trace_id, 16),
        span_id: to_be_bytes(r.span_id as u128, 8),
        name: r.name.clone(),
        kind,
        start_time_unix_nano: start,
        end_time_unix_nano: end,
        flags,
    }
}

/// Converts an attribute mapping, dropping the entries whose key or value is not text.
pub fn convert_attributes(attrs: &Vec<RawAttribute>) -> (r: Vec<KeyValue>)
    ensures
        r@.map_values(|kv: KeyValue| kv@) == kept_attributes(attrs@),
{
    let mut out: Vec<KeyValue> = Vec::new();
    let mut i: usize = 0;
    while i < attrs.len()
        invariant
            i <= attrs@.len(),
            out@.map_values(|kv: KeyValue| kv@) == kept_attributes(attrs@.subrange(0, i as int)),
        decreases attrs@.len() - i,
    {
        let a = &attrs[i];
        assert(attrs@.subrange(0, i + 1).drop_last() == attrs@.subrange(0, i as int));
        match (&a.key, &a.value) {
            (Some(k), Some(v)) => {
                out.push(KeyValue { key: k.clone(), value: v.clone() });
                assert(out@.map_values(|kv: KeyValue| kv@) == kept_attributes(attrs@.subrange(0, i as int)).push((k@, v@)));
            },
            _ => {},
        }
        i = i + 1;
    }
    assert(attrs@.subrange(0, attrs@.len() as int) == attrs@);
    out
}

} // verus!
