//! Serialisation of the output tree into the OTLP protobuf wire format.

use vstd::prelude::*;
use vstd::utf8::encode_utf8;
use crate::model::{ExportTraceServiceRequest, KeyValue, ResourceSpans, ScopeSpans, Span, SpanView};
use crate::wire::{key, le_bytes, len_field, put_key, put_le, put_len_field, put_varint_field, varint, WIRE_FIXED32, WIRE_FIXED64, WIRE_VARINT};

verus! {

/// A length-delimited field that is left out when its body is empty,
/// as proto3 does for strings and bytes holding the default value.
pub open spec fn nonempty_field(tag: u64, body: Seq<u8>) -> Seq<u8> {
    if body.len() == 0 {
        seq![]
    } else {
        len_field(tag, body)
    }
}

/// A varint field, left out when zero.
pub open spec fn varint_field(tag: u64, v: u64) -> Seq<u8> {
    if v == 0 {
        seq![]
    } else {
        key(tag, WIRE_VARINT) + varint(v)
    }
}

/// A fixed-width field of `n` bytes, left out when zero.
pub open spec fn fixed_field(tag: u64, wire_type: u64, v: u64, n: nat) -> Seq<u8> {
    if v == 0 {
        seq![]
    } else {
        key(tag, wire_type) + le_bytes(v, n)
    }
}

/// Body of a `Span` message.
pub open spec fn span_body(s: SpanView) -> Seq<u8> {
    nonempty_field(1, s.trace_id) + nonempty_field(2, s.span_id) + nonempty_field(5, encode_utf8(s.name))
        + varint_field(6, #[verifier::truncate] (s.kind as u64)) + fixed_field(7, WIRE_FIXED64, s.start_time_unix_nano, 8)
        + fixed_field(8, WIRE_FIXED64, s.end_time_unix_nano, 8) + fixed_field(16, WIRE_FIXED32, s.flags as u64, 4)
}

/// Body of a `KeyValue` message whose value is a string `AnyValue`.
pub open spec fn key_value_body(kv: (Seq<char>, Seq<char>)) -> Seq<u8> {
    nonempty_field(1, encode_utf8(kv.0)) + len_field(2, len_field(1, encode_utf8(kv.1)))
}

/// The repeated field `tag` holding each attribute in turn.
pub open spec fn attributes_fields(tag: u64, attrs: Seq<KeyValue>) -> Seq<u8>
    decreases attrs.len(),
{
    if attrs.len() == 0 {
        seq![]
    } else {
        attributes_fields(tag, attrs.drop_last()) + len_field(tag, key_value_body(attrs.last()@))
    }
}

/// The repeated `spans` field of a `ScopeSpans` message.
pub open spec fn spans_fields(spans: Seq<Span>) -> Seq<u8>
    decreases spans.len(),
{
    if spans.len() == 0 {
        seq![]
    } else {
        spans_fields(spans.drop_last()) + len_field(2, span_body(spans.last()@))
    }
}

/// Body of an `InstrumentationScope` message.
pub open spec fn scope_body(name: Seq<char>, version: Seq<char>) -> Seq<u8> {
    nonempty_field(1, encode_utf8(name)) + nonempty_field(2, encode_utf8(version))
}

/// Body of a `ScopeSpans` message.
pub open spec fn scope_spans_body(ss: ScopeSpans) -> Seq<u8> {
    len_field(1, scope_body(ss.name@, ss.version@)) + spans_fields(ss.spans@)
}

/// The repeated `scope_spans` field of a `ResourceSpans` message.
pub open spec fn scope_spans_fields(list: Seq<ScopeSpans>) -> Seq<u8>
    decreases list.len(),
{
    if list.len() == 0 {
        seq![]
    } else {
        scope_spans_fields(list.drop_last()) + len_field(2, scope_spans_body(list.last()))
    }
}

/// Body of a `ResourceSpans` message; the `Resource` holds the attributes alone.
pub open spec fn resource_spans_body(rs: ResourceSpans) -> Seq<u8> {
    len_field(1, attributes_fields(1, rs.attributes@)) + scope_spans_fields(rs.scope_spans@)
}

/// The repeated `resource_spans` field of the request.
pub open spec fn resource_spans_fields(list: Seq<ResourceSpans>) -> Seq<u8>
    decreases list.len(),
{
    if list.len() == 0 {
        seq![]
    } else {
        resource_spans_fields(list.drop_last()) + len_field(1, resource_spans_body(list.last()))
    }
}

/// The encoding of a whole `ExportTraceServiceRequest`.
pub open spec fn request_bytes(req: ExportTraceServiceRequest) -> Seq<u8> {
    resource_spans_fields(req.resource_spans@)
}

fn put_nonempty_field(buf: &mut Vec<u8>, tag: u64, body: &[u8])
    requires
        1 <= tag <= 536_870_911,
    ensures
        final(buf)@ == old(buf)@ + nonempty_field(tag, body@),
{
    if body.len() != 0 {
        put_len_field(buf, tag, body);
    } else {
        assert(buf@ == buf@ + Seq::<u8>::empty());
    }
}

fn put_fixed_field(buf: &mut Vec<u8>, tag: u64, wire_type: u64, v: u64, n: usize)
    requires
        1 <= tag <= 536_870_911,
        wire_type < 8,
        n <= 8,
    ensures
        final(buf)@ == old(buf)@ + fixed_field(tag, wire_type, v, n as nat),
{
    if v != 0 {
        put_key(buf, tag, wire_type);
        put_le(buf, v, n);
        assert(buf@ == old(buf)@ + (key(tag, wire_type) + le_bytes(v, n as nat)));
    } else {
        assert(buf@ == buf@ + Seq::<u8>::empty());
    }
}

/// Writes the body of a `Span` message.
pub fn encode_span_body(s: &Span) -> (r: Vec<u8>)
    ensures
        r@ == span_body(s@),
{
    let mut buf: Vec<u8> = Vec::new();
    put_nonempty_field(&mut buf, 1, s.trace_id.as_slice());
    put_nonempty_field(&mut buf, 2, s.span_id.as_slice());
    put_nonempty_field(&mut buf, 5, s.name.as_str().as_bytes());
    put_varint_field(&mut buf, 6, s.kind as u64);
    put_fixed_field(&mut buf, 7, WIRE_FIXED64, s.start_time_unix_nano, 8);
    put_fixed_field(&mut buf, 8, WIRE_FIXED64, s.end_time_unix_nano, 8);
    put_fixed_field(&mut buf, 16, WIRE_FIXED32, s.flags as u64, 4);
    assert(buf@ =~= span_body(s@));
    buf
}

/// Writes the body of a `KeyValue` message with a string value.
pub fn encode_key_value_body(kv: &KeyValue) -> (r: Vec<u8>)
    ensures
        r@ == key_value_body(kv@),
{
    let mut any: Vec<u8> = Vec::new();
    put_len_field(&mut any, 1, kv.value.as_str().as_bytes());
    let mut buf: Vec<u8> = Vec::new();
    put_nonempty_field(&mut buf, 1, kv.key.as_str().as_bytes());
    put_len_field(&mut buf, 2, any.as_slice());
    assert(buf@ =~= key_value_body(kv@));
    buf
}

/// Writes each attribute as field `tag`.
pub fn encode_attributes(buf: &mut Vec<u8>, tag: u64, attrs: &Vec<KeyValue>)
    requires
        1 <= tag <= 536_870_911,
    ensures
        final(buf)@ == old(buf)@ + attributes_fields(tag, attrs@),
{
    let mut i: usize = 0;
    while i < attrs.len()
        invariant
            1 <= tag <= 536_870_911,
            i <= attrs@.len(),
            buf@ == old(buf)@ + attributes_fields(tag, attrs@.subrange(0, i as int)),
        decreases attrs@.len() - i,
    {
        let body = encode_key_value_body(&attrs[i]);
        put_len_field(buf, tag, body.as_slice());
        assert(attrs@.subrange(0, i + 1).drop_last() =~= attrs@.subrange(0, i as int));
        i = i + 1;
    }
    assert(attrs@.subrange(0, attrs@.len() as int) =~= attrs@);
}

/// Writes the body of a `ScopeSpans` message.
pub fn encode_scope_spans_body(ss: &ScopeSpans) -> (r: Vec<u8>)
    ensures
        r@ == scope_spans_body(*ss),
{
    let mut scope: Vec<u8> = Vec::new();
    put_nonempty_field(&mut scope, 1, ss.name.as_str().as_bytes());
    put_nonempty_field(&mut scope, 2, ss.version.as_str().as_bytes());
    let mut buf: Vec<u8> = Vec::new();
    put_len_field(&mut buf, 1, scope.as_slice());
    let ghost head = buf@;
    let mut i: usize = 0;
    while i < ss.spans.len()
        invariant
            i <= ss.spans@.len(),
            buf@ == head + spans_fields(ss.spans@.subrange(0, i as int)),
        decreases ss.spans@.len() - i,
    {
        let body = encode_span_body(&ss.spans[i]);
        put_len_field(&mut buf, 2, body.as_slice());
        assert(ss.spans@.subrange(0, i + 1).drop_last() =~= ss.spans@.subrange(0, i as int));
        i = i + 1;
    }
    assert(ss.spans@.subrange(0, ss.spans@.len() as int) =~= ss.spans@);
    assert(scope@ =~= scope_body(ss.name@, ss.version@));
    buf
}

/// Writes the body of a `ResourceSpans` message.
pub fn encode_resource_spans_body(rs: &ResourceSpans) -> (r: Vec<u8>)
    ensures
        r@ == resource_spans_body(*rs),
{
    let mut resource: Vec<u8> = Vec::new();
    encode_attributes(&mut resource, 1, &rs.attributes);
    let mut buf: Vec<u8> = Vec::new();
    put_len_field(&mut buf, 1, resource.as_slice());
    let ghost head = buf@;
    let mut i: usize = 0;
    while i < rs.scope_spans.len()
        invariant
            i <= rs.scope_spans@.len(),
            buf@ == head + scope_spans_fields(rs.scope_spans@.subrange(0, i as int)),
        decreases rs.scope_spans@.len() - i,
    {
        let body = encode_scope_spans_body(&rs.scope_spans[i]);
        put_len_field(&mut buf, 2, body.as_slice());
        assert(rs.scope_spans@.subrange(0, i + 1).drop_last() =~= rs.scope_spans@.subrange(0, i as int));
        i = i + 1;
    }
    assert(rs.scope_spans@.subrange(0, rs.scope_spans@.len() as int) =~= rs.scope_spans@);
    buf
}

/// Serialises a whole request into its canonical protobuf bytes.
pub fn encode_request(req: &ExportTraceServiceRequest) -> (r: Vec<u8>)
    ensures
        r@ == request_bytes(*req),
{
    let mut buf: Vec<u8> = Vec::new();
    let mut i: usize = 0;
    while i < req.resource_spans.len()
        invariant
            i <= req.resource_spans@.len(),
            buf@ == resource_spans_fields(req.resource_spans@.subrange(0, i as int)),
        decreases req.resource_spans@.len() - i,
    {
        let body = encode_resource_spans_body(&req.resource_spans[i]);
        put_len_field(&mut buf, 1, body.as_slice());
        assert(req.resource_spans@.subrange(0, i + 1).drop_last() =~= req.resource_spans@.subrange(0, i as int));
        i = i + 1;
    }
    assert(req.resource_spans@.subrange(0, req.resource_spans@.len() as int) =~= req.resource_spans@);
    buf
}

} // verus!
