use prost::encoding::{decode_key, decode_varint, WireType};
use trace_encoder_lite::encode::encode_span_body;
use trace_encoder_lite::encode_spans;
use trace_encoder_lite::group::build_request;
use trace_encoder_lite::model::{
    convert_attributes, convert_span, to_be_bytes, RawAttribute, ResourceRef, ScopeRef,
    SpanRecord,
};
use trace_encoder_lite::wire::{put_key, put_len_field, put_le};

#[derive(Debug, Clone, PartialEq)]
enum Field {
    Varint(u64),
    Fixed(u64),
    Bytes(Vec<u8>),
}

/// Splits a message body into its fields with prost's own decoding primitives.
fn fields(mut buf: &[u8]) -> Vec<(u32, Field)> {
    let mut out = Vec::new();
    while !buf.is_empty() {
        let (tag, wt) = decode_key(&mut buf).expect("key");
        let f = match wt {
            WireType::Varint => Field::Varint(decode_varint(&mut buf).expect("varint")),
            WireType::SixtyFourBit => {
                let mut b = [0u8; 8];
                b.copy_from_slice(&buf[..8]);
                buf = &buf[8..];
                Field::Fixed(u64::from_le_bytes(b))
            }
            WireType::ThirtyTwoBit => {
                let mut b = [0u8; 4];
                b.copy_from_slice(&buf[..4]);
                buf = &buf[4..];
                Field::Fixed(u32::from_le_bytes(b) as u64)
            }
            WireType::LengthDelimited => {
                let n = decode_varint(&mut buf).expect("len") as usize;
                let body = buf[..n].to_vec();
                buf = &buf[n..];
                Field::Bytes(body)
            }
            _ => panic!("unexpected wire type"),
        };
        out.push((tag, f));
    }
    out
}

fn sub(fs: &[(u32, Field)], tag: u32) -> Vec<Vec<u8>> {
    fs.iter()
        .filter(|(t, _)| *t == tag)
        .map(|(_, f)| match f {
            Field::Bytes(b) => b.clone(),
            other => panic!("field {} is {:?}", tag, other),
        })
        .collect()
}

fn scalar(fs: &[(u32, Field)], tag: u32) -> Option<u64> {
    fs.iter().find(|(t, _)| *t == tag).map(|(_, f)| match f {
        Field::Varint(v) | Field::Fixed(v) => *v,
        other => panic!("field {} is {:?}", tag, other),
    })
}

fn text(s: &str) -> Option<String> {
    Some(s.to_string())
}

fn resource(id: u64) -> ResourceRef {
    ResourceRef {
        id,
        attributes: vec![RawAttribute { key: text("service.name"), value: text("svc") }],
    }
}

fn scope(id: u64, name: &str) -> ScopeRef {
    ScopeRef { id, name: name.to_string(), version: "1.0".to_string() }
}

fn record(trace_id: u128, span_id: u64, name: &str, res: ResourceRef, sc: ScopeRef) -> SpanRecord {
    SpanRecord {
        trace_id,
        span_id,
        name: name.to_string(),
        kind: None,
        start_time: None,
        end_time: None,
        flags: None,
        resource: res,
        instrumentation_scope: sc,
    }
}

/// Decoded spans of a request, as (trace_id, span_id, name, kind, start, end, flags).
type Decoded = (Vec<u8>, Vec<u8>, String, u64, u64, u64, u64);

fn decode_request(bytes: &[u8]) -> Vec<Vec<Vec<Decoded>>> {
    let req = fields(bytes);
    sub(&req, 1)
        .iter()
        .map(|rs| {
            sub(&fields(rs), 2)
                .iter()
                .map(|ss| {
                    sub(&fields(ss), 2)
                        .iter()
                        .map(|sp| {
                            let f = fields(sp);
                            (
                                sub(&f, 1).concat(),
                                sub(&f, 2).concat(),
                                String::from_utf8(sub(&f, 5).concat()).unwrap(),
                                scalar(&f, 6).unwrap_or(0),
                                scalar(&f, 7).unwrap_or(0),
                                scalar(&f, 8).unwrap_or(0),
                                scalar(&f, 16).unwrap_or(0),
                            )
                        })
                        .collect()
                })
                .collect()
        })
        .collect()
}

#[test]
fn defaults_for_absent_fields() {
    let r = record(7, 9, "op", resource(1), scope(1, "lib"));
    let s = convert_span(&r);
    assert_eq!(s.kind, 1);
    assert_eq!(s.start_time_unix_nano, 0);
    assert_eq!(s.end_time_unix_nano, 0);
    assert_eq!(s.flags, 256);
    let decoded = decode_request(&encode_spans(&vec![r]));
    let span = &decoded[0][0][0];
    assert_eq!((span.3, span.4, span.5, span.6), (1, 0, 0, 256));
}

#[test]
fn identifier_byte_layout() {
    let mut trace = vec![0u8; 15];
    trace.push(1);
    let mut span = vec![0u8; 7];
    span.push(1);
    assert_eq!(to_be_bytes(1, 16), trace);
    assert_eq!(to_be_bytes(1, 8), span);
    let s = convert_span(&record(1, 1, "op", resource(1), scope(1, "lib")));
    assert_eq!(s.trace_id, trace);
    assert_eq!(s.span_id, span);
    assert_eq!(to_be_bytes(0x0102_0304, 4), vec![1, 2, 3, 4]);
}

#[test]
fn grouping_by_identity_not_value() {
    let recs = vec![
        record(1, 1, "a", resource(10), scope(5, "lib")),
        record(2, 2, "b", resource(20), scope(5, "lib")),
        record(3, 3, "c", resource(10), scope(5, "lib")),
    ];
    let req = build_request(&recs);
    assert_eq!(req.resource_spans.len(), 2);
    let first = &req.resource_spans[0];
    assert_eq!(first.scope_spans.len(), 1);
    let names: Vec<&str> = first.scope_spans[0].spans.iter().map(|s| s.name.as_str()).collect();
    assert_eq!(names, vec!["a", "c"]);
    assert_eq!(req.resource_spans[1].scope_spans[0].spans[0].name, "b");
    let decoded = decode_request(&encode_spans(&recs));
    assert_eq!(decoded.len(), 2);
    assert_eq!(decoded[0][0].len(), 2);
    assert_eq!(decoded[1][0].len(), 1);
}

#[test]
fn scopes_split_within_resource() {
    let recs = vec![
        record(1, 1, "a", resource(10), scope(5, "x")),
        record(2, 2, "b", resource(10), scope(6, "y")),
        record(3, 3, "c", resource(10), scope(5, "x")),
        record(4, 4, "d", resource(20), scope(5, "x")),
    ];
    let req = build_request(&recs);
    assert_eq!(req.resource_spans.len(), 2);
    let scopes = &req.resource_spans[0].scope_spans;
    assert_eq!(scopes.len(), 2);
    assert_eq!(scopes[0].name, "x");
    assert_eq!(scopes[0].spans.len(), 2);
    assert_eq!(scopes[1].name, "y");
    assert_eq!(scopes[1].spans.len(), 1);
    assert_eq!(req.resource_spans[1].scope_spans.len(), 1);
}

#[test]
fn reordering_keeps_groups() {
    let recs = vec![
        record(1, 1, "a", resource(10), scope(5, "x")),
        record(2, 2, "b", resource(20), scope(5, "x")),
        record(3, 3, "c", resource(10), scope(5, "x")),
    ];
    let reordered = vec![
        record(2, 2, "b", resource(20), scope(5, "x")),
        record(3, 3, "c", resource(10), scope(5, "x")),
        record(1, 1, "a", resource(10), scope(5, "x")),
    ];
    let mut one = decode_request(&encode_spans(&recs));
    let mut two = decode_request(&encode_spans(&reordered));
    for g in one.iter_mut().chain(two.iter_mut()) {
        for s in g.iter_mut() {
            s.sort();
        }
    }
    one.sort();
    two.sort();
    assert_eq!(one, two);
}

#[test]
fn non_text_attribute_dropped() {
    let attrs = vec![
        RawAttribute { key: text("a"), value: text("1") },
        RawAttribute { key: text("b"), value: None },
        RawAttribute { key: None, value: text("3") },
        RawAttribute { key: text("d"), value: text("4") },
    ];
    let kvs = convert_attributes(&attrs);
    let pairs: Vec<(String, String)> = kvs.into_iter().map(|kv| (kv.key, kv.value)).collect();
    assert_eq!(pairs, vec![("a".to_string(), "1".to_string()), ("d".to_string(), "4".to_string())]);

    let res = ResourceRef { id: 1, attributes: attrs };
    let bytes = encode_spans(&vec![record(1, 1, "op", res, scope(1, "lib"))]);
    let rs = fields(&sub(&fields(&bytes), 1)[0]);
    let resource = fields(&sub(&rs, 1)[0]);
    let keys: Vec<String> = sub(&resource, 1)
        .iter()
        .map(|kv| String::from_utf8(sub(&fields(kv), 1).concat()).unwrap())
        .collect();
    assert_eq!(keys, vec!["a".to_string(), "d".to_string()]);
}

#[test]
fn empty_input_gives_empty_request() {
    let bytes = encode_spans(&Vec::new());
    assert!(bytes.is_empty());
    assert!(build_request(&Vec::new()).resource_spans.is_empty());
    assert!(decode_request(&bytes).is_empty());
}

#[test]
fn round_trip_of_every_field() {
    let mut r1 = record(u128::MAX, u64::MAX, "first", resource(1), scope(1, "lib"));
    r1.kind = Some(2);
    r1.start_time = Some(1_700_000_000_000_000_000);
    r1.end_time = Some(1_700_000_000_000_000_500);
    r1.flags = Some(1);
    let mut r2 = record(0x0123_4567_89ab_cdef_0011_2233_4455_6677, 0x42, "second", resource(2), scope(2, "other"));
    r2.kind = Some(3);
    let decoded = decode_request(&encode_spans(&vec![r1, r2]));
    let a = &decoded[0][0][0];
    assert_eq!(a.0, vec![0xff; 16]);
    assert_eq!(a.1, vec![0xff; 8]);
    assert_eq!(a.2, "first");
    assert_eq!((a.3, a.4, a.5, a.6), (2, 1_700_000_000_000_000_000, 1_700_000_000_000_000_500, 1));
    let b = &decoded[1][0][0];
    assert_eq!(b.0, 0x0123_4567_89ab_cdef_0011_2233_4455_6677u128.to_be_bytes().to_vec());
    assert_eq!(b.1, 0x42u64.to_be_bytes().to_vec());
    assert_eq!(b.2, "second");
    assert_eq!((b.3, b.4, b.5, b.6), (3, 0, 0, 256));
}

#[test]
fn span_body_exact_bytes() {
    let mut r = record(1, 2, "ab", resource(1), scope(1, "lib"));
    r.start_time = Some(5);
    let body = encode_span_body(&convert_span(&r));
    let mut expected = vec![0x0a, 16];
    expected.extend(1u128.to_be_bytes());
    expected.extend([0x12, 8]);
    expected.extend(2u64.to_be_bytes());
    expected.extend([0x2a, 2, b'a', b'b']);
    expected.extend([0x30, 1]);
    expected.extend([0x39, 5, 0, 0, 0, 0, 0, 0, 0]);
    expected.extend([0x85, 0x01, 0, 1, 0, 0]);
    assert_eq!(body, expected);
}

#[test]
fn field_framing_with_long_varints() {
    let mut buf = Vec::new();
    put_key(&mut buf, 16, 5);
    assert_eq!(buf, vec![0x85, 0x01]);
    let body = vec![7u8; 300];
    let mut out = Vec::new();
    put_len_field(&mut out, 1, &body);
    assert_eq!(&out[..3], &[0x0a, 0xac, 0x02]);
    assert_eq!(out.len(), 303);
    let mut le = Vec::new();
    put_le(&mut le, 0x0102, 4);
    assert_eq!(le, vec![2, 1, 0, 0]);
}

