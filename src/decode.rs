//! Reading protobuf fields back, and the proof that a span's encoding
//! gives every one of its fields back.

use vstd::prelude::*;
use vstd::utf8::{decode_utf8, encode_utf8};
use crate::encode::{
    attributes_fields, fixed_field, nonempty_field, request_bytes, resource_spans_body,
    resource_spans_fields, scope_body, scope_spans_body, scope_spans_fields, span_body,
    spans_fields, varint_field,
};
use crate::model::{ExportTraceServiceRequest, ResourceSpans, ScopeSpans, Span, SpanView};
use crate::wire::{key, le_bytes, len_field, varint, WIRE_FIXED32, WIRE_FIXED64, WIRE_LEN, WIRE_VARINT};

verus! {

/// Value of a LEB128 varint at the start of `b`, and how many bytes it takes.
pub open spec fn parse_varint(b: Seq<u8>) -> (nat, nat)
    decreases b.len(),
{
    if b.len() == 0 {
        (0, 0)
    } else if b[0] < 128 {
        (b[0] as nat, 1)
    } else {
        let (v, n) = parse_varint(b.drop_first());
        (((b[0] - 128) as nat + 128 * v) as nat, n + 1)
    }
}

/// Value of little-endian bytes.
pub open spec fn le_value(b: Seq<u8>) -> nat
    decreases b.len(),
{
    if b.len() == 0 {
        0
    } else {
        (b[0] + 256 * le_value(b.drop_first())) as nat
    }
}

/// One field read from the wire: its tag, wire type, scalar value or bytes, and size.
pub ghost struct Field {
    pub tag: nat,
    pub wire: nat,
    pub value: nat,
    pub bytes: Seq<u8>,
    pub size: nat,
}

/// Reads the field at the start of `b`.
#[verifier::opaque]
pub open spec fn read_field(b: Seq<u8>) -> Field {
    let (k, kn) = parse_varint(b);
    let rest = b.subrange(kn as int, b.len() as int);
    let tag = k / 8;
    let wire = k % 8;
    if wire == 0 {
        let (v, vn) = parse_varint(rest);
        Field { tag, wire, value: v, bytes: seq![], size: kn + vn }
    } else if wire == 1 {
        Field { tag, wire, value: le_value(rest.take(8)), bytes: seq![], size: kn + 8 }
    } else if wire == 5 {
        Field { tag, wire, value: le_value(rest.take(4)), bytes: seq![], size: kn + 4 }
    } else if wire == 2 {
        let (l, ln) = parse_varint(rest);
        Field { tag, wire, value: 0, bytes: rest.subrange(ln as int, (ln + l) as int), size: kn + ln + l }
    } else {
        Field { tag, wire, value: 0, bytes: seq![], size: 0 }
    }
}

/// Reads fields one after another until `b` is used up or holds no well-formed field.
#[verifier::opaque]
pub open spec fn parse_fields(b: Seq<u8>) -> Seq<Field>
    decreases b.len(),
{
    if b.len() == 0 {
        seq![]
    } else {
        let f = read_field(b);
        if f.size == 0 || f.size > b.len() {
            seq![]
        } else {
            seq![f] + parse_fields(b.subrange(f.size as int, b.len() as int))
        }
    }
}

/// A span with every field at its wire default.
pub open spec fn empty_span() -> SpanView {
    SpanView {
        trace_id: seq![],
        span_id: seq![],
        name: seq![],
        kind: 0,
        start_time_unix_nano: 0,
        end_time_unix_nano: 0,
        flags: 0,
    }
}

/// Merges one field into a span, as a protobuf decoder of `Span` does.
pub open spec fn merge_span_field(s: SpanView, f: Field) -> SpanView {
    if f.tag == 1 && f.wire == 2 {
        SpanView { trace_id: f.bytes, ..s }
    } else if f.tag == 2 && f.wire == 2 {
        SpanView { span_id: f.bytes, ..s }
    } else if f.tag == 5 && f.wire == 2 {
        SpanView { name: decode_utf8(f.bytes), ..s }
    } else if f.tag == 6 && f.wire == 0 {
        SpanView { kind: #[verifier::truncate] ((#[verifier::truncate] (f.value as u64)) as i32), ..s }
    } else if f.tag == 7 && f.wire == 1 {
        SpanView { start_time_unix_nano: #[verifier::truncate] (f.value as u64), ..s }
    } else if f.tag == 8 && f.wire == 1 {
        SpanView { end_time_unix_nano: #[verifier::truncate] (f.value as u64), ..s }
    } else if f.tag == 16 && f.wire == 5 {
        SpanView { flags: #[verifier::truncate] (f.value as u32), ..s }
    } else {
        s
    }
}

/// Merges the fields into `s`, first to last.
pub open spec fn merge_span_fields(s: SpanView, fs: Seq<Field>) -> SpanView
    decreases fs.len(),
{
    if fs.len() == 0 {
        s
    } else {
        merge_span_fields(merge_span_field(s, fs[0]), fs.drop_first())
    }
}

/// Decodes the body of a `Span` message.
pub open spec fn decode_span_body(b: Seq<u8>) -> SpanView {
    merge_span_fields(empty_span(), parse_fields(b))
}

pub proof fn lemma_varint(v: u64, rest: Seq<u8>)
    ensures
        parse_varint(varint(v) + rest) == (v as nat, varint(v).len()),
        1 <= varint(v).len(),
    decreases v,
{
    if v >= 128 {
        lemma_varint(v / 128, rest);
        let b = varint(v) + rest;
        assert(b.drop_first() =~= varint(v / 128) + rest);
        assert(v == v % 128 + 128 * (v / 128));
    }
}

/// Bound of `n` bytes: 256 to the power `n`.
pub open spec fn byte_bound(n: nat) -> nat
    decreases n,
{
    if n == 0 {
        1
    } else {
        256 * byte_bound((n - 1) as nat)
    }
}

pub proof fn lemma_le(v: u64, n: nat)
    requires
        v < byte_bound(n),
    ensures
        le_value(le_bytes(v, n)) == v,
        le_bytes(v, n).len() == n,
    decreases n,
{
    if n > 0 {
        let bb = byte_bound((n - 1) as nat);
        assert(v / 256 < bb) by (nonlinear_arith)
            requires
                v < 256 * bb,
        ;
        lemma_le(v / 256, (n - 1) as nat);
        assert(le_bytes(v, n).drop_first() =~= le_bytes(v / 256, (n - 1) as nat));
    }
}

/// A field key gives back its tag and wire type.
pub proof fn lemma_key(tag: u64, wire: u64, rest: Seq<u8>)
    requires
        1 <= tag <= 536_870_911,
        wire < 8,
    ensures
        parse_varint(key(tag, wire) + rest) == ((tag * 8 + wire) as nat, key(tag, wire).len()),
        (tag * 8 + wire) as nat / 8 == tag,
        (tag * 8 + wire) as nat % 8 == wire,
        1 <= key(tag, wire).len(),
{
    lemma_varint((tag * 8 + wire) as u64, rest);
}

/// A length-delimited field is read back whole, and reading goes on after it.
pub proof fn lemma_len_field(tag: u64, body: Seq<u8>, rest: Seq<u8>)
    requires
        1 <= tag <= 536_870_911,
        body.len() <= u64::MAX,
    ensures
        parse_fields(len_field(tag, body) + rest) == seq![
            Field { tag: tag as nat, wire: 2, value: 0, bytes: body, size: len_field(tag, body).len() },
        ] + parse_fields(rest),
{
    reveal(read_field);
    reveal_with_fuel(parse_fields, 2);
    let k = key(tag, WIRE_LEN);
    let lv = varint(body.len() as u64);
    let b = len_field(tag, body) + rest;
    lemma_key(tag, WIRE_LEN, lv + body + rest);
    assert(b =~= k + (lv + body + rest));
    let r1 = b.subrange(k.len() as int, b.len() as int);
    assert(r1 =~= lv + (body + rest));
    lemma_varint(body.len() as u64, body + rest);
    let r2 = r1.subrange(lv.len() as int, (lv.len() + body.len()) as int);
    assert(r2 =~= body);
    let f = read_field(b);
    assert(f.size == len_field(tag, body).len());
    assert(b.subrange(f.size as int, b.len() as int) =~= rest);
}

/// A varint field is read back, and reading goes on after it.
pub proof fn lemma_varint_field(tag: u64, v: u64, rest: Seq<u8>)
    requires
        1 <= tag <= 536_870_911,
        v != 0,
    ensures
        parse_fields(varint_field(tag, v) + rest) == seq![
            Field { tag: tag as nat, wire: 0, value: v as nat, bytes: seq![], size: varint_field(tag, v).len() },
        ] + parse_fields(rest),
{
    reveal(read_field);
    reveal_with_fuel(parse_fields, 2);
    let k = key(tag, WIRE_VARINT);
    let vb = varint(v);
    let b = varint_field(tag, v) + rest;
    lemma_key(tag, WIRE_VARINT, vb + rest);
    assert(b =~= k + (vb + rest));
    let r1 = b.subrange(k.len() as int, b.len() as int);
    assert(r1 =~= vb + rest);
    lemma_varint(v, rest);
    let f = read_field(b);
    assert(f.size == varint_field(tag, v).len());
    assert(b.subrange(f.size as int, b.len() as int) =~= rest);
}

/// A fixed-width field of `n` bytes is read back, and reading goes on after it.
pub proof fn lemma_fixed_field(tag: u64, wire: u64, v: u64, n: nat, rest: Seq<u8>)
    requires
        1 <= tag <= 536_870_911,
        (wire == WIRE_FIXED64 && n == 8) || (wire == WIRE_FIXED32 && n == 4),
        v < byte_bound(n),
        v != 0,
    ensures
        parse_fields(fixed_field(tag, wire, v, n) + rest) == seq![
            Field { tag: tag as nat, wire: wire as nat, value: v as nat, bytes: seq![], size: fixed_field(tag, wire, v, n).len() },
        ] + parse_fields(rest),
{
    reveal(read_field);
    reveal_with_fuel(parse_fields, 2);
    let k = key(tag, wire);
    let lb = le_bytes(v, n);
    let b = fixed_field(tag, wire, v, n) + rest;
    lemma_key(tag, wire, lb + rest);
    lemma_le(v, n);
    assert(b =~= k + (lb + rest));
    let r1 = b.subrange(k.len() as int, b.len() as int);
    assert(r1 =~= lb + rest);
    assert(r1.take(n as int) =~= lb);
    let f = read_field(b);
    assert(f.size == fixed_field(tag, wire, v, n).len());
    assert(b.subrange(f.size as int, b.len() as int) =~= rest);
}

proof fn lemma_merge_cons(acc: SpanView, f: Field, fs: Seq<Field>)
    ensures
        merge_span_fields(acc, seq![f] + fs) == merge_span_fields(merge_span_field(acc, f), fs),
{
    assert((seq![f] + fs).drop_first() =~= fs);
}

/// What a span's encoding decodes to: it holds every field of the span.
/// Fields that the encoding leaves out hold their wire default, which is the
/// value the span had.
pub proof fn span_round_trip(s: SpanView)
    requires
        s.trace_id.len() <= u64::MAX,
        s.span_id.len() <= u64::MAX,
        encode_utf8(s.name).len() <= u64::MAX,
    ensures
        decode_span_body(span_body(s)) == s,
{
    broadcast use vstd::utf8::encode_utf8_decode_utf8;

    let name = encode_utf8(s.name);
    let kind = #[verifier::truncate] (s.kind as u64);
    let f1 = nonempty_field(1, s.trace_id);
    let f2 = nonempty_field(2, s.span_id);
    let f5 = nonempty_field(5, name);
    let f6 = varint_field(6, kind);
    let f7 = fixed_field(7, WIRE_FIXED64, s.start_time_unix_nano, 8);
    let f8 = fixed_field(8, WIRE_FIXED64, s.end_time_unix_nano, 8);
    let f_flags = fixed_field(16, WIRE_FIXED32, s.flags as u64, 4);
    let t8 = Seq::<u8>::empty();
    reveal_with_fuel(parse_fields, 1);
    assert(parse_fields(t8) == Seq::<Field>::empty());
    let t7 = f_flags + t8;
    let t6 = f8 + t7;
    let t5 = f7 + t6;
    let t4 = f6 + t5;
    let t3 = f5 + t4;
    let t2 = f2 + t3;
    let t1 = f1 + t2;
    assert(span_body(s) =~= t1);

    reveal_with_fuel(byte_bound, 9);
    assert(byte_bound(4) == 0x1_0000_0000);
    assert(byte_bound(8) == 0x1_0000_0000_0000_0000);

    let a0 = empty_span();
    let a1 = SpanView { trace_id: s.trace_id, ..a0 };
    let a2 = SpanView { span_id: s.span_id, ..a1 };
    let a3 = SpanView { name: s.name, ..a2 };
    let a4 = SpanView { kind: s.kind, ..a3 };
    let a5 = SpanView { start_time_unix_nano: s.start_time_unix_nano, ..a4 };
    let a6 = SpanView { end_time_unix_nano: s.end_time_unix_nano, ..a5 };
    let a7 = SpanView { flags: s.flags, ..a6 };

    if s.trace_id.len() == 0 {
        assert(t1 =~= t2);
        assert(s.trace_id =~= Seq::<u8>::empty());
        assert(a1 == a0);
    } else {
        lemma_len_field(1, s.trace_id, t2);
        lemma_merge_cons(a0, Field { tag: 1, wire: 2, value: 0, bytes: s.trace_id, size: f1.len() }, parse_fields(t2));
    }
    if s.span_id.len() == 0 {
        assert(t2 =~= t3);
        assert(s.span_id =~= Seq::<u8>::empty());
        assert(a2 == a1);
    } else {
        lemma_len_field(2, s.span_id, t3);
        lemma_merge_cons(a1, Field { tag: 2, wire: 2, value: 0, bytes: s.span_id, size: f2.len() }, parse_fields(t3));
    }
    if name.len() == 0 {
        assert(t3 =~= t4);
        assert(name =~= Seq::<u8>::empty());
        assert(decode_utf8(name) =~= Seq::<char>::empty());
        assert(a3 == a2);
    } else {
        lemma_len_field(5, name, t4);
        lemma_merge_cons(a2, Field { tag: 5, wire: 2, value: 0, bytes: name, size: f5.len() }, parse_fields(t4));
    }
    let k32 = s.kind;
    assert((#[verifier::truncate] ((#[verifier::truncate] (k32 as u64)) as i32)) == k32) by (bit_vector);
    if kind == 0 {
        assert(t4 =~= t5);
        assert(a4 == a3);
    } else {
        lemma_varint_field(6, kind, t5);
        lemma_merge_cons(a3, Field { tag: 6, wire: 0, value: kind as nat, bytes: seq![], size: f6.len() }, parse_fields(t5));
    }
    if s.start_time_unix_nano == 0 {
        assert(t5 =~= t6);
        assert(a5 == a4);
    } else {
        lemma_fixed_field(7, WIRE_FIXED64, s.start_time_unix_nano, 8, t6);
        lemma_merge_cons(a4, Field { tag: 7, wire: 1, value: s.start_time_unix_nano as nat, bytes: seq![], size: f7.len() }, parse_fields(t6));
    }
    if s.end_time_unix_nano == 0 {
        assert(t6 =~= t7);
        assert(a6 == a5);
    } else {
        lemma_fixed_field(8, WIRE_FIXED64, s.end_time_unix_nano, 8, t7);
        lemma_merge_cons(a5, Field { tag: 8, wire: 1, value: s.end_time_unix_nano as nat, bytes: seq![], size: f8.len() }, parse_fields(t7));
    }
    if s.flags == 0 {
        assert(t7 =~= t8);
        assert(a7 == a6);
    } else {
        lemma_fixed_field(16, WIRE_FIXED32, s.flags as u64, 4, t8);
        lemma_merge_cons(a6, Field { tag: 16, wire: 5, value: s.flags as nat, bytes: seq![], size: f_flags.len() }, parse_fields(t8));
    }
    assert(a7 == s);
}

/// The repeated length-delimited field `tag` holding each body in turn.
pub open spec fn repeated(tag: u64, bodies: Seq<Seq<u8>>) -> Seq<u8>
    decreases bodies.len(),
{
    if bodies.len() == 0 {
        seq![]
    } else {
        repeated(tag, bodies.drop_last()) + len_field(tag, bodies.last())
    }
}

/// The field that `len_field(tag, body)` is read back as.
pub open spec fn len_field_read(tag: u64, body: Seq<u8>) -> Field {
    Field { tag: tag as nat, wire: 2, value: 0, bytes: body, size: len_field(tag, body).len() }
}

proof fn lemma_repeated_front(tag: u64, bodies: Seq<Seq<u8>>)
    requires
        bodies.len() > 0,
    ensures
        repeated(tag, bodies) == len_field(tag, bodies[0]) + repeated(tag, bodies.drop_first()),
    decreases bodies.len(),
{
    if bodies.len() == 1 {
        assert(bodies.drop_first() =~= Seq::<Seq<u8>>::empty());
        assert(bodies.drop_last() =~= Seq::<Seq<u8>>::empty());
        assert(repeated(tag, bodies) =~= len_field(tag, bodies[0]) + repeated(tag, bodies.drop_first()));
    } else {
        let dl = bodies.drop_last();
        lemma_repeated_front(tag, dl);
        assert(dl.drop_first() =~= bodies.drop_first().drop_last());
        assert(bodies.drop_first().last() == bodies.last());
        assert(repeated(tag, bodies) =~= len_field(tag, bodies[0]) + repeated(tag, bodies.drop_first()));
    }
}

/// A repeated field is read back as one field per body, in order.
pub proof fn lemma_repeated(tag: u64, bodies: Seq<Seq<u8>>, rest: Seq<u8>)
    requires
        1 <= tag <= 536_870_911,
        forall|i: int| 0 <= i < bodies.len() ==> (#[trigger] bodies[i]).len() <= u64::MAX,
    ensures
        parse_fields(repeated(tag, bodies) + rest) == bodies.map_values(|b: Seq<u8>| len_field_read(tag, b))
            + parse_fields(rest),
    decreases bodies.len(),
{
    if bodies.len() == 0 {
        assert(repeated(tag, bodies) + rest =~= rest);
        assert(bodies.map_values(|b: Seq<u8>| len_field_read(tag, b)) + parse_fields(rest) =~= parse_fields(rest));
    } else {
        lemma_repeated_front(tag, bodies);
        let tail = bodies.drop_first();
        lemma_repeated(tag, tail, rest);
        lemma_len_field(tag, bodies[0], repeated(tag, tail) + rest);
        assert(repeated(tag, bodies) + rest =~= len_field(tag, bodies[0]) + (repeated(tag, tail) + rest));
        assert(bodies.map_values(|b: Seq<u8>| len_field_read(tag, b)) =~= seq![len_field_read(tag, bodies[0])]
            + tail.map_values(|b: Seq<u8>| len_field_read(tag, b)));
    }
}

proof fn lemma_spans_repeated(spans: Seq<Span>)
    ensures
        spans_fields(spans) == repeated(2, spans.map_values(|x: Span| span_body(x@))),
    decreases spans.len(),
{
    if spans.len() > 0 {
        lemma_spans_repeated(spans.drop_last());
        assert(spans.map_values(|x: Span| span_body(x@)).drop_last() =~= spans.drop_last().map_values(|x: Span| span_body(x@)));
    } else {
        assert(spans.map_values(|x: Span| span_body(x@)) =~= Seq::<Seq<u8>>::empty());
    }
}

proof fn lemma_scope_spans_repeated(list: Seq<ScopeSpans>)
    ensures
        scope_spans_fields(list) == repeated(2, list.map_values(|x: ScopeSpans| scope_spans_body(x))),
    decreases list.len(),
{
    if list.len() > 0 {
        lemma_scope_spans_repeated(list.drop_last());
        assert(list.map_values(|x: ScopeSpans| scope_spans_body(x)).drop_last() =~= list.drop_last().map_values(|x: ScopeSpans| scope_spans_body(x)));
    } else {
        assert(list.map_values(|x: ScopeSpans| scope_spans_body(x)) =~= Seq::<Seq<u8>>::empty());
    }
}

proof fn lemma_resource_spans_repeated(list: Seq<ResourceSpans>)
    ensures
        resource_spans_fields(list) == repeated(1, list.map_values(|x: ResourceSpans| resource_spans_body(x))),
    decreases list.len(),
{
    if list.len() > 0 {
        lemma_resource_spans_repeated(list.drop_last());
        assert(list.map_values(|x: ResourceSpans| resource_spans_body(x)).drop_last() =~= list.drop_last().map_values(|x: ResourceSpans| resource_spans_body(x)));
    } else {
        assert(list.map_values(|x: ResourceSpans| resource_spans_body(x)) =~= Seq::<Seq<u8>>::empty());
    }
}

/// Every length in the encoding of a span fits the 64-bit length prefix.
pub open spec fn span_fits(s: SpanView) -> bool {
    &&& s.trace_id.len() <= u64::MAX
    &&& s.span_id.len() <= u64::MAX
    &&& encode_utf8(s.name).len() <= u64::MAX
    &&& span_body(s).len() <= u64::MAX
}

/// Every length in the encoding of a scope node fits the 64-bit length prefix.
pub open spec fn scope_spans_fits(ss: ScopeSpans) -> bool {
    &&& scope_body(ss.name@, ss.version@).len() <= u64::MAX
    &&& scope_spans_body(ss).len() <= u64::MAX
    &&& forall|k: int| 0 <= k < ss.spans@.len() ==> span_fits(#[trigger] ss.spans@[k]@)
}

/// Every length in the encoding of a resource node fits the 64-bit length prefix.
pub open spec fn resource_spans_fits(rs: ResourceSpans) -> bool {
    &&& attributes_fields(1, rs.attributes@).len() <= u64::MAX
    &&& resource_spans_body(rs).len() <= u64::MAX
    &&& forall|b: int| 0 <= b < rs.scope_spans@.len() ==> scope_spans_fits(#[trigger] rs.scope_spans@[b])
}

/// The fields of a scope node's body: the scope, then one field per span,
/// each of which decodes to its span.
pub proof fn scope_spans_round_trip(ss: ScopeSpans)
    requires
        scope_spans_fits(ss),
    ensures
        parse_fields(scope_spans_body(ss)).len() == ss.spans@.len() + 1,
        parse_fields(scope_spans_body(ss))[0].tag == 1,
        parse_fields(scope_spans_body(ss))[0].bytes == scope_body(ss.name@, ss.version@),
        forall|k: int| 0 <= k < ss.spans@.len() ==> {
            &&& (#[trigger] parse_fields(scope_spans_body(ss))[k + 1]).tag == 2
            &&& decode_span_body(parse_fields(scope_spans_body(ss))[k + 1].bytes) == ss.spans@[k]@
        },
{
    let bodies = ss.spans@.map_values(|x: Span| span_body(x@));
    lemma_spans_repeated(ss.spans@);
    assert forall|i: int| 0 <= i < bodies.len() implies (#[trigger] bodies[i]).len() <= u64::MAX by {
        assert(span_fits(ss.spans@[i]@));
    }
    let sb = scope_body(ss.name@, ss.version@);
    lemma_repeated(2, bodies, seq![]);
    lemma_len_field(1, sb, spans_fields(ss.spans@));
    reveal_with_fuel(parse_fields, 1);
    assert(spans_fields(ss.spans@) + Seq::<u8>::empty() =~= spans_fields(ss.spans@));
    let fs = parse_fields(scope_spans_body(ss));
    assert(fs =~= seq![len_field_read(1, sb)] + bodies.map_values(|b: Seq<u8>| len_field_read(2, b)));
    assert forall|k: int| 0 <= k < ss.spans@.len() implies {
        &&& (#[trigger] fs[k + 1]).tag == 2
        &&& decode_span_body(fs[k + 1].bytes) == ss.spans@[k]@
    } by {
        assert(fs[k + 1] == len_field_read(2, bodies[k]));
        assert(span_fits(ss.spans@[k]@));
        span_round_trip(ss.spans@[k]@);
    }
}

/// The fields of a resource node's body: the resource, then one field per
/// scope node, holding that node's body.
pub proof fn resource_spans_round_trip(rs: ResourceSpans)
    requires
        resource_spans_fits(rs),
    ensures
        parse_fields(resource_spans_body(rs)).len() == rs.scope_spans@.len() + 1,
        parse_fields(resource_spans_body(rs))[0].tag == 1,
        parse_fields(resource_spans_body(rs))[0].bytes == attributes_fields(1, rs.attributes@),
        forall|b: int| 0 <= b < rs.scope_spans@.len() ==> {
            &&& (#[trigger] parse_fields(resource_spans_body(rs))[b + 1]).tag == 2
            &&& parse_fields(resource_spans_body(rs))[b + 1].bytes == scope_spans_body(rs.scope_spans@[b])
        },
{
    let bodies = rs.scope_spans@.map_values(|x: ScopeSpans| scope_spans_body(x));
    lemma_scope_spans_repeated(rs.scope_spans@);
    assert forall|i: int| 0 <= i < bodies.len() implies (#[trigger] bodies[i]).len() <= u64::MAX by {
        assert(scope_spans_fits(rs.scope_spans@[i]));
    }
    let ab = attributes_fields(1, rs.attributes@);
    lemma_repeated(2, bodies, seq![]);
    lemma_len_field(1, ab, scope_spans_fields(rs.scope_spans@));
    reveal_with_fuel(parse_fields, 1);
    assert(scope_spans_fields(rs.scope_spans@) + Seq::<u8>::empty() =~= scope_spans_fields(rs.scope_spans@));
    let fs = parse_fields(resource_spans_body(rs));
    assert(fs =~= seq![len_field_read(1, ab)] + bodies.map_values(|b: Seq<u8>| len_field_read(2, b)));
    assert forall|b: int| 0 <= b < rs.scope_spans@.len() implies {
        &&& (#[trigger] fs[b + 1]).tag == 2
        &&& fs[b + 1].bytes == scope_spans_body(rs.scope_spans@[b])
    } by {
        assert(fs[b + 1] == len_field_read(2, bodies[b]));
    }
}

/// The fields of an encoded request: one per resource node, holding that node's body.
pub proof fn request_round_trip(req: ExportTraceServiceRequest)
    requires
        forall|a: int| 0 <= a < req.resource_spans@.len() ==> resource_spans_fits(#[trigger] req.resource_spans@[a]),
    ensures
        parse_fields(request_bytes(req)).len() == req.resource_spans@.len(),
        forall|a: int| 0 <= a < req.resource_spans@.len() ==> {
            &&& (#[trigger] parse_fields(request_bytes(req))[a]).tag == 1
            &&& parse_fields(request_bytes(req))[a].bytes == resource_spans_body(req.resource_spans@[a])
        },
{
    let bodies = req.resource_spans@.map_values(|x: ResourceSpans| resource_spans_body(x));
    lemma_resource_spans_repeated(req.resource_spans@);
    assert forall|i: int| 0 <= i < bodies.len() implies (#[trigger] bodies[i]).len() <= u64::MAX by {
        assert(resource_spans_fits(req.resource_spans@[i]));
    }
    lemma_repeated(1, bodies, seq![]);
    reveal_with_fuel(parse_fields, 1);
    assert(request_bytes(req) + Seq::<u8>::empty() =~= request_bytes(req));
    let fs = parse_fields(request_bytes(req));
    assert(fs =~= bodies.map_values(|b: Seq<u8>| len_field_read(1, b)));
}

} // verus!
