//! Properties of the encoder that relate several of its functions or hold of all inputs.

use vstd::prelude::*;
use crate::decode::{
    decode_span_body, parse_fields, request_round_trip, resource_spans_fits,
    resource_spans_round_trip, scope_spans_round_trip,
};
use crate::encode::{request_bytes, resource_spans_fields};
use crate::group::{group_spans, opens_resource, resource_node, scope_node, opens_scope, resource_starts, scope_starts, tree_of};
use crate::model::{
    is_text_entry, kept_attributes, span_of, ExportTraceServiceRequest, RawAttribute,
    SpanRecord, SpanView, DEFAULT_FLAGS, SPAN_KIND_INTERNAL,
};

verus! {

/// A record that carries no kind, timestamps or flags yields a span of kind
/// INTERNAL, with both timestamps zero and flags 256.
pub proof fn defaults_substituted(r: &SpanRecord)
    requires
        r.kind is None,
        r.start_time is None,
        r.end_time is None,
        r.flags is None,
    ensures
        span_of(r).kind == SPAN_KIND_INTERNAL,
        span_of(r).kind == 1,
        span_of(r).start_time_unix_nano == 0,
        span_of(r).end_time_unix_nano == 0,
        span_of(r).flags == DEFAULT_FLAGS,
        span_of(r).flags == 256,
{
}

/// Kept attributes of a concatenation are the kept attributes of each part.
pub proof fn kept_attributes_concat(a: Seq<RawAttribute>, b: Seq<RawAttribute>)
    ensures
        kept_attributes(a + b) == kept_attributes(a) + kept_attributes(b),
    decreases b.len(),
{
    if b.len() == 0 {
        assert(a + b =~= a);
        assert(kept_attributes(b) =~= seq![]);
        assert(kept_attributes(a) + kept_attributes(b) =~= kept_attributes(a));
    } else {
        kept_attributes_concat(a, b.drop_last());
        assert((a + b).drop_last() =~= a + b.drop_last());
        assert((a + b).last() == b.last());
        let rest = kept_attributes(a) + kept_attributes(b.drop_last());
        if is_text_entry(b.last()) {
            let e = (b.last().key.unwrap()@, b.last().value.unwrap()@);
            assert(rest.push(e) =~= kept_attributes(a) + kept_attributes(b.drop_last()).push(e));
        }
    }
}

/// An entry whose key or value is not text is dropped, and every other entry
/// around it is kept in order.
pub proof fn non_text_entry_dropped(before: Seq<RawAttribute>, bad: RawAttribute, after: Seq<RawAttribute>)
    requires
        !is_text_entry(bad),
    ensures
        kept_attributes(before.push(bad) + after) == kept_attributes(before) + kept_attributes(after),
{
    kept_attributes_concat(before.push(bad), after);
    assert(before.push(bad).drop_last() =~= before);
}

/// An empty sequence of records gives a request with no resource node, whose
/// encoding is empty.
pub proof fn empty_input_empty_request(req: ExportTraceServiceRequest, recs: Seq<SpanRecord>)
    requires
        recs.len() == 0,
        tree_of(req, recs),
    ensures
        req.resource_spans@.len() == 0,
        request_bytes(req).len() == 0,
{
    assert(resource_starts(recs, 0).len() == 0);
    assert(resource_spans_fields(req.resource_spans@) == Seq::<u8>::empty());
}

/// The output spans of the records of `recs` that point at resource `rid` and scope `sid`.
pub open spec fn spans_in_group(recs: Seq<SpanRecord>, rid: u64, sid: u64) -> Seq<SpanView>
    decreases recs.len(),
{
    if recs.len() == 0 {
        seq![]
    } else {
        let rest = spans_in_group(recs.drop_last(), rid, sid);
        let r = recs.last();
        if r.resource.id == rid && r.instrumentation_scope.id == sid {
            rest.push(span_of(&r))
        } else {
            rest
        }
    }
}

/// The group of the first `n` records is the group of that prefix.
pub proof fn group_spans_prefix(recs: Seq<SpanRecord>, rid: u64, sid: u64, n: nat)
    requires
        n <= recs.len(),
    ensures
        group_spans(recs, rid, sid, n) == spans_in_group(recs.take(n as int), rid, sid),
    decreases n,
{
    if n == 0 {
        assert(recs.take(0) =~= Seq::<SpanRecord>::empty());
    } else {
        group_spans_prefix(recs, rid, sid, (n - 1) as nat);
        assert(recs.take(n as int).drop_last() =~= recs.take(n - 1));
    }
}

/// The group of a concatenation is the group of each part, in turn.
pub proof fn spans_in_group_concat(a: Seq<SpanRecord>, b: Seq<SpanRecord>, rid: u64, sid: u64)
    ensures
        spans_in_group(a + b, rid, sid) == spans_in_group(a, rid, sid) + spans_in_group(b, rid, sid),
    decreases b.len(),
{
    if b.len() == 0 {
        assert(a + b =~= a);
        assert(spans_in_group(a, rid, sid) + spans_in_group(b, rid, sid) =~= spans_in_group(a, rid, sid));
    } else {
        spans_in_group_concat(a, b.drop_last(), rid, sid);
        assert((a + b).drop_last() =~= a + b.drop_last());
        assert((a + b).last() == b.last());
        let r = b.last();
        if r.resource.id == rid && r.instrumentation_scope.id == sid {
            assert((spans_in_group(a, rid, sid) + spans_in_group(b.drop_last(), rid, sid)).push(span_of(&r))
                =~= spans_in_group(a, rid, sid) + spans_in_group(b.drop_last(), rid, sid).push(span_of(&r)));
        }
    }
}

/// Re-ordering the records leaves the spans of each group the same, up to their order.
pub proof fn spans_in_group_reordered(recs: Seq<SpanRecord>, other: Seq<SpanRecord>, rid: u64, sid: u64)
    requires
        recs.to_multiset() == other.to_multiset(),
    ensures
        spans_in_group(recs, rid, sid).to_multiset() == spans_in_group(other, rid, sid).to_multiset(),
    decreases other.len(),
{
    broadcast use vstd::seq_lib::group_to_multiset_ensures, vstd::seq_lib::lemma_multiset_commutative;

    if other.len() == 0 {
        recs.to_multiset_ensures();
        other.to_multiset_ensures();
        assert(recs.len() == 0);
        assert(recs =~= other);
    } else {
        let x = other.last();
        let o2 = other.drop_last();
        assert(other =~= o2.push(x));
        assert(other.to_multiset().count(x) > 0);
        assert(recs.contains(x));
        let i = choose|i: int| 0 <= i < recs.len() && recs[i] == x;
        let a = recs.subrange(0, i);
        let c = recs.subrange(i + 1, recs.len() as int);
        let r2 = recs.remove(i);
        assert(r2 =~= a + c);
        assert(recs =~= a + seq![x] + c);
        assert(r2.to_multiset() =~= recs.to_multiset().remove(x));
        assert(o2.to_multiset() =~= other.to_multiset().remove(x));
        spans_in_group_reordered(r2, o2, rid, sid);
        spans_in_group_concat(a + seq![x], c, rid, sid);
        spans_in_group_concat(a, seq![x], rid, sid);
        spans_in_group_concat(a, c, rid, sid);
        spans_in_group_concat(o2, seq![x], rid, sid);
        assert(other =~= o2 + seq![x]);
        assert(seq![x].drop_last() =~= Seq::<SpanRecord>::empty());
        let gx = spans_in_group(seq![x], rid, sid);
        let ga = spans_in_group(a, rid, sid);
        let gc = spans_in_group(c, rid, sid);
        assert(spans_in_group(recs, rid, sid).to_multiset() =~= ga.to_multiset().add(gx.to_multiset()).add(gc.to_multiset()));
        assert(spans_in_group(r2, rid, sid).to_multiset() =~= ga.to_multiset().add(gc.to_multiset()));
        assert(spans_in_group(other, rid, sid).to_multiset() =~= spans_in_group(o2, rid, sid).to_multiset().add(gx.to_multiset()));
    }
}

/// Grouping does not depend on the order of the input: where `other` holds
/// the same records as `recs` in another order, every resource and scope pair
/// collects the same spans, up to their order within the group.
pub proof fn grouping_ignores_order(recs: Seq<SpanRecord>, other: Seq<SpanRecord>, rid: u64, sid: u64)
    requires
        recs.to_multiset() == other.to_multiset(),
    ensures
        group_spans(recs, rid, sid, recs.len()).to_multiset()
            == group_spans(other, rid, sid, other.len()).to_multiset(),
{
    group_spans_prefix(recs, rid, sid, recs.len());
    group_spans_prefix(other, rid, sid, other.len());
    assert(recs.take(recs.len() as int) =~= recs);
    assert(other.take(other.len() as int) =~= other);
    spans_in_group_reordered(recs, other, rid, sid);
}

/// Resource tokens of the resource nodes built from `recs`.
pub open spec fn resource_groups(recs: Seq<SpanRecord>) -> Set<u64> {
    let starts = resource_starts(recs, recs.len());
    Set::new(|id: u64| exists|a: int| 0 <= a < starts.len() && recs[starts[a]].resource.id == id)
}

/// Scope tokens of the scope nodes built under resource `rid`.
pub open spec fn scope_groups(recs: Seq<SpanRecord>, rid: u64) -> Set<u64> {
    let starts = scope_starts(recs, rid, recs.len());
    Set::new(|sid: u64| exists|b: int| 0 <= b < starts.len() && recs[starts[b]].instrumentation_scope.id == sid)
}

/// Resource tokens that some record points at.
pub open spec fn resource_ids(recs: Seq<SpanRecord>) -> Set<u64> {
    Set::new(|id: u64| exists|i: int| 0 <= i < recs.len() && recs[i].resource.id == id)
}

/// Scope tokens that some record of resource `rid` points at.
pub open spec fn scope_ids(recs: Seq<SpanRecord>, rid: u64) -> Set<u64> {
    Set::new(|sid: u64| exists|i: int| 0 <= i < recs.len() && recs[i].resource.id == rid
        && recs[i].instrumentation_scope.id == sid)
}

/// Among the first `n` records, the resource nodes are opened by records of
/// that prefix and cover every resource token in it.
pub proof fn resource_starts_cover(recs: Seq<SpanRecord>, n: nat)
    requires
        n <= recs.len(),
    ensures
        forall|a: int| 0 <= a < resource_starts(recs, n).len() ==> 0 <= #[trigger] resource_starts(recs, n)[a] < n,
        forall|i: int| 0 <= i < n ==> exists|a: int| 0 <= a < resource_starts(recs, n).len()
            && recs[resource_starts(recs, n)[a]].resource.id == #[trigger] recs[i].resource.id,
    decreases n,
{
    if n > 0 {
        resource_starts_cover(recs, (n - 1) as nat);
        let prev = resource_starts(recs, (n - 1) as nat);
        let cur = resource_starts(recs, n);
        assert forall|i: int| 0 <= i < n implies exists|a: int| 0 <= a < cur.len()
            && recs[cur[a]].resource.id == #[trigger] recs[i].resource.id by {
            if i < n - 1 {
                let a = choose|a: int| 0 <= a < prev.len() && recs[prev[a]].resource.id == recs[i].resource.id;
                assert(cur[a] == prev[a]);
            } else if opens_resource(recs, n - 1) {
                assert(cur[prev.len() as int] == n - 1);
            } else {
                let j = choose|j: int| 0 <= j < n - 1 && #[trigger] recs[j].resource.id == recs[n - 1].resource.id;
                assert(recs[j].resource.id == recs[j].resource.id);
                let a = choose|a: int| 0 <= a < prev.len() && recs[prev[a]].resource.id == recs[j].resource.id;
                assert(cur[a] == prev[a]);
            }
        }
    }
}

/// Among the first `n` records, the scope nodes under `rid` are opened by
/// records of that resource and cover every scope token seen with it.
pub proof fn scope_starts_cover(recs: Seq<SpanRecord>, rid: u64, n: nat)
    requires
        n <= recs.len(),
    ensures
        forall|b: int| 0 <= b < scope_starts(recs, rid, n).len() ==> 0 <= #[trigger] scope_starts(recs, rid, n)[b] < n
            && recs[scope_starts(recs, rid, n)[b]].resource.id == rid,
        forall|i: int| 0 <= i < n && recs[i].resource.id == rid ==> exists|b: int|
            0 <= b < scope_starts(recs, rid, n).len() && recs[scope_starts(recs, rid, n)[b]].instrumentation_scope.id
                == #[trigger] recs[i].instrumentation_scope.id,
    decreases n,
{
    if n > 0 {
        scope_starts_cover(recs, rid, (n - 1) as nat);
        let prev = scope_starts(recs, rid, (n - 1) as nat);
        let cur = scope_starts(recs, rid, n);
        assert forall|i: int| 0 <= i < n && recs[i].resource.id == rid implies exists|b: int|
            0 <= b < cur.len() && recs[cur[b]].instrumentation_scope.id == #[trigger] recs[i].instrumentation_scope.id by {
            if i < n - 1 {
                let b = choose|b: int| 0 <= b < prev.len()
                    && recs[prev[b]].instrumentation_scope.id == recs[i].instrumentation_scope.id;
                assert(cur[b] == prev[b]);
            } else if opens_scope(recs, n - 1) {
                assert(cur[prev.len() as int] == n - 1);
            } else {
                let j = choose|j: int| 0 <= j < n - 1 && (#[trigger] recs[j].resource.id == recs[n - 1].resource.id
                    && recs[j].instrumentation_scope.id == recs[n - 1].instrumentation_scope.id);
                assert(recs[j].instrumentation_scope.id == recs[j].instrumentation_scope.id);
                let b = choose|b: int| 0 <= b < prev.len()
                    && recs[prev[b]].instrumentation_scope.id == recs[j].instrumentation_scope.id;
                assert(cur[b] == prev[b]);
            }
        }
    }
}

/// There is one resource node for each resource token of the input.
pub proof fn resource_groups_are_ids(recs: Seq<SpanRecord>)
    ensures
        resource_groups(recs) == resource_ids(recs),
{
    resource_starts_cover(recs, recs.len());
    let starts = resource_starts(recs, recs.len());
    assert forall|id: u64| resource_ids(recs).contains(id) implies resource_groups(recs).contains(id) by {
        let i = choose|i: int| 0 <= i < recs.len() && recs[i].resource.id == id;
        assert(recs[i].resource.id == id);
    }
    assert forall|id: u64| resource_groups(recs).contains(id) implies resource_ids(recs).contains(id) by {
        let a = choose|a: int| 0 <= a < starts.len() && recs[starts[a]].resource.id == id;
        assert(0 <= starts[a] < recs.len());
    }
    assert(resource_groups(recs) =~= resource_ids(recs));
}

/// Under each resource there is one scope node for each scope token seen with it.
pub proof fn scope_groups_are_ids(recs: Seq<SpanRecord>, rid: u64)
    ensures
        scope_groups(recs, rid) == scope_ids(recs, rid),
{
    scope_starts_cover(recs, rid, recs.len());
    let starts = scope_starts(recs, rid, recs.len());
    assert forall|sid: u64| scope_ids(recs, rid).contains(sid) implies scope_groups(recs, rid).contains(sid) by {
        let i = choose|i: int| 0 <= i < recs.len() && recs[i].resource.id == rid
            && recs[i].instrumentation_scope.id == sid;
        assert(recs[i].instrumentation_scope.id == sid);
    }
    assert forall|sid: u64| scope_groups(recs, rid).contains(sid) implies scope_ids(recs, rid).contains(sid) by {
        let b = choose|b: int| 0 <= b < starts.len() && recs[starts[b]].instrumentation_scope.id == sid;
        assert(0 <= starts[b] < recs.len());
    }
    assert(scope_groups(recs, rid) =~= scope_ids(recs, rid));
}

/// Grouping does not depend on the order of the input: where `other` holds the
/// same records as `recs` in another order, the same resource nodes are built,
/// and under each resource the same scope nodes.
pub proof fn groups_ignore_order(recs: Seq<SpanRecord>, other: Seq<SpanRecord>, rid: u64)
    requires
        recs.to_multiset() == other.to_multiset(),
    ensures
        resource_groups(recs) == resource_groups(other),
        scope_groups(recs, rid) == scope_groups(other, rid),
{
    broadcast use vstd::seq_lib::group_to_multiset_ensures;

    resource_groups_are_ids(recs);
    resource_groups_are_ids(other);
    scope_groups_are_ids(recs, rid);
    scope_groups_are_ids(other, rid);
    recs.to_multiset_ensures();
    other.to_multiset_ensures();
    assert forall|r: SpanRecord| recs.contains(r) <==> other.contains(r) by {
        assert(recs.contains(r) <==> recs.to_multiset().count(r) > 0);
        assert(other.contains(r) <==> other.to_multiset().count(r) > 0);
    }
    assert forall|id: u64| resource_ids(recs).contains(id) implies resource_ids(other).contains(id) by {
        let i = choose|i: int| 0 <= i < recs.len() && recs[i].resource.id == id;
        assert(recs.contains(recs[i]));
        let k = choose|k: int| 0 <= k < other.len() && other[k] == recs[i];
    }
    assert forall|id: u64| resource_ids(other).contains(id) implies resource_ids(recs).contains(id) by {
        let i = choose|i: int| 0 <= i < other.len() && other[i].resource.id == id;
        assert(other.contains(other[i]));
        let k = choose|k: int| 0 <= k < recs.len() && recs[k] == other[i];
    }
    assert forall|sid: u64| scope_ids(recs, rid).contains(sid) implies scope_ids(other, rid).contains(sid) by {
        let i = choose|i: int| 0 <= i < recs.len() && recs[i].resource.id == rid
            && recs[i].instrumentation_scope.id == sid;
        assert(recs.contains(recs[i]));
        let k = choose|k: int| 0 <= k < other.len() && other[k] == recs[i];
    }
    assert forall|sid: u64| scope_ids(other, rid).contains(sid) implies scope_ids(recs, rid).contains(sid) by {
        let i = choose|i: int| 0 <= i < other.len() && other[i].resource.id == rid
            && other[i].instrumentation_scope.id == sid;
        assert(other.contains(other[i]));
        let k = choose|k: int| 0 <= k < recs.len() && recs[k] == other[i];
    }
    assert(resource_ids(recs) =~= resource_ids(other));
    assert(scope_ids(recs, rid) =~= scope_ids(other, rid));
}

/// The span at position `k` of scope node `b` of resource node `a`, read back
/// from the encoding of `req`.
pub open spec fn decoded_span(req: ExportTraceServiceRequest, a: int, b: int, k: int) -> SpanView {
    let resource = parse_fields(request_bytes(req))[a].bytes;
    let scope = parse_fields(resource)[b + 1].bytes;
    decode_span_body(parse_fields(scope)[k + 1].bytes)
}

/// Encoding then decoding gives back every record's identifiers, name, kind,
/// timestamps and flags: decoding the encoding of the tree of `recs` gives, in
/// each scope node, the spans of the records of that resource and scope, in
/// input order.
pub proof fn records_round_trip(req: ExportTraceServiceRequest, recs: Seq<SpanRecord>, a: int, b: int, k: int)
    requires
        tree_of(req, recs),
        forall|i: int| 0 <= i < req.resource_spans@.len() ==> resource_spans_fits(#[trigger] req.resource_spans@[i]),
        0 <= a < req.resource_spans@.len(),
        0 <= b < req.resource_spans@[a].scope_spans@.len(),
        0 <= k < req.resource_spans@[a].scope_spans@[b].spans@.len(),
    ensures
        ({
            let i = resource_starts(recs, recs.len())[a];
            let j = scope_starts(recs, recs[i].resource.id, recs.len())[b];
            decoded_span(req, a, b, k) == group_spans(
                recs,
                recs[j].resource.id,
                recs[j].instrumentation_scope.id,
                recs.len(),
            )[k]
        }),
{
    let rs = req.resource_spans@[a];
    let ss = rs.scope_spans@[b];
    let i = resource_starts(recs, recs.len())[a];
    let j = scope_starts(recs, recs[i].resource.id, recs.len())[b];
    request_round_trip(req);
    assert(resource_node(rs, recs, i));
    resource_spans_round_trip(rs);
    assert(scope_node(ss, recs, j));
    scope_spans_round_trip(ss);
    let top = parse_fields(request_bytes(req));
    assert(top[a].bytes == crate::encode::resource_spans_body(rs));
    let mid = parse_fields(top[a].bytes);
    assert(mid[b + 1].bytes == crate::encode::scope_spans_body(ss));
    let low = parse_fields(mid[b + 1].bytes);
    assert(decode_span_body(low[k + 1].bytes) == ss.spans@[k]@);
    assert(ss.spans@.map_values(|s: crate::model::Span| s@)[k] == ss.spans@[k]@);
}

} // verus!
