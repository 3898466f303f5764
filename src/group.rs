//! Grouping of flat span records into the resource / scope / span hierarchy.
//!
//! Resources and scopes are grouped by their identity token, never by their
//! contents: two resources with equal attributes but distinct tokens make two
//! groups. Groups come in the order of their first record, and the spans of a
//! group keep the order of the input.

use vstd::prelude::*;
use crate::model::{
    convert_attributes, convert_span, kept_attributes, span_of, ExportTraceServiceRequest,
    KeyValue, ResourceSpans, ScopeSpans, Span, SpanRecord, SpanView,
};

verus! {

/// Whether record `i` is the first one that points at its resource.
pub open spec fn opens_resource(recs: Seq<SpanRecord>, i: int) -> bool {
    forall|j: int| 0 <= j < i ==> recs[j].resource.id != recs[i].resource.id
}

/// Whether record `i` is the first one that points at its resource and scope pair.
pub open spec fn opens_scope(recs: Seq<SpanRecord>, i: int) -> bool {
    forall|j: int|
        0 <= j < i ==> !(recs[j].resource.id == recs[i].resource.id
            && recs[j].instrumentation_scope.id == recs[i].instrumentation_scope.id)
}

/// Indices, among the first `n` records, of those that open a resource group.
pub open spec fn resource_starts(recs: Seq<SpanRecord>, n: nat) -> Seq<int>
    decreases n,
{
    if n == 0 {
        seq![]
    } else {
        let rest = resource_starts(recs, (n - 1) as nat);
        if opens_resource(recs, n - 1) {
            rest.push(n - 1)
        } else {
            rest
        }
    }
}

/// Indices, among the first `n` records, of those that open a scope group under resource `rid`.
pub open spec fn scope_starts(recs: Seq<SpanRecord>, rid: u64, n: nat) -> Seq<int>
    decreases n,
{
    if n == 0 {
        seq![]
    } else {
        let rest = scope_starts(recs, rid, (n - 1) as nat);
        if recs[n - 1].resource.id == rid && opens_scope(recs, n - 1) {
            rest.push(n - 1)
        } else {
            rest
        }
    }
}

/// The output spans of the records, among the first `n`, that point at resource `rid` and scope `sid`.
pub open spec fn group_spans(recs: Seq<SpanRecord>, rid: u64, sid: u64, n: nat) -> Seq<SpanView>
    decreases n,
{
    if n == 0 {
        seq![]
    } else {
        let rest = group_spans(recs, rid, sid, (n - 1) as nat);
        let r = recs[n - 1];
        if r.resource.id == rid && r.instrumentation_scope.id == sid {
            rest.push(span_of(&r))
        } else {
            rest
        }
    }
}

/// `ss` is the scope node opened by record `j`: that record's scope name and
/// version, and every span of that resource and scope pair.
pub open spec fn scope_node(ss: ScopeSpans, recs: Seq<SpanRecord>, j: int) -> bool {
    &&& ss.name@ == recs[j].instrumentation_scope.name@
    &&& ss.version@ == recs[j].instrumentation_scope.version@
    &&& ss.spans@.map_values(|s: Span| s@) == group_spans(
        recs,
        recs[j].resource.id,
        recs[j].instrumentation_scope.id,
        recs.len(),
    )
}

/// `rs` is the resource node opened by record `i`: that record's resource
/// attributes, and one scope node for each scope seen under that resource.
pub open spec fn resource_node(rs: ResourceSpans, recs: Seq<SpanRecord>, i: int) -> bool {
    let starts = scope_starts(recs, recs[i].resource.id, recs.len());
    &&& rs.attributes@.map_values(|kv: KeyValue| kv@) == kept_attributes(recs[i].resource.attributes@)
    &&& rs.scope_spans@.len() == starts.len()
    &&& forall|b: int| 0 <= b < starts.len() ==> scope_node(#[trigger] rs.scope_spans@[b], recs, starts[b])
}

/// `req` is the tree of `recs`: one resource node for each resource, in order of first appearance.
pub open spec fn tree_of(req: ExportTraceServiceRequest, recs: Seq<SpanRecord>) -> bool {
    let starts = resource_starts(recs, recs.len());
    &&& req.resource_spans@.len() == starts.len()
    &&& forall|a: int| 0 <= a < starts.len() ==> resource_node(#[trigger] req.resource_spans@[a], recs, starts[a])
}

fn first_of_resource(recs: &Vec<SpanRecord>, i: usize) -> (r: bool)
    requires
        i < recs@.len(),
    ensures
        r == opens_resource(recs@, i as int),
{
    let id = recs[i].resource.id;
    let mut j: usize = 0;
    while j < i
        invariant
            i < recs@.len(),
            j <= i,
            id == recs@[i as int].resource.id,
            forall|k: int| 0 <= k < j ==> recs@[k].resource.id != id,
        decreases i - j,
    {
        if recs[j].resource.id == id {
            return false;
        }
        j = j + 1;
    }
    true
}

fn first_of_scope(recs: &Vec<SpanRecord>, i: usize) -> (r: bool)
    requires
        i < recs@.len(),
    ensures
        r == opens_scope(recs@, i as int),
{
    let rid = recs[i].resource.id;
    let sid = recs[i].instrumentation_scope.id;
    let mut j: usize = 0;
    while j < i
        invariant
            i < recs@.len(),
            j <= i,
            rid == recs@[i as int].resource.id,
            sid == recs@[i as int].instrumentation_scope.id,
            forall|k: int|
                0 <= k < j ==> !(recs@[k].resource.id == rid && recs@[k].instrumentation_scope.id == sid),
        decreases i - j,
    {
        if recs[j].resource.id == rid && recs[j].instrumentation_scope.id == sid {
            return false;
        }
        j = j + 1;
    }
    true
}

/// Builds the scope node opened by record `j`.
fn build_scope(recs: &Vec<SpanRecord>, j: usize) -> (ss: ScopeSpans)
    requires
        j < recs@.len(),
    ensures
        scope_node(ss, recs@, j as int),
{
    let rid = recs[j].resource.id;
    let sid = recs[j].instrumentation_scope.id;
    let mut spans: Vec<Span> = Vec::new();
    let mut k: usize = 0;
    while k < recs.len()
        invariant
            j < recs@.len(),
            k <= recs@.len(),
            rid == recs@[j as int].resource.id,
            sid == recs@[j as int].instrumentation_scope.id,
            spans@.map_values(|s: Span| s@) == group_spans(recs@, rid, sid, k as nat),
        decreases recs@.len() - k,
    {
        if recs[k].resource.id == rid && recs[k].instrumentation_scope.id == sid {
            let s = convert_span(&recs[k]);
            spans.push(s);
            assert(spans@.map_values(|s: Span| s@) =~= group_spans(recs@, rid, sid, k as nat).push(span_of(&recs@[k as int])));
        }
        k = k + 1;
    }
    ScopeSpans {
        name: recs[j].instrumentation_scope.name.clone(),
        version: recs[j].instrumentation_scope.version.clone(),
        spans,
    }
}

/// Builds the resource node opened by record `i`.
fn build_resource(recs: &Vec<SpanRecord>, i: usize) -> (rs: ResourceSpans)
    requires
        i < recs@.len(),
    ensures
        resource_node(rs, recs@, i as int),
{
    let rid = recs[i].resource.id;
    let mut scopes: Vec<ScopeSpans> = Vec::new();
    let mut j: usize = 0;
    while j < recs.len()
        invariant
            i < recs@.len(),
            j <= recs@.len(),
            rid == recs@[i as int].resource.id,
            scopes@.len() == scope_starts(recs@, rid, j as nat).len(),
            forall|b: int|
                0 <= b < scopes@.len() ==> scope_node(
                    #[trigger] scopes@[b],
                    recs@,
                    scope_starts(recs@, rid, j as nat)[b],
                ),
        decreases recs@.len() - j,
    {
        if recs[j].resource.id == rid && first_of_scope(recs, j) {
            let ss = build_scope(recs, j);
            scopes.push(ss);
        }
        j = j + 1;
    }
    ResourceSpans { attributes: convert_attributes(&recs[i].resource.attributes), scope_spans: scopes }
}

/// Groups the records into the export tree: a resource node for each resource
/// token, a scope node for each scope token under it, and every record's span
/// in the scope node of its pair.
pub fn build_request(recs: &Vec<SpanRecord>) -> (req: ExportTraceServiceRequest)
    ensures
        tree_of(req, recs@),
{
    let mut out: Vec<ResourceSpans> = Vec::new();
    let mut i: usize = 0;
    while i < recs.len()
        invariant
            i <= recs@.len(),
            out@.len() == resource_starts(recs@, i as nat).len(),
            forall|a: int|
                0 <= a < out@.len() ==> resource_node(
                    #[trigger] out@[a],
                    recs@,
                    resource_starts(recs@, i as nat)[a],
                ),
        decreases recs@.len() - i,
    {
        if first_of_resource(recs, i) {
            let rs = build_resource(recs, i);
            out.push(rs);
        }
        i = i + 1;
    }
    ExportTraceServiceRequest { resource_spans: out }
}

} // verus!
