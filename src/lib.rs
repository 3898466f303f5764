//! Encoding of in-memory span records into the binary OTLP trace export request.
//!
//! The pipeline is: each record is converted with its defaults substituted
//! ([`model`]), records are grouped by resource and scope identity into the
//! export tree ([`group`]), and the tree is serialised to protobuf bytes
//! ([`encode`], over the field framing of [`wire`]). [`decode`] reads the
//! fields back, and [`laws`] states what holds across these steps.

pub mod decode;
pub mod encode;
pub mod group;
pub mod laws;
pub mod model;
pub mod wire;

use vstd::prelude::*;
use crate::encode::{encode_request, request_bytes};
use crate::group::{build_request, tree_of};
use crate::model::{ExportTraceServiceRequest, SpanRecord};

verus! {

/// Encodes the records as the bytes of an OTLP `ExportTraceServiceRequest`:
/// the encoding of the tree that groups them by resource and scope identity.
pub fn encode_spans(records: &Vec<SpanRecord>) -> (r: Vec<u8>)
    ensures
        exists|req: ExportTraceServiceRequest| tree_of(req, records@) && r@ == request_bytes(req),
{
    let req = build_request(records);
    encode_request(&req)
}

} // verus!
