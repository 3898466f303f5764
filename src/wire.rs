//! Protobuf field framing: keys, length-delimited fields and fixed-width integers.

use vstd::prelude::*;

verus! {

/// Wire type of a varint field.
pub const WIRE_VARINT: u64 = 0;

/// Wire type of a little-endian 64-bit field.
pub const WIRE_FIXED64: u64 = 1;

/// Wire type of a length-delimited field.
pub const WIRE_LEN: u64 = 2;

/// Wire type of a little-endian 32-bit field.
pub const WIRE_FIXED32: u64 = 5;

/// LEB128 encoding of `v`: seven bits per byte, least significant group first,
/// the high bit set on every byte but the last.
pub open spec fn varint(v: u64) -> Seq<u8>
    decreases v,
{
    if v < 128 {
        seq![v as u8]
    } else {
        seq![(v % 128 + 128) as u8] + varint(v / 128)
    }
}

/// The `n` low-order bytes of `v`, least significant first.
pub open spec fn le_bytes(v: u64, n: nat) -> Seq<u8>
    decreases n,
{
    if n == 0 {
        seq![]
    } else {
        seq![(v % 256) as u8] + le_bytes(v / 256, (n - 1) as nat)
    }
}

/// The key that opens field `tag` of wire type `wire_type`.
pub open spec fn key(tag: u64, wire_type: u64) -> Seq<u8> {
    varint((tag * 8 + wire_type) as u64)
}

/// A length-delimited field: key, byte length of the body, body.
pub open spec fn len_field(tag: u64, body: Seq<u8>) -> Seq<u8> {
    key(tag, WIRE_LEN) + varint(body.len() as u64) + body
}

/// Relies on prost::encoding::encode_varint: appends the LEB128 encoding of `value`.
#[verifier::external_body]
fn put_varint(buf: &mut Vec<u8>, value: u64)
    ensures
        final(buf)@ == old(buf)@ + varint(value),
{
    prost::encoding::encode_varint(value, buf)
}

/// Appends the key of field `tag` with wire type `wire_type`.
pub fn put_key(buf: &mut Vec<u8>, tag: u64, wire_type: u64)
    requires
        1 <= tag <= 536_870_911,
        wire_type < 8,
    ensures
        final(buf)@ == old(buf)@ + key(tag, wire_type),
{
    put_varint(buf, tag * 8 + wire_type);
}

/// Appends field `tag` holding `v` as a varint, unless `v` is zero.
pub fn put_varint_field(buf: &mut Vec<u8>, tag: u64, v: u64)
    requires
        1 <= tag <= 536_870_911,
    ensures
        final(buf)@ == old(buf)@ + (if v == 0 { Seq::<u8>::empty() } else { key(tag, WIRE_VARINT) + varint(v) }),
{
    if v != 0 {
        put_key(buf, tag, WIRE_VARINT);
        put_varint(buf, v);
    } else {
        assert(buf@ == buf@ + Seq::<u8>::empty());
    }
}

/// Appends `body` as the length-delimited field `tag`.
pub fn put_len_field(buf: &mut Vec<u8>, tag: u64, body: &[u8])
    requires
        1 <= tag <= 536_870_911,
    ensures
        final(buf)@ == old(buf)@ + len_field(tag, body@),
{
    put_key(buf, tag, WIRE_LEN);
    put_varint(buf, body.len() as u64);
    buf.extend_from_slice(body);
    assert(buf@ == old(buf)@ + len_field(tag, body@));
}

/// Appends the `n` low-order bytes of `v`, least significant first.
pub fn put_le(buf: &mut Vec<u8>, v: u64, n: usize)
    requires
        n <= 8,
    ensures
        final(buf)@ == old(buf)@ + le_bytes(v, n as nat),
{
    let mut rest: u64 = v;
    let mut i: usize = 0;
    while i < n
        invariant
            i <= n,
            old(buf)@ + le_bytes(v, n as nat) == buf@ + le_bytes(rest, (n - i) as nat),
        decreases n - i,
    {
        let ghost before = buf@;
        buf.push((rest % 256) as u8);
        assert(le_bytes(rest, (n - i) as nat) == seq![(rest % 256) as u8] + le_bytes(rest / 256, (n - i - 1) as nat));
        assert(before + le_bytes(rest, (n - i) as nat) == buf@ + le_bytes(rest / 256, (n - i - 1) as nat));
        rest = rest / 256;
        i = i + 1;
    }
    assert(le_bytes(rest, 0) == Seq::<u8>::empty());
    assert(buf@ + le_bytes(rest, 0) == buf@);
}

} // verus!
