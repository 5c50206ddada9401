//! Byte framing of the collection writes that save and remove liked tracks.
use crate::spotify_ids::{base62_id, raw_bytes, raw_track_id};
use vstd::prelude::*;

verus! {

/// The base-128 varint encoding of a number: seven bits per byte, least significant group
/// first, with the high bit set on every byte but the last.
pub open spec fn varint(value: nat) -> Seq<u8>
    decreases value,
{
    if value < 128 {
        seq![value as u8]
    } else {
        seq![(value % 128 + 128) as u8] + varint(value / 128)
    }
}

/// The number a varint encodes, reading its first terminated run of bytes.
pub open spec fn varint_value(bytes: Seq<u8>) -> nat
    decreases bytes.len(),
{
    if bytes.len() == 0 {
        0
    } else if bytes[0] < 128 {
        bytes[0] as nat
    } else {
        (bytes[0] - 128) as nat + 128 * varint_value(bytes.drop_first())
    }
}

/// A varint reads back as the number it encodes, only its last byte has the high bit clear,
/// and a 64-bit number takes at most ten bytes.
pub proof fn lemma_varint_round_trip(value: nat)
    ensures
        varint_value(varint(value)) == value,
        varint(value).len() >= 1,
        forall|i: int| 0 <= i < varint(value).len() - 1 ==> #[trigger] varint(value)[i] >= 128,
        varint(value).last() < 128,
        value <= u64::MAX ==> varint(value).len() <= 10,
    decreases value,
{
    if value >= 128 {
        lemma_varint_round_trip(value / 128);
        let rest = varint(value / 128);
        assert(varint(value).drop_first() =~= rest);
        assert forall|i: int| 0 <= i < varint(value).len() - 1 implies #[trigger] varint(value)[i]
            >= 128 by {
            if i > 0 {
                assert(varint(value)[i] == rest[i - 1]);
            }
        }
    }
    if value <= u64::MAX {
        assert(varint_limit(10) == 0x40_0000_0000_0000_0000) by {
            reveal_with_fuel(varint_limit, 11);
        }
        lemma_varint_len_bound(value, 10);
    }
}

/// The numbers below `128^bytes` are those that fit in `bytes` varint bytes.
spec fn varint_limit(bytes: nat) -> nat
    decreases bytes,
{
    if bytes == 0 {
        1
    } else {
        128 * varint_limit((bytes - 1) as nat)
    }
}

proof fn lemma_varint_len_bound(value: nat, bytes: nat)
    requires
        value < varint_limit(bytes),
        bytes >= 1,
    ensures
        varint(value).len() <= bytes,
    decreases bytes,
{
    if value >= 128 {
        assert(bytes >= 2) by {
            if bytes == 1 {
                assert(varint_limit(0) == 1);
            }
        }
        lemma_varint_len_bound(value / 128, (bytes - 1) as nat);
    }
}

/// Appends `value` as a base-128 varint.
pub fn write_varint(output: &mut Vec<u8>, value: u64)
    ensures
        final(output)@ == old(output)@ + varint(value as nat),
{
    let ghost start = output@;
    let ghost original = value;
    let mut value = value;
    while value >= 0x80
        invariant
            start + varint(original as nat) == output@ + varint(value as nat),
        decreases value,
    {
        let byte: u8 = value as u8 | 0x80;
        proof {
            let v = value;
            assert((v as u8 | 0x80u8) == (v % 128 + 128) as u8) by (bit_vector)
                requires
                    v >= 0x80,
            ;
            assert(v >> 7u64 == v / 128) by (bit_vector);
            assert(varint(value as nat) == seq![byte] + varint((value / 128) as nat));
            assert(output@.push(byte) + varint((value / 128) as nat) =~= output@ + varint(
                value as nat,
            ));
        }
        output.push(byte);
        value = value >> 7;
    }
    let last: u8 = value as u8;
    proof {
        assert(output@.push(last) =~= output@ + varint(value as nat));
    }
    output.push(last);
}

/// The collection write that records a liked track as saved at `added_at` (Unix seconds), or
/// as removed.
pub open spec fn collection_item(raw_id: Seq<u8>, removed: bool, added_at: u64) -> Seq<u8> {
    seq![0x12u8, 0x10u8] + raw_id + if removed {
        seq![0x30u8, 1u8]
    } else {
        seq![0x28u8] + varint(added_at as nat)
    }
}

/// The framed collection message around one item: its field tag, its length and its bytes.
pub open spec fn collection_message(item: Seq<u8>) -> Seq<u8> {
    seq![0x0au8] + varint(item.len()) + item
}

/// The collection write for a track given by its base-62 id: a removal, or a save at
/// `added_at` (Unix time in seconds).  `None` when the id is not a valid base-62 id.
pub fn collection_write(track_id: &str, removed: bool, added_at: u64) -> (message: Option<Vec<u8>>)
    ensures
        match base62_id(track_id@) {
            Some(id) => message matches Some(m) && m@ == collection_message(
                collection_item(raw_bytes(id), removed, added_at),
            ),
            None => message is None,
        },
{
    match raw_track_id(track_id) {
        Some(raw) => Some(collection_frame(raw, removed, added_at)),
        None => None,
    }
}

/// Frames the collection write for a track, given its raw 16-byte id and, for a save, the
/// Unix time in seconds.
fn collection_frame(raw_id: [u8; 16], removed: bool, added_at: u64) -> (message: Vec<u8>)
    ensures
        message@ == collection_message(collection_item(raw_id@, removed, added_at)),
{
    let mut item: Vec<u8> = vec![0x12, 0x10];
    item.extend_from_slice(raw_id.as_slice());
    if removed {
        item.extend_from_slice(&[0x30, 1]);
    } else {
        item.push(0x28);
        write_varint(&mut item, added_at);
    }
    let mut collection: Vec<u8> = vec![0x0a];
    write_varint(&mut collection, item.len() as u64);
    collection.append(&mut item);
    proof {
        assert(collection@ =~= collection_message(collection_item(raw_id@, removed, added_at)));
    }
    collection
}

} // verus!
