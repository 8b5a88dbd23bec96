//! Packet framing: a packet goes on the wire as its length (the packet id's
//! VarInt plus the data) as a VarInt, the packet id as a VarInt, then the data.
use vstd::prelude::*;
use crate::varint::{
    decode_varint, decode_varint_at, lemma_decode_from_len, lemma_varint_len, VarintState, lemma_varint_roundtrip, varint_bytes, varint_len_spec,
    varint_length, write_varint,
};

verus! {

/// A packet: its id, its data, and the length that frames it.
#[derive(Debug)]
pub struct Packet {
    pub length: u32,
    pub packet_id: u32,
    pub data: Vec<u8>,
}

/// The length that frames a packet with id `packet_id` and `data_len` bytes
/// of data: the size of the id's VarInt plus the data length, the latter cut
/// to 32 bits.
pub open spec fn frame_length(packet_id: u32, data_len: nat) -> int {
    varint_len_spec(packet_id) + (data_len as u32)
}

/// The bytes that go on the wire for a packet with id `packet_id` and data
/// `data`.
pub open spec fn frame_bytes(packet_id: u32, data: Seq<u8>) -> Seq<u8> {
    varint_bytes(frame_length(packet_id, data.len()) as u32) + varint_bytes(packet_id) + data
}

impl Packet {
    /// A packet with the given id and data, and the length that frames them.
    ///
    /// The length must fit in 32 bits.
    pub fn new(packet_id: u32, data: Vec<u8>) -> (r: Packet)
        requires
            frame_length(packet_id, data@.len()) <= u32::MAX,
        ensures
            r.length == frame_length(packet_id, data@.len()),
            r.packet_id == packet_id,
            r.data@ == data@,
    {
        let data_len: u32 = #[verifier::truncate] (data.len() as u32);
        Packet { length: varint_length(packet_id) + data_len, packet_id, data }
    }
}

/// The bytes that `write_packet` sends for `packet`. The length on the wire
/// is computed afresh from the id and the data; the packet's own `length`
/// field is not read.
pub fn encode_packet(packet: Packet) -> (r: Vec<u8>)
    requires
        frame_length(packet.packet_id, packet.data@.len()) <= u32::MAX,
    ensures
        r@ == frame_bytes(packet.packet_id, packet.data@),
{
    let Packet { length: _, packet_id, data } = packet;
    let mut data = data;
    let data_len: u32 = #[verifier::truncate] (data.len() as u32);
    let mut buffer: Vec<u8> = Vec::new();
    write_varint(&mut buffer, varint_length(packet_id) + data_len);
    write_varint(&mut buffer, packet_id);
    let ghost framed = buffer@;
    let ghost body = data@;
    buffer.append(&mut data);
    assert(buffer@ =~= framed + body);
    buffer
}

/// How many data bytes follow the packet id in a packet framed by `length`.
///
/// The length must cover at least the packet id's VarInt.
pub fn packet_data_length(length: u32, packet_id: u32) -> (r: u32)
    requires
        length >= varint_len_spec(packet_id),
    ensures
        r == length - varint_len_spec(packet_id),
{
    length - varint_length(packet_id)
}

/// The length that frames a packet counts exactly the bytes that follow it
/// on the wire, the id's VarInt and the data, when the data has fewer than
/// 2^32 bytes.
pub proof fn lemma_frame_length_counts(packet_id: u32, data: Seq<u8>)
    requires
        data.len() <= u32::MAX,
    ensures
        frame_length(packet_id, data.len()) == (varint_bytes(packet_id) + data).len(),
{
    lemma_varint_len(packet_id);
}

/// What `read_packet` takes from the front of `s`: the length, the id, the
/// data, and the bytes after the packet. `None` where it cannot: a VarInt is
/// incomplete, the length does not cover the id, or too few data bytes
/// follow.
pub open spec fn read_frame_spec(s: Seq<u8>) -> Option<(u32, u32, Seq<u8>, Seq<u8>)> {
    match decode_varint(s) {
        None => None,
        Some((length, k1)) => {
            let s1 = s.skip(k1 as int);
            match decode_varint(s1) {
                None => None,
                Some((packet_id, k2)) => {
                    let s2 = s1.skip(k2 as int);
                    if length < varint_len_spec(packet_id) {
                        None
                    } else {
                        let n = length - varint_len_spec(packet_id);
                        if s2.len() < n {
                            None
                        } else {
                            Some((length, packet_id, s2.take(n), s2.skip(n)))
                        }
                    }
                },
            }
        },
    }
}

/// Every whole frame is read, whatever form its two VarInts take: the
/// length and id as decoded, the `length - |id's VarInt|` bytes after them
/// as the data, and the rest after that.
pub proof fn lemma_whole_frame_read(s: Seq<u8>, length: u32, k1: nat, packet_id: u32, k2: nat)
    requires
        decode_varint(s) == Some((length, k1)),
        decode_varint(s.skip(k1 as int)) == Some((packet_id, k2)),
        length >= varint_len_spec(packet_id),
        s.len() >= k1 + k2 + (length - varint_len_spec(packet_id)),
    ensures
        read_frame_spec(s) == Some(
            (
                length,
                packet_id,
                s.subrange((k1 + k2) as int, k1 + k2 + (length - varint_len_spec(packet_id))),
                s.skip(k1 + k2 + (length - varint_len_spec(packet_id))),
            ),
        ),
{
    let n = length - varint_len_spec(packet_id);
    let s2 = s.skip(k1 as int).skip(k2 as int);
    assert(s2.take(n) =~= s.subrange((k1 + k2) as int, k1 + k2 + n));
    assert(s2.skip(n) =~= s.skip(k1 + k2 + n));
}

/// Reads one packet from the front of `buf`, as `read_packet` reads it from
/// a connection: the packet and the number of bytes it took. `None` where
/// `buf` holds no whole packet: a VarInt is incomplete or longer than five
/// bytes, the length does not cover the id, or too few data bytes follow.
pub fn decode_frame(buf: &[u8]) -> (r: Option<(Packet, usize)>)
    ensures
        match r {
            Some((p, k)) => k <= buf@.len() && read_frame_spec(buf@) == Some(
                (p.length, p.packet_id, p.data@, buf@.skip(k as int)),
            ),
            None => read_frame_spec(buf@) is None,
        },
{
    let ghost s = buf@;
    assert(s.skip(0) =~= s);
    let (length, k1) = match decode_varint_at(buf, 0) {
        Some(found) => found,
        None => return None,
    };
    proof {
        lemma_decode_from_len(VarintState::start(), s);
    }
    let (packet_id, k2) = match decode_varint_at(buf, k1) {
        Some(found) => found,
        None => return None,
    };
    proof {
        lemma_decode_from_len(VarintState::start(), s.skip(k1 as int));
        assert(s.skip(k1 as int).skip(k2 as int) =~= s.skip((k1 + k2) as int));
    }
    let id_len = varint_length(packet_id);
    if length < id_len {
        return None;
    }
    let n = packet_data_length(length, packet_id);
    let start = k1 + k2;
    if buf.len() - start < n as usize {
        return None;
    }
    let end = start + n as usize;
    let mut data: Vec<u8> = Vec::new();
    let mut i = start;
    while i < end
        invariant
            start <= i <= end <= buf@.len(),
            data@ == buf@.subrange(start as int, i as int),
        decreases end - i,
    {
        data.push(buf[i]);
        i = i + 1;
        assert(data@ =~= buf@.subrange(start as int, i as int));
    }
    proof {
        let s2 = s.skip(start as int);
        assert(s2.take(n as int) =~= data@);
        assert(s2.skip(n as int) =~= s.skip(end as int));
    }
    Some((Packet { length, packet_id, data }, end))
}

/// Reading a packet back from the bytes that `write_packet` sent gives the
/// same id and data, the length that `Packet::new` gives them, and leaves
/// whatever followed; for every packet whose framing length fits in 32 bits.
pub proof fn lemma_packet_roundtrip(packet_id: u32, data: Seq<u8>, rest: Seq<u8>)
    requires
        varint_len_spec(packet_id) + data.len() <= u32::MAX,
    ensures
        read_frame_spec(frame_bytes(packet_id, data) + rest) == Some(
            (frame_length(packet_id, data.len()) as u32, packet_id, data, rest),
        ),
{
    let length = frame_length(packet_id, data.len()) as u32;
    let s = frame_bytes(packet_id, data) + rest;
    let tail = varint_bytes(packet_id) + data + rest;
    assert(s =~= varint_bytes(length) + tail);
    lemma_varint_roundtrip(length, tail);
    let s1 = s.skip(varint_bytes(length).len() as int);
    assert(s1 =~= tail);
    lemma_varint_roundtrip(packet_id, data + rest);
    assert(tail =~= varint_bytes(packet_id) + (data + rest));
    lemma_varint_len(packet_id);
    let s2 = s1.skip(varint_bytes(packet_id).len() as int);
    assert(s2 =~= data + rest);
    assert(s2.take(data.len() as int) =~= data);
    assert(s2.skip(data.len() as int) =~= rest);
}

} // verus!
