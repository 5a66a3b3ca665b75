//! Framing: cutting a byte stream into raw packets, and the connection state
//! that decides what a packet id means.

use crate::data_types::MCEncode;
use crate::var_int::{
    lemma_encode_wf, lemma_scan_prefix, lemma_varint_round_trip, lemma_wf_decodes, var_int_limit,
    varint_decode, varint_encode, VarInt, VarIntParseError, VAR_INT_MAX_BYTES,
};
use vstd::prelude::*;
use vstd::slice::{slice_subrange, slice_to_vec};

verus! {

/// The phase a connection is in. The caller holds it and advances it; the codec
/// only reads it.
#[derive(Debug, Clone, Copy, PartialEq, Eq)]
pub enum ConnectionState {
    Handshaking,
    Status,
    Login,
    Configuration,
    Play,
}

/// A packet that was cut from the stream and not yet decoded.
#[derive(Debug)]
pub struct RawPacket {
    /// The length that the frame declared: that of the id and the data together.
    pub length: isize,
    /// The packet id.
    pub id: isize,
    /// The payload, without length and id.
    pub data: Vec<u8>,
}

/// The first byte of the probe that very old clients send without any framing.
pub const LEGACY_PING: u8 = 0xFE;

/// The number of bytes that a legacy probe is reported to take up.
pub const LEGACY_PING_CONSUMED: usize = 49;

/// What `parse_packet` makes of an input: the fields of the raw packet and the
/// number of bytes consumed.
pub struct Frame {
    pub length: int,
    pub id: int,
    pub data: Seq<u8>,
    pub consumed: nat,
}

/// The frame at the front of `buf`, or `None` where `buf` does not hold a whole
/// one.
///
/// A lone legacy probe byte is a frame by itself. Otherwise a frame is a
/// variable-length integer `length`, then `length` bytes: a variable-length
/// integer `id` and the data. An id that lies partly outside those `length`
/// bytes, or that an `isize` of this machine cannot hold, makes no frame.
pub open spec fn frame_at(buf: Seq<u8>) -> Option<Frame> {
    if buf.len() == 0 {
        None
    } else if buf[0] == LEGACY_PING {
        Some(
            Frame {
                length: 1,
                id: LEGACY_PING as int,
                data: Seq::empty(),
                consumed: LEGACY_PING_CONSUMED as nat,
            },
        )
    } else {
        match varint_decode(buf) {
            Ok((length, n)) => if buf.len() < n + length || length > isize::MAX {
                None
            } else {
                match varint_decode(buf.subrange(n as int, (n + length) as int)) {
                    Ok((id, k)) => if id > isize::MAX {
                        None
                    } else {
                        Some(
                            Frame {
                                length: length as int,
                                id: id as int,
                                data: buf.subrange((n + k) as int, (n + length) as int),
                                consumed: n + length,
                            },
                        )
                    },
                    Err(_) => None,
                }
            },
            Err(_) => None,
        }
    }
}

/// Cuts one raw packet from the front of `buf`. `None` means that `buf` holds no
/// whole frame yet.
pub fn parse_packet(buf: &Vec<u8>) -> (r: Option<(RawPacket, usize)>)
    ensures
        match frame_at(buf@) {
            Some(frame) => r matches Some((packet, used)) && packet.length == frame.length
                && packet.id == frame.id && packet.data@ == frame.data && used
                == frame.consumed,
            None => r is None,
        },
{
    if buf.len() == 0 {
        return None;
    }
    if buf[0] == LEGACY_PING {
        return Some(
            (RawPacket { length: 1, id: 0xFE, data: Vec::new() }, LEGACY_PING_CONSUMED),
        );
    }
    let bytes: &[u8] = buf.as_slice();
    let (length, shift): (VarInt, usize) = match VarInt::read(bytes) {
        Ok(prefix) => prefix,
        Err(_) => {
            return None;
        },
    };
    proof {
        lemma_scan_prefix(buf@, VAR_INT_MAX_BYTES as nat);
        lemma_wf_decodes(buf@.take(shift as int), buf@.skip(shift as int));
        assert(buf@.take(shift as int) + buf@.skip(shift as int) =~= buf@);
    }
    let declared: u64 = length.value();
    if ((bytes.len() - shift) as u64) < declared {
        return None;
    }
    let length: isize = match length.to_isize() {
        Ok(length) => length,
        Err(_) => {
            return None;
        },
    };
    let end: usize = shift + declared as usize;
    let body: &[u8] = slice_subrange(bytes, shift, end);
    let (id, id_size): (VarInt, usize) = match VarInt::read(body) {
        Ok(id) => id,
        Err(_) => {
            return None;
        },
    };
    proof {
        lemma_scan_prefix(body@, VAR_INT_MAX_BYTES as nat);
        lemma_wf_decodes(body@.take(id_size as int), body@.skip(id_size as int));
        assert(body@.take(id_size as int) + body@.skip(id_size as int) =~= body@);
    }
    let id: isize = match id.to_isize() {
        Ok(id) => id,
        Err(_) => {
            return None;
        },
    };
    let data: Vec<u8> = slice_to_vec(slice_subrange(bytes, shift + id_size, end));
    Some((RawPacket { length, id, data }, end))
}

/// A frame: the length of id and payload together, the id, the payload.
pub open spec fn frame(id: nat, payload: Seq<u8>) -> Seq<u8> {
    varint_encode(varint_encode(id).len() + payload.len()) + varint_encode(id) + payload
}

/// Whether a payload of `payload_len` bytes can be framed under `id`: the id and
/// the declared length fit a variable-length integer, and the length a `usize`.
pub open spec fn frameable(id: nat, payload_len: nat) -> bool {
    &&& id < var_int_limit()
    &&& varint_encode(id).len() + payload_len < var_int_limit()
    &&& varint_encode(id).len() + payload_len <= usize::MAX
}

/// Puts length and id in front of a payload.
pub(crate) fn frame_payload(id: usize, payload: Vec<u8>) -> (out: Vec<u8>)
    requires
        frameable(id as nat, payload@.len()),
    ensures
        out@ == frame(id as nat, payload@),
{
    let mut payload: Vec<u8> = payload;
    let id: VarInt = VarInt::new(id).unwrap();
    proof {
        lemma_encode_wf(id@.len());
    }
    let packet_length: VarInt = VarInt::new(payload.len() + id.bytes()).unwrap();
    let mut final_packet: Vec<u8> = packet_length.into_mc_data();
    let mut id_bytes: Vec<u8> = id.into_mc_data();
    final_packet.append(&mut id_bytes);
    final_packet.append(&mut payload);
    final_packet
}

/// The shape of a frame that is no legacy probe: it lies within the input, its
/// length prefix and its id take one to five bytes each, and the data are what
/// the declared length leaves after the id.
pub proof fn lemma_frame_shape(buf: Seq<u8>)
    requires
        frame_at(buf) is Some,
        buf[0] != LEGACY_PING,
    ensures
        ({
            let found = frame_at(buf)->Some_0;
            let (id, id_size) = varint_decode(
                buf.subrange(found.consumed - found.length, found.consumed as int),
            )->Ok_0;
            &&& found.consumed <= buf.len()
            &&& 1 <= found.consumed - found.length <= VAR_INT_MAX_BYTES
            &&& 1 <= id_size <= VAR_INT_MAX_BYTES
            &&& id == found.id
            &&& found.data.len() == found.length - id_size
        }),
{
    let (length, n) = varint_decode(buf)->Ok_0;
    lemma_scan_prefix(buf, VAR_INT_MAX_BYTES as nat);
    lemma_scan_prefix(buf.subrange(n as int, (n + length) as int), VAR_INT_MAX_BYTES as nat);
}

/// Short buffers: where the length prefix of a frame can be read, no input that
/// ends before the frame does holds a frame, wherever it is cut.
pub proof fn lemma_short_buffer(buf: Seq<u8>, k: nat)
    requires
        buf.len() > 0,
        buf[0] != LEGACY_PING,
        varint_decode(buf) is Ok,
        k < varint_decode(buf)->Ok_0.1 + varint_decode(buf)->Ok_0.0,
        k <= buf.len(),
    ensures
        frame_at(buf.take(k as int)) is None,
{
    let (length, n) = varint_decode(buf)->Ok_0;
    let cut = buf.take(k as int);
    lemma_scan_prefix(buf, VAR_INT_MAX_BYTES as nat);
    if k == 0 {
    } else if k < n {
        assert forall|i: int| 0 <= i < cut.len() implies cut[i] >= 128 by {
            assert(cut[i] == buf[i]);
        }
        lemma_unfinished(cut, VAR_INT_MAX_BYTES as nat);
    } else {
        let prefix = buf.take(n as int);
        let rest = cut.skip(n as int);
        assert(prefix + rest =~= cut);
        assert(prefix + buf.skip(n as int) =~= buf);
        lemma_wf_decodes(prefix, rest);
        lemma_wf_decodes(prefix, buf.skip(n as int));
    }
}

/// Fewer bytes than the limit, each announcing another, are a truncated integer.
proof fn lemma_unfinished(bytes: Seq<u8>, limit: nat)
    requires
        bytes.len() < limit,
        forall|i: int| 0 <= i < bytes.len() ==> bytes[i] >= 128,
    ensures
        crate::var_int::varint_scan(bytes, limit) == Err::<(nat, nat), VarIntParseError>(
            VarIntParseError::NonTerminated,
        ),
    decreases limit,
{
    if bytes.len() > 0 {
        let tail = bytes.skip(1);
        assert forall|i: int| 0 <= i < tail.len() implies tail[i] >= 128 by {
            assert(tail[i] == bytes[i + 1]);
        }
        lemma_unfinished(tail, (limit - 1) as nat);
    }
}

/// Round trip of a frame: what `frame` puts together, `frame_at` takes apart,
/// whatever follows it, unless the frame's first byte is that of a legacy probe.
pub proof fn lemma_frame_round_trip(id: nat, payload: Seq<u8>, rest: Seq<u8>)
    requires
        frameable(id, payload.len()),
        id <= isize::MAX,
        varint_encode(id).len() + payload.len() <= isize::MAX,
        frame(id, payload)[0] != LEGACY_PING,
    ensures
        frame_at(frame(id, payload) + rest) == Some(
            Frame {
                length: (varint_encode(id).len() + payload.len()) as int,
                id: id as int,
                data: payload,
                consumed: frame(id, payload).len(),
            },
        ),
{
    let id_bytes = varint_encode(id);
    let length = id_bytes.len() + payload.len();
    let prefix = varint_encode(length);
    let buf = frame(id, payload) + rest;
    lemma_encode_wf(length);
    assert(buf =~= prefix + (id_bytes + payload + rest));
    assert(buf[0] == frame(id, payload)[0]);
    lemma_varint_round_trip(length, id_bytes + payload + rest);
    let n = prefix.len();
    let body = buf.subrange(n as int, (n + length) as int);
    assert(body =~= id_bytes + payload);
    lemma_varint_round_trip(id, payload);
    assert(buf.subrange((n + id_bytes.len()) as int, (n + length) as int) =~= payload);
}

} // verus!
