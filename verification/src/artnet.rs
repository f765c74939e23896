//! ArtNet Output (ArtDMX) framing: a universe snapshot wrapped into the wire
//! frame, and the decoder for inbound frames. The internal universe id maps
//! onto the 15-bit port address with the low 8 bits as sub-uni and the next
//! 7 bits as net.

use vstd::prelude::*;
use crate::error::NetworkError;

verus! {

/// Most channel data one frame carries.
pub const MAX_FRAME_DATA: usize = 512;

/// Offset of the channel data inside a frame.
pub const FRAME_HEADER_LEN: usize = 18;

/// The fields of one Output frame.
#[derive(Debug, PartialEq)]
pub struct OutputFrame {
    pub sequence: u8,
    pub physical: u8,
    pub sub_uni: u8,
    pub net: u8,
    pub data: Vec<u8>,
}

/// The eight signature bytes every frame opens with: `Art-Net` and NUL.
pub open spec fn spec_signature() -> Seq<u8> {
    seq![0x41u8, 0x72u8, 0x74u8, 0x2du8, 0x4eu8, 0x65u8, 0x74u8, 0x00u8]
}

/// The wire bytes of an Output frame: signature, opcode 0x5000 little-endian,
/// protocol version 14 big-endian, sequence, physical port, sub-uni, net,
/// 16-bit data length big-endian, then the channel data.
pub open spec fn spec_encode(
    sequence: u8,
    physical: u8,
    sub_uni: u8,
    net: u8,
    data: Seq<u8>,
) -> Seq<u8> {
    spec_signature() + seq![0x00u8, 0x50u8] + seq![0x00u8, 14u8] + seq![
        sequence,
        physical,
        sub_uni,
        net,
        (data.len() / 256) as u8,
        (data.len() % 256) as u8,
    ] + data
}

/// True when the bytes are a well-formed Output frame: long enough, the
/// signature, opcode and version in place, and the length field naming
/// exactly the data that follows, at most 512 bytes of it.
pub open spec fn spec_frame_ok(b: Seq<u8>) -> bool {
    &&& b.len() >= 18
    &&& b.subrange(0, 8) == spec_signature()
    &&& b[8] == 0x00u8 && b[9] == 0x50u8
    &&& b[10] == 0x00u8 && b[11] == 14u8
    &&& b.len() - 18 == b[16] * 256 + b[17]
    &&& b.len() - 18 <= 512
}

/// Encodes the frame; the layout `spec_encode` gives.
pub fn encode_frame(f: &OutputFrame) -> (r: Vec<u8>)
    requires
        f.data@.len() <= 512,
    ensures
        r@ == spec_encode(f.sequence, f.physical, f.sub_uni, f.net, f.data@),
        r@.len() == 18 + f.data@.len(),
{
    let mut out: Vec<u8> = Vec::new();
    out.push(0x41);
    out.push(0x72);
    out.push(0x74);
    out.push(0x2d);
    out.push(0x4e);
    out.push(0x65);
    out.push(0x74);
    out.push(0x00);
    out.push(0x00);
    out.push(0x50);
    out.push(0x00);
    out.push(14);
    out.push(f.sequence);
    out.push(f.physical);
    out.push(f.sub_uni);
    out.push(f.net);
    let len = f.data.len();
    out.push((len / 256) as u8);
    out.push((len % 256) as u8);
    let mut i: usize = 0;
    let ghost header = out@;
    while i < len
        invariant
            len == f.data@.len(),
            i <= len,
            out@ == header + f.data@.take(i as int),
        decreases len - i,
    {
        out.push(f.data[i]);
        proof {
            assert(header + f.data@.take(i as int + 1) =~= (header + f.data@.take(i as int)).push(
                f.data@[i as int],
            ));
        }
        i += 1;
    }
    proof {
        assert(f.data@.take(len as int) =~= f.data@);
        assert(out@ =~= spec_encode(f.sequence, f.physical, f.sub_uni, f.net, f.data@));
    }
    out
}

/// Decodes a frame: the fields back out of the bytes, or `DecodeFailure`
/// exactly when the bytes are not a well-formed Output frame.
pub fn decode_frame(buf: &Vec<u8>) -> (r: Result<OutputFrame, NetworkError>)
    ensures
        r is Ok <==> spec_frame_ok(buf@),
        r is Ok ==> ({
            let f = r->Ok_0;
            &&& f.sequence == buf@[12]
            &&& f.physical == buf@[13]
            &&& f.sub_uni == buf@[14]
            &&& f.net == buf@[15]
            &&& f.data@ == buf@.subrange(18, buf@.len() as int)
        }),
        r is Err ==> r->Err_0 == NetworkError::DecodeFailure,
{
    let n = buf.len();
    if n < FRAME_HEADER_LEN {
        return Err(NetworkError::DecodeFailure);
    }
    let sig: [u8; 8] = [0x41, 0x72, 0x74, 0x2d, 0x4e, 0x65, 0x74, 0x00];
    let mut k: usize = 0;
    while k < 8
        invariant
            n == buf@.len(),
            n >= 18,
            k <= 8,
            (sig@ =~= spec_signature()),
            forall|j: int| 0 <= j < k ==> buf@[j] == spec_signature()[j],
        decreases 8 - k,
    {
        if buf[k] != sig[k] {
            return Err(NetworkError::DecodeFailure);
        }
        k += 1;
    }
    proof {
        assert(buf@.subrange(0, 8) =~= spec_signature());
    }
    if buf[8] != 0x00 || buf[9] != 0x50 {
        return Err(NetworkError::DecodeFailure);
    }
    if buf[10] != 0x00 || buf[11] != 14 {
        return Err(NetworkError::DecodeFailure);
    }
    let declared: usize = (buf[16] as usize) * 256 + (buf[17] as usize);
    if declared != n - FRAME_HEADER_LEN || declared > MAX_FRAME_DATA {
        return Err(NetworkError::DecodeFailure);
    }
    let mut data: Vec<u8> = Vec::new();
    let mut i: usize = 18;
    while i < n
        invariant
            n == buf@.len(),
            18 <= i <= n,
            data@ == buf@.subrange(18, i as int),
        decreases n - i,
    {
        data.push(buf[i]);
        proof {
            assert(buf@.subrange(18, i as int + 1) =~= buf@.subrange(18, i as int).push(
                buf@[i as int],
            ));
        }
        i += 1;
    }
    Ok(
        OutputFrame {
            sequence: buf[12],
            physical: buf[13],
            sub_uni: buf[14],
            net: buf[15],
            data,
        },
    )
}

/// Round trip: a frame encoded and decoded again comes back field for field,
/// data byte for byte.
pub proof fn lemma_frame_round_trip(
    sequence: u8,
    physical: u8,
    sub_uni: u8,
    net: u8,
    data: Seq<u8>,
)
    requires
        data.len() <= 512,
    ensures
        spec_frame_ok(spec_encode(sequence, physical, sub_uni, net, data)),
        spec_encode(sequence, physical, sub_uni, net, data)[12] == sequence,
        spec_encode(sequence, physical, sub_uni, net, data)[13] == physical,
        spec_encode(sequence, physical, sub_uni, net, data)[14] == sub_uni,
        spec_encode(sequence, physical, sub_uni, net, data)[15] == net,
        spec_encode(sequence, physical, sub_uni, net, data).subrange(
            18,
            spec_encode(sequence, physical, sub_uni, net, data).len() as int,
        ) == data,
{
    let e = spec_encode(sequence, physical, sub_uni, net, data);
    assert(e.len() == 18 + data.len());
    assert(e.subrange(0, 8) =~= spec_signature());
    assert(e[16] == (data.len() / 256) as u8 && e[17] == (data.len() % 256) as u8);
    assert(data.len() / 256 <= 2 && data.len() % 256 < 256);
    assert(e.len() - 18 == e[16] * 256 + e[17]);
    assert(e.subrange(18, e.len() as int) =~= data);
}

/// The sub-uni byte of an internal universe id: its low 8 bits.
pub fn sub_uni_of(universe_id: usize) -> (r: u8)
    ensures
        r == universe_id % 256,
{
    (universe_id % 256) as u8
}

/// The net byte of an internal universe id: its next 7 bits.
pub fn net_of(universe_id: usize) -> (r: u8)
    ensures
        r == (universe_id / 256) % 128,
{
    ((universe_id / 256) % 128) as u8
}

/// The sequence counter of the next frame: one more, wrapping.
pub fn next_sequence(s: u8) -> (r: u8)
    ensures
        r == (s + 1) % 256,
{
    if s == 255 {
        0
    } else {
        s + 1
    }
}

/// Fire-and-forget send outcome: complete iff every byte left; fewer is a
/// `PartialSend`, never retried.
pub fn check_send(bytes_sent: usize, frame_len: usize) -> (r: Result<(), NetworkError>)
    requires
        bytes_sent <= frame_len,
    ensures
        r is Ok <==> bytes_sent == frame_len,
        r is Err ==> r->Err_0 == NetworkError::PartialSend,
{
    if bytes_sent == frame_len {
        Ok(())
    } else {
        Err(NetworkError::PartialSend)
    }
}

/// The sending half the output task talks to; the host supplies the socket.
pub trait UniverseSender {
    /// Ships one universe's current 512 channels.
    fn send(&self, univ: &crate::universe::Universe);
}

/// One configured ArtNet peer: its address, and whether the socket was bound.
/// Sending is refused until the connection is established.
#[derive(Debug)]
pub struct ArtnetConnection {
    pub addr: String,
    pub established: bool,
}

impl ArtnetConnection {
    /// A connection that still has to be established.
    pub fn new(addr: String) -> (r: Self)
        ensures
            r.addr == addr,
            !r.established,
    {
        ArtnetConnection { addr, established: false }
    }

    /// Records that the host bound the socket.
    pub fn mark_established(&mut self)
        ensures
            final(self).addr == old(self).addr,
            final(self).established,
    {
        self.established = true;
    }

    /// The frame to send for one universe snapshot, or `NotEstablished` while
    /// the socket is not bound: the caller must establish the connection
    /// first.
    pub fn frame_for(&self, universe_id: usize, sequence: u8, data: &Vec<u8>) -> (r: Result<
        Vec<u8>,
        NetworkError,
    >)
        requires
            data@.len() <= 512,
        ensures
            r is Ok <==> self.established,
            r is Ok ==> r->Ok_0@ == spec_encode(
                sequence,
                0,
                (universe_id % 256) as u8,
                ((universe_id / 256) % 128) as u8,
                data@,
            ),
            r is Err ==> r->Err_0 == NetworkError::NotEstablished,
    {
        if !self.established {
            return Err(NetworkError::NotEstablished);
        }
        let frame = OutputFrame {
            sequence,
            physical: 0,
            sub_uni: sub_uni_of(universe_id),
            net: net_of(universe_id),
            data: crate::artnet::copy_bytes(data),
        };
        Ok(encode_frame(&frame))
    }
}

/// Copies a byte vector.
pub fn copy_bytes(v: &Vec<u8>) -> (r: Vec<u8>)
    ensures
        r@ == v@,
{
    let mut out: Vec<u8> = Vec::new();
    let n = v.len();
    let mut i: usize = 0;
    while i < n
        invariant
            n == v@.len(),
            i <= n,
            out@ == v@.take(i as int),
        decreases n - i,
    {
        out.push(v[i]);
        proof {
            assert(out@ =~= v@.take(i as int + 1));
        }
        i += 1;
    }
    proof {
        assert(v@.take(n as int) =~= v@);
    }
    out
}

} // verus!
