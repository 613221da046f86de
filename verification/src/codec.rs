//! The wire format: a self-describing binary encoding of `Packet` and its
//! nested records, written to a stream with no outer length prefix. The
//! reader finds each record's boundary from the encoding itself.
//!
//! Layout: integers are little-endian and fixed-width; identities and
//! signatures are raw bytes; an address is four IPv4 octets packed in a
//! `u32` plus a port; a packet is a one-byte tag followed by its payload;
//! an address list is a `u64` count followed by the addresses.
//!
//! The canonical byte encoding of an `AccountTransaction` — the message
//! that is signed — is `encode_transaction`.

use vstd::prelude::*;
use crate::types::{
    AccountTransaction, Amount, Id, Packet, Signature, SignedAccountTransaction, SocketAddress,
    Timestamp,
};

verus! {

// ------------------------------------------------------------------
// The encoding, as spec functions.
// ------------------------------------------------------------------

/// A `u16` as two little-endian bytes.
pub open spec fn le_bytes_16(v: u16) -> Seq<u8> {
    seq![v as u8, (v >> 8) as u8]
}

/// A `u32` as four little-endian bytes.
pub open spec fn le_bytes_32(v: u32) -> Seq<u8> {
    seq![v as u8, (v >> 8) as u8, (v >> 16) as u8, (v >> 24) as u8]
}

/// A `u64` as eight little-endian bytes.
pub open spec fn le_bytes_64(v: u64) -> Seq<u8> {
    seq![
        v as u8,
        (v >> 8) as u8,
        (v >> 16) as u8,
        (v >> 24) as u8,
        (v >> 32) as u8,
        (v >> 40) as u8,
        (v >> 48) as u8,
        (v >> 56) as u8,
    ]
}

/// The `u16` two little-endian bytes stand for.
pub open spec fn u16_from_le(s: Seq<u8>) -> u16
    recommends
        s.len() == 2,
{
    (s[0] as u16) | ((s[1] as u16) << 8)
}

/// The `u32` four little-endian bytes stand for.
pub open spec fn u32_from_le(s: Seq<u8>) -> u32
    recommends
        s.len() == 4,
{
    (s[0] as u32) | ((s[1] as u32) << 8) | ((s[2] as u32) << 16) | ((s[3] as u32) << 24)
}

/// The `u64` eight little-endian bytes stand for.
pub open spec fn u64_from_le(s: Seq<u8>) -> u64
    recommends
        s.len() == 8,
{
    (s[0] as u64) | ((s[1] as u64) << 8) | ((s[2] as u64) << 16) | ((s[3] as u64) << 24) | ((
    s[4] as u64) << 32) | ((s[5] as u64) << 40) | ((s[6] as u64) << 48) | ((s[7] as u64) << 56)
}

/// The six-byte encoding of a socket address.
pub open spec fn spec_encode_address(a: SocketAddress) -> Seq<u8> {
    le_bytes_32(a.ip) + le_bytes_16(a.port)
}

/// The 80-byte canonical encoding of a transaction: recipient, sender,
/// amount (two's-complement bits), timestamp.
pub open spec fn spec_encode_trx(t: AccountTransaction) -> Seq<u8> {
    t.to@ + t.from@ + le_bytes_64(t.amount.0 as u64) + le_bytes_64(t.timestamp.0)
}

/// The 144-byte encoding of a signed transaction: signature, then the
/// canonical transaction bytes.
pub open spec fn spec_encode_signed(st: SignedAccountTransaction) -> Seq<u8> {
    st.signature@ + spec_encode_trx(st.trx)
}

/// The concatenated encodings of a list of addresses.
pub open spec fn spec_encode_address_list(addrs: Seq<SocketAddress>) -> Seq<u8>
    decreases addrs.len(),
{
    if addrs.len() == 0 {
        Seq::empty()
    } else {
        spec_encode_address_list(addrs.drop_last()) + spec_encode_address(addrs.last())
    }
}

/// The encoding of one packet: a tag byte, then the payload.
pub open spec fn spec_encode_packet(p: Packet) -> Seq<u8> {
    match p {
        Packet::GetPeers => seq![0u8],
        Packet::AddPeer(a) => seq![1u8] + spec_encode_address(a),
        Packet::Broadcast(st) => seq![2u8] + spec_encode_signed(st),
        Packet::ResponseGetPeers(v) => seq![3u8] + le_bytes_64(v@.len() as u64)
            + spec_encode_address_list(v@),
    }
}

/// The concatenated encodings of a list of packets.
pub open spec fn spec_encode_packet_list(ps: Seq<Packet>) -> Seq<u8>
    decreases ps.len(),
{
    if ps.len() == 0 {
        Seq::empty()
    } else {
        spec_encode_packet_list(ps.drop_last()) + spec_encode_packet(ps.last())
    }
}

// ------------------------------------------------------------------
// Round trips of the little-endian primitives.
// ------------------------------------------------------------------

/// Reading back the two bytes of a `u16` yields the `u16`.
pub proof fn lemma_le16_roundtrip(v: u16)
    ensures
        u16_from_le(le_bytes_16(v)) == v,
{
    assert(((v as u8) as u16) | ((((v >> 8) as u8) as u16) << 8) == v) by (bit_vector);
}

/// Reading back the four bytes of a `u32` yields the `u32`.
pub proof fn lemma_le32_roundtrip(v: u32)
    ensures
        u32_from_le(le_bytes_32(v)) == v,
{
    assert(((v as u8) as u32) | ((((v >> 8) as u8) as u32) << 8) | ((((v >> 16) as u8) as u32)
        << 16) | ((((v >> 24) as u8) as u32) << 24) == v) by (bit_vector);
}

/// Reading back the eight bytes of a `u64` yields the `u64`.
pub proof fn lemma_le64_roundtrip(v: u64)
    ensures
        u64_from_le(le_bytes_64(v)) == v,
{
    assert(((v as u8) as u64) | ((((v >> 8) as u8) as u64) << 8) | ((((v >> 16) as u8) as u64)
        << 16) | ((((v >> 24) as u8) as u64) << 24) | ((((v >> 32) as u8) as u64) << 32) | ((((v
        >> 40) as u8) as u64) << 40) | ((((v >> 48) as u8) as u64) << 48) | ((((v >> 56) as u8)
        as u64) << 56) == v) by (bit_vector);
}

/// Re-encoding the `u16` read from two bytes yields the same two bytes.
pub proof fn lemma_le16_reconstruct(s: Seq<u8>)
    requires
        s.len() == 2,
    ensures
        le_bytes_16(u16_from_le(s)) =~= s,
{
    let b0 = s[0];
    let b1 = s[1];
    assert((((b0 as u16) | ((b1 as u16) << 8)) as u8) == b0) by (bit_vector);
    assert(((((b0 as u16) | ((b1 as u16) << 8)) >> 8) as u8) == b1) by (bit_vector);
}

/// Re-encoding the `u32` read from four bytes yields the same four bytes.
pub proof fn lemma_le32_reconstruct(s: Seq<u8>)
    requires
        s.len() == 4,
    ensures
        le_bytes_32(u32_from_le(s)) =~= s,
{
    let b0 = s[0];
    let b1 = s[1];
    let b2 = s[2];
    let b3 = s[3];
    assert((((b0 as u32) | ((b1 as u32) << 8) | ((b2 as u32) << 16) | ((b3 as u32) << 24)) as u8) == b0) by (bit_vector);
    assert(((((b0 as u32) | ((b1 as u32) << 8) | ((b2 as u32) << 16) | ((b3 as u32) << 24)) >> 8) as u8) == b1) by (bit_vector);
    assert(((((b0 as u32) | ((b1 as u32) << 8) | ((b2 as u32) << 16) | ((b3 as u32) << 24)) >> 16) as u8) == b2) by (bit_vector);
    assert(((((b0 as u32) | ((b1 as u32) << 8) | ((b2 as u32) << 16) | ((b3 as u32) << 24)) >> 24) as u8) == b3) by (bit_vector);
}

/// Re-encoding the `u64` read from eight bytes yields the same eight bytes.
pub proof fn lemma_le64_reconstruct(s: Seq<u8>)
    requires
        s.len() == 8,
    ensures
        le_bytes_64(u64_from_le(s)) =~= s,
{
    let b0 = s[0];
    let b1 = s[1];
    let b2 = s[2];
    let b3 = s[3];
    let b4 = s[4];
    let b5 = s[5];
    let b6 = s[6];
    let b7 = s[7];
    assert((((b0 as u64) | ((b1 as u64) << 8) | ((b2 as u64) << 16) | ((b3 as u64) << 24) | ((b4 as u64) << 32) | ((b5 as u64) << 40) | ((b6 as u64) << 48) | ((b7 as u64) << 56)) as u8) == b0) by (bit_vector);
    assert(((((b0 as u64) | ((b1 as u64) << 8) | ((b2 as u64) << 16) | ((b3 as u64) << 24) | ((b4 as u64) << 32) | ((b5 as u64) << 40) | ((b6 as u64) << 48) | ((b7 as u64) << 56)) >> 8) as u8) == b1) by (bit_vector);
    assert(((((b0 as u64) | ((b1 as u64) << 8) | ((b2 as u64) << 16) | ((b3 as u64) << 24) | ((b4 as u64) << 32) | ((b5 as u64) << 40) | ((b6 as u64) << 48) | ((b7 as u64) << 56)) >> 16) as u8) == b2) by (bit_vector);
    assert(((((b0 as u64) | ((b1 as u64) << 8) | ((b2 as u64) << 16) | ((b3 as u64) << 24) | ((b4 as u64) << 32) | ((b5 as u64) << 40) | ((b6 as u64) << 48) | ((b7 as u64) << 56)) >> 24) as u8) == b3) by (bit_vector);
    assert(((((b0 as u64) | ((b1 as u64) << 8) | ((b2 as u64) << 16) | ((b3 as u64) << 24) | ((b4 as u64) << 32) | ((b5 as u64) << 40) | ((b6 as u64) << 48) | ((b7 as u64) << 56)) >> 32) as u8) == b4) by (bit_vector);
    assert(((((b0 as u64) | ((b1 as u64) << 8) | ((b2 as u64) << 16) | ((b3 as u64) << 24) | ((b4 as u64) << 32) | ((b5 as u64) << 40) | ((b6 as u64) << 48) | ((b7 as u64) << 56)) >> 40) as u8) == b5) by (bit_vector);
    assert(((((b0 as u64) | ((b1 as u64) << 8) | ((b2 as u64) << 16) | ((b3 as u64) << 24) | ((b4 as u64) << 32) | ((b5 as u64) << 40) | ((b6 as u64) << 48) | ((b7 as u64) << 56)) >> 48) as u8) == b6) by (bit_vector);
    assert(((((b0 as u64) | ((b1 as u64) << 8) | ((b2 as u64) << 16) | ((b3 as u64) << 24) | ((b4 as u64) << 32) | ((b5 as u64) << 40) | ((b6 as u64) << 48) | ((b7 as u64) << 56)) >> 56) as u8) == b7) by (bit_vector);
}

/// The amount bits survive the round trip through `u64`.
pub proof fn lemma_amount_bits_roundtrip(x: i64)
    ensures
        ((x as u64) as i64) == x,
{
    assert(((x as u64) as i64) == x) by (bit_vector);
}

/// An address list encodes to six bytes per address.
pub proof fn lemma_address_list_len(addrs: Seq<SocketAddress>)
    ensures
        spec_encode_address_list(addrs).len() == 6 * addrs.len(),
    decreases addrs.len(),
{
    if addrs.len() > 0 {
        lemma_address_list_len(addrs.drop_last());
    }
}

// ------------------------------------------------------------------
// Executable encoders.
// ------------------------------------------------------------------

/// Appends a byte slice to the output.
fn push_slice(out: &mut Vec<u8>, s: &[u8])
    ensures
        final(out)@ == old(out)@ + s@,
{
    let n = s.len();
    let mut i: usize = 0;
    while i < n
        invariant
            n == s.len(),
            0 <= i <= n,
            out@ == old(out)@ + s@.subrange(0, i as int),
        decreases n - i,
    {
        out.push(s[i]);
        proof {
            assert(out@ =~= old(out)@ + s@.subrange(0, i + 1));
        }
        i = i + 1;
    }
    proof {
        assert(old(out)@ + s@.subrange(0, n as int) =~= old(out)@ + s@);
    }
}

/// Appends a `u16` in little-endian order.
fn push_u16_le(out: &mut Vec<u8>, v: u16)
    ensures
        final(out)@ == old(out)@ + le_bytes_16(v),
{
    out.push(#[verifier::truncate] (v as u8));
    out.push(#[verifier::truncate] ((v >> 8) as u8));
    proof {
        assert(out@ =~= old(out)@ + le_bytes_16(v));
    }
}

/// Appends a `u32` in little-endian order.
fn push_u32_le(out: &mut Vec<u8>, v: u32)
    ensures
        final(out)@ == old(out)@ + le_bytes_32(v),
{
    out.push(#[verifier::truncate] (v as u8));
    out.push(#[verifier::truncate] ((v >> 8) as u8));
    out.push(#[verifier::truncate] ((v >> 16) as u8));
    out.push(#[verifier::truncate] ((v >> 24) as u8));
    proof {
        assert(out@ =~= old(out)@ + le_bytes_32(v));
    }
}

/// Appends a `u64` in little-endian order.
fn push_u64_le(out: &mut Vec<u8>, v: u64)
    ensures
        final(out)@ == old(out)@ + le_bytes_64(v),
{
    out.push(#[verifier::truncate] (v as u8));
    out.push(#[verifier::truncate] ((v >> 8) as u8));
    out.push(#[verifier::truncate] ((v >> 16) as u8));
    out.push(#[verifier::truncate] ((v >> 24) as u8));
    out.push(#[verifier::truncate] ((v >> 32) as u8));
    out.push(#[verifier::truncate] ((v >> 40) as u8));
    out.push(#[verifier::truncate] ((v >> 48) as u8));
    out.push(#[verifier::truncate] ((v >> 56) as u8));
    proof {
        assert(out@ =~= old(out)@ + le_bytes_64(v));
    }
}

/// Appends the six-byte encoding of an address.
fn push_address(out: &mut Vec<u8>, a: &SocketAddress)
    ensures
        final(out)@ == old(out)@ + spec_encode_address(*a),
{
    push_u32_le(out, a.ip);
    push_u16_le(out, a.port);
    proof {
        assert(out@ =~= old(out)@ + spec_encode_address(*a));
    }
}

/// Appends the canonical 80-byte encoding of a transaction.
fn push_transaction(out: &mut Vec<u8>, t: &AccountTransaction)
    ensures
        final(out)@ == old(out)@ + spec_encode_trx(*t),
{
    push_slice(out, t.to.0.as_slice());
    push_slice(out, t.from.0.as_slice());
    push_u64_le(out, #[verifier::truncate] (t.amount.0 as u64));
    push_u64_le(out, t.timestamp.0);
    proof {
        assert(out@ =~= old(out)@ + spec_encode_trx(*t));
    }
}

/// The canonical byte encoding of a transaction — the message that is
/// signed and verified.
pub fn encode_transaction(t: &AccountTransaction) -> (r: Vec<u8>)
    ensures
        r@ == spec_encode_trx(*t),
{
    let mut out: Vec<u8> = Vec::new();
    push_transaction(&mut out, t);
    proof {
        assert(out@ =~= spec_encode_trx(*t));
    }
    out
}

/// Encodes one packet for the wire.
pub fn encode_packet(p: &Packet) -> (r: Vec<u8>)
    ensures
        r@ == spec_encode_packet(*p),
{
    let mut out: Vec<u8> = Vec::new();
    match p {
        Packet::GetPeers => {
            out.push(0u8);
            proof {
                assert(out@ =~= spec_encode_packet(*p));
            }
        },
        Packet::AddPeer(a) => {
            out.push(1u8);
            push_address(&mut out, a);
            proof {
                assert(out@ =~= spec_encode_packet(*p));
            }
        },
        Packet::Broadcast(st) => {
            out.push(2u8);
            push_slice(&mut out, st.signature.0.as_slice());
            push_transaction(&mut out, &st.trx);
            proof {
                assert(out@ =~= spec_encode_packet(*p));
            }
        },
        Packet::ResponseGetPeers(addrs) => {
            out.push(3u8);
            push_u64_le(&mut out, addrs.len() as u64);
            let n = addrs.len();
            let mut i: usize = 0;
            while i < n
                invariant
                    n == addrs.len(),
                    0 <= i <= n,
                    out@ == seq![3u8] + le_bytes_64(addrs@.len() as u64)
                        + spec_encode_address_list(addrs@.subrange(0, i as int)),
                decreases n - i,
            {
                push_address(&mut out, &addrs[i]);
                proof {
                    assert(addrs@.subrange(0, i + 1).drop_last() =~= addrs@.subrange(0, i as int));
                    assert(out@ =~= seq![3u8] + le_bytes_64(addrs@.len() as u64)
                        + spec_encode_address_list(addrs@.subrange(0, i + 1)));
                }
                i = i + 1;
            }
            proof {
                assert(addrs@.subrange(0, n as int) =~= addrs@);
                assert(out@ =~= spec_encode_packet(*p));
            }
        },
    }
    out
}

// ------------------------------------------------------------------
// The decoder.
// ------------------------------------------------------------------

/// Why a byte sequence could not be decoded.
#[derive(Clone, Copy, Debug, PartialEq, Eq, Structural)]
pub enum DecodeError {
    /// The bytes do not begin with a complete, well-formed packet.
    Malformed,
}

/// Whether a complete packet encoding starts at the front of `s`.
pub open spec fn spec_has_packet(s: Seq<u8>) -> bool {
    if s.len() < 1 {
        false
    } else if s[0] == 0u8 {
        true
    } else if s[0] == 1u8 {
        s.len() >= 7
    } else if s[0] == 2u8 {
        s.len() >= 145
    } else if s[0] == 3u8 {
        s.len() >= 9 && s.len() >= 9 + 6 * (u64_from_le(s.subrange(1, 9)) as int)
    } else {
        false
    }
}

/// Reads a `u16` in little-endian order.
fn read_u16_le(buf: &[u8], off: usize) -> (r: u16)
    requires
        off + 2 <= buf.len(),
    ensures
        r == u16_from_le(buf@.subrange(off as int, off as int + 2)),
{
    let r = (buf[off] as u16) | ((buf[off + 1] as u16) << 8u16);
    proof {
        let s = buf@.subrange(off as int, off as int + 2);
        assert(s[0] == buf@[off as int] && s[1] == buf@[off as int + 1]);
    }
    r
}

/// Reads a `u32` in little-endian order.
fn read_u32_le(buf: &[u8], off: usize) -> (r: u32)
    requires
        off + 4 <= buf.len(),
    ensures
        r == u32_from_le(buf@.subrange(off as int, off as int + 4)),
{
    let r = (buf[off] as u32) | ((buf[off + 1] as u32) << 8u32) | ((buf[off + 2] as u32) << 16u32)
        | ((buf[off + 3] as u32) << 24u32);
    proof {
        let s = buf@.subrange(off as int, off as int + 4);
        assert(s[0] == buf@[off as int] && s[1] == buf@[off as int + 1] && s[2] == buf@[off as int
            + 2] && s[3] == buf@[off as int + 3]);
    }
    r
}

/// Reads a `u64` in little-endian order.
fn read_u64_le(buf: &[u8], off: usize) -> (r: u64)
    requires
        off + 8 <= buf.len(),
    ensures
        r == u64_from_le(buf@.subrange(off as int, off as int + 8)),
{
    let r = (buf[off] as u64) | ((buf[off + 1] as u64) << 8u64) | ((buf[off + 2] as u64) << 16u64)
        | ((buf[off + 3] as u64) << 24u64) | ((buf[off + 4] as u64) << 32u64) | ((buf[off
        + 5] as u64) << 40u64) | ((buf[off + 6] as u64) << 48u64) | ((buf[off + 7] as u64)
        << 56u64);
    proof {
        let s = buf@.subrange(off as int, off as int + 8);
        assert(s[0] == buf@[off as int] && s[1] == buf@[off as int + 1] && s[2] == buf@[off as int
            + 2] && s[3] == buf@[off as int + 3] && s[4] == buf@[off as int + 4] && s[5]
            == buf@[off as int + 5] && s[6] == buf@[off as int + 6] && s[7] == buf@[off as int
            + 7]);
    }
    r
}

/// Copies 32 bytes out of the buffer.
fn read_array_32(buf: &[u8], off: usize) -> (r: [u8; 32])
    requires
        off + 32 <= buf.len(),
    ensures
        r@ == buf@.subrange(off as int, off as int + 32),
{
    let mut arr = [0u8; 32];
    let mut i: usize = 0;
    while i < 32
        invariant
            off + 32 <= buf.len(),
            0 <= i <= 32,
            forall|k: int| 0 <= k < i ==> arr@[k] == buf@[off + k],
        decreases 32 - i,
    {
        arr[i] = buf[off + i];
        i = i + 1;
    }
    proof {
        assert(arr@ =~= buf@.subrange(off as int, off as int + 32));
    }
    arr
}

/// Copies 64 bytes out of the buffer.
fn read_array_64(buf: &[u8], off: usize) -> (r: [u8; 64])
    requires
        off + 64 <= buf.len(),
    ensures
        r@ == buf@.subrange(off as int, off as int + 64),
{
    let mut arr = [0u8; 64];
    let mut i: usize = 0;
    while i < 64
        invariant
            off + 64 <= buf.len(),
            0 <= i <= 64,
            forall|k: int| 0 <= k < i ==> arr@[k] == buf@[off + k],
        decreases 64 - i,
    {
        arr[i] = buf[off + i];
        i = i + 1;
    }
    proof {
        assert(arr@ =~= buf@.subrange(off as int, off as int + 64));
    }
    arr
}

/// Reads the six-byte encoding of a socket address.
fn read_address(buf: &[u8], off: usize) -> (r: SocketAddress)
    requires
        off + 6 <= buf.len(),
    ensures
        spec_encode_address(r) == buf@.subrange(off as int, off as int + 6),
{
    let ip = read_u32_le(buf, off);
    let port = read_u16_le(buf, off + 4);
    let r = SocketAddress { ip, port };
    proof {
        lemma_le32_reconstruct(buf@.subrange(off as int, off as int + 4));
        lemma_le16_reconstruct(buf@.subrange(off as int + 4, off as int + 6));
        assert(spec_encode_address(r) =~= buf@.subrange(off as int, off as int + 6));
    }
    r
}

/// Decodes one packet starting at `start`.
///
/// On success the consumed bytes are exactly the returned packet's
/// encoding; the decoder fails precisely when no complete, well-formed
/// packet starts at `start`.
pub fn decode_packet(buf: &[u8], start: usize) -> (r: Result<(Packet, usize), DecodeError>)
    requires
        start <= buf.len(),
    ensures
        match r {
            Ok((p, n)) => {
                &&& 1 <= n
                &&& start + n <= buf.len()
                &&& spec_encode_packet(p) == buf@.subrange(start as int, start as int + n)
                &&& spec_has_packet(buf@.skip(start as int))
            },
            Err(e) => {
                &&& e == DecodeError::Malformed
                &&& !spec_has_packet(buf@.skip(start as int))
            },
        },
{
    proof {
        assert(buf@.skip(start as int).len() == buf.len() - start);
    }
    let len = buf.len();
    if start >= len {
        return Err(DecodeError::Malformed);
    }
    let ghost s = buf@.skip(start as int);
    proof {
        assert(forall|k: int| 0 <= k < s.len() ==> s[k] == buf@[start + k]);
    }
    let tag = buf[start];
    assert(s[0] == tag);
    if tag == 0 {
        let p = Packet::GetPeers;
        proof {
            assert(spec_encode_packet(p) =~= buf@.subrange(start as int, start as int + 1));
        }
        Ok((p, 1))
    } else if tag == 1 {
        if len - start < 7 {
            return Err(DecodeError::Malformed);
        }
        let a = read_address(buf, start + 1);
        let p = Packet::AddPeer(a);
        proof {
            assert(spec_encode_packet(p) =~= buf@.subrange(start as int, start as int + 7));
        }
        Ok((p, 7))
    } else if tag == 2 {
        if len - start < 145 {
            return Err(DecodeError::Malformed);
        }
        let sig = read_array_64(buf, start + 1);
        let to = read_array_32(buf, start + 65);
        let from = read_array_32(buf, start + 97);
        let amount_bits = read_u64_le(buf, start + 129);
        let ts = read_u64_le(buf, start + 137);
        let st = SignedAccountTransaction {
            signature: Signature(sig),
            trx: AccountTransaction {
                to: Id(to),
                from: Id(from),
                amount: Amount(#[verifier::truncate] (amount_bits as i64)),
                timestamp: Timestamp(ts),
            },
        };
        let p = Packet::Broadcast(st);
        proof {
            lemma_amount_bits_roundtrip(st.trx.amount.0);
            assert((amount_bits as i64) as u64 == amount_bits) by (bit_vector);
            lemma_le64_reconstruct(buf@.subrange(start as int + 129, start as int + 137));
            lemma_le64_reconstruct(buf@.subrange(start as int + 137, start as int + 145));
            assert(spec_encode_packet(p) =~= buf@.subrange(start as int, start as int + 145));
        }
        Ok((p, 145))
    } else if tag == 3 {
        if len - start < 9 {
            return Err(DecodeError::Malformed);
        }
        let count = read_u64_le(buf, start + 1);
        let have = len - start;
        assert(s.subrange(1, 9) =~= buf@.subrange(start as int + 1, start as int + 9));
        if count > ((have - 9) / 6) as u64 {
            proof {
                assert(!spec_has_packet(s));
            }
            return Err(DecodeError::Malformed);
        }
        let count_us = count as usize;
        let mut addrs: Vec<SocketAddress> = Vec::new();
        let mut i: usize = 0;
        while i < count_us
            invariant
                count_us == count,
                start + 9 + 6 * count_us <= buf.len(),
                0 <= i <= count_us,
                addrs@.len() == i,
                spec_encode_address_list(addrs@) == buf@.subrange(
                    start as int + 9,
                    start as int + 9 + 6 * i,
                ),
            decreases count_us - i,
        {
            let a = read_address(buf, start + 9 + 6 * i);
            let ghost prev = addrs@;
            addrs.push(a);
            proof {
                assert(addrs@.drop_last() =~= prev);
                assert(addrs@.last() == a);
                assert(spec_encode_address_list(addrs@) == spec_encode_address_list(prev)
                    + spec_encode_address(a));
                assert(spec_encode_address_list(addrs@) =~= buf@.subrange(
                    start as int + 9,
                    start as int + 9 + 6 * (i + 1),
                ));
            }
            i = i + 1;
        }
        let n = 9 + 6 * count_us;
        let p = Packet::ResponseGetPeers(addrs);
        proof {
            lemma_le64_reconstruct(buf@.subrange(start as int + 1, start as int + 9));
            assert(spec_encode_packet(p) =~= buf@.subrange(start as int, start as int + n));
        }
        Ok((p, n))
    } else {
        Err(DecodeError::Malformed)
    }
}

/// Decodes packets from the front of the buffer until no further complete
/// packet remains, returning them with the number of bytes consumed.
///
/// The consumed prefix is exactly the concatenation of the returned
/// packets' encodings, and no complete packet starts at the remainder.
pub fn drain_packets(buf: &[u8]) -> (r: (Vec<Packet>, usize))
    ensures
        r.1 <= buf.len(),
        spec_encode_packet_list(r.0@) == buf@.subrange(0, r.1 as int),
        !spec_has_packet(buf@.skip(r.1 as int)),
{
    let mut packets: Vec<Packet> = Vec::new();
    let mut offset: usize = 0;
    loop
        invariant
            offset <= buf.len(),
            spec_encode_packet_list(packets@) == buf@.subrange(0, offset as int),
        ensures
            offset <= buf.len(),
            spec_encode_packet_list(packets@) == buf@.subrange(0, offset as int),
            !spec_has_packet(buf@.skip(offset as int)),
        decreases buf.len() - offset,
    {
        match decode_packet(buf, offset) {
            Ok((p, n)) => {
                let ghost prev = packets@;
                let ghost prev_packet = p;
                packets.push(p);
                proof {
                    assert(packets@.drop_last() =~= prev);
                    assert(packets@.last() == prev_packet);
                    assert(spec_encode_packet_list(packets@) == spec_encode_packet_list(prev)
                        + spec_encode_packet(prev_packet));
                    assert(spec_encode_packet_list(packets@) =~= buf@.subrange(
                        0,
                        offset as int + n,
                    ));
                }
                offset = offset + n;
            },
            Err(_) => {
                break;
            },
        }
    }
    (packets, offset)
}


// ------------------------------------------------------------------
// Laws of the format.
// ------------------------------------------------------------------

/// Packets with the same meaning: equal payloads, with address lists
/// compared by contents.
pub open spec fn packet_equiv(p1: Packet, p2: Packet) -> bool {
    match (p1, p2) {
        (Packet::GetPeers, Packet::GetPeers) => true,
        (Packet::AddPeer(a), Packet::AddPeer(b)) => a == b,
        (Packet::Broadcast(x), Packet::Broadcast(y)) => x == y,
        (Packet::ResponseGetPeers(u), Packet::ResponseGetPeers(v)) => u@ == v@,
        _ => false,
    }
}

/// The length of a packet's encoding, by variant.
pub proof fn lemma_encode_packet_len(p: Packet)
    ensures
        spec_encode_packet(p).len() == match p {
            Packet::GetPeers => 1int,
            Packet::AddPeer(_) => 7int,
            Packet::Broadcast(_) => 145int,
            Packet::ResponseGetPeers(v) => (9 + 6 * v@.len()) as int,
        },
{
    match p {
        Packet::ResponseGetPeers(v) => {
            lemma_address_list_len(v@);
        },
        _ => {},
    }
}

/// A stream that begins with a packet's encoding begins with a complete
/// packet: every encoding can be decoded, whatever follows it.
pub proof fn lemma_encoding_starts_packet(p: Packet, rest: Seq<u8>)
    ensures
        spec_has_packet(spec_encode_packet(p) + rest),
{
    let s = spec_encode_packet(p) + rest;
    lemma_encode_packet_len(p);
    match p {
        Packet::GetPeers => {
            assert(s[0] == 0u8);
        },
        Packet::AddPeer(_) => {
            assert(s[0] == 1u8);
        },
        Packet::Broadcast(_) => {
            assert(s[0] == 2u8);
        },
        Packet::ResponseGetPeers(v) => {
            assert(s[0] == 3u8);
            assert(vstd::std_specs::vec::spec_vec_len(&v) == v@.len());
            let c = v@.len() as u64;
            assert(s.subrange(1, 9) =~= le_bytes_64(c));
            lemma_le64_roundtrip(c);
            assert(u64_from_le(s.subrange(1, 9)) as int == v@.len());
        },
    }
}

/// Address lists of equal length with equal encodings are equal.
proof fn lemma_address_list_injective(u: Seq<SocketAddress>, v: Seq<SocketAddress>)
    requires
        u.len() == v.len(),
        spec_encode_address_list(u) == spec_encode_address_list(v),
    ensures
        u =~= v,
    decreases u.len(),
{
    if u.len() > 0 {
        let eu = spec_encode_address_list(u);
        let ev = spec_encode_address_list(v);
        lemma_address_list_len(u.drop_last());
        lemma_address_list_len(v.drop_last());
        let k = 6 * (u.len() - 1);
        assert(spec_encode_address_list(u.drop_last()) =~= eu.subrange(0, k));
        assert(spec_encode_address_list(v.drop_last()) =~= ev.subrange(0, k));
        lemma_address_list_injective(u.drop_last(), v.drop_last());
        let a = u.last();
        let b = v.last();
        assert(spec_encode_address(a) =~= eu.subrange(k, k + 6));
        assert(spec_encode_address(b) =~= ev.subrange(k, k + 6));
        assert(le_bytes_32(a.ip) =~= spec_encode_address(a).subrange(0, 4));
        assert(le_bytes_32(b.ip) =~= spec_encode_address(b).subrange(0, 4));
        assert(le_bytes_16(a.port) =~= spec_encode_address(a).subrange(4, 6));
        assert(le_bytes_16(b.port) =~= spec_encode_address(b).subrange(4, 6));
        lemma_le32_roundtrip(a.ip);
        lemma_le32_roundtrip(b.ip);
        lemma_le16_roundtrip(a.port);
        lemma_le16_roundtrip(b.port);
        assert(a == b);
        assert forall|k: int| 0 <= k < u.len() implies u[k] == v[k] by {
            if k < u.len() - 1 {
                assert(u[k] == u.drop_last()[k]);
                assert(v[k] == v.drop_last()[k]);
            }
        }
    }
}

/// The format is prefix-deterministic: two packets whose encodings are
/// both prefixes of one stream are the same packet with the same
/// encoding. Hence a byte stream determines the packets read from it,
/// and replaying the same bytes replays the same packets.
pub proof fn lemma_packet_prefix_deterministic(p1: Packet, p2: Packet, s: Seq<u8>)
    requires
        spec_encode_packet(p1).is_prefix_of(s),
        spec_encode_packet(p2).is_prefix_of(s),
    ensures
        packet_equiv(p1, p2),
        spec_encode_packet(p1) == spec_encode_packet(p2),
{
    let e1 = spec_encode_packet(p1);
    let e2 = spec_encode_packet(p2);
    lemma_encode_packet_len(p1);
    lemma_encode_packet_len(p2);
    assert(e1[0] == s[0] && e2[0] == s[0]);
    match (p1, p2) {
        (Packet::GetPeers, Packet::GetPeers) => {
            assert(e1 =~= e2);
        },
        (Packet::AddPeer(a), Packet::AddPeer(b)) => {
            assert(e1 =~= e2);
            assert(le_bytes_32(a.ip) =~= e1.subrange(1, 5));
            assert(le_bytes_32(b.ip) =~= e2.subrange(1, 5));
            assert(le_bytes_16(a.port) =~= e1.subrange(5, 7));
            assert(le_bytes_16(b.port) =~= e2.subrange(5, 7));
            lemma_le32_roundtrip(a.ip);
            lemma_le32_roundtrip(b.ip);
            lemma_le16_roundtrip(a.port);
            lemma_le16_roundtrip(b.port);
            assert(a == b);
        },
        (Packet::Broadcast(x), Packet::Broadcast(y)) => {
            assert(e1 =~= e2);
            assert(x.signature@ =~= e1.subrange(1, 65));
            assert(y.signature@ =~= e2.subrange(1, 65));
            assert(x.signature.0 =~= y.signature.0);
            assert(x.trx.to@ =~= e1.subrange(65, 97));
            assert(y.trx.to@ =~= e2.subrange(65, 97));
            assert(x.trx.to.0 =~= y.trx.to.0);
            assert(x.trx.from@ =~= e1.subrange(97, 129));
            assert(y.trx.from@ =~= e2.subrange(97, 129));
            assert(x.trx.from.0 =~= y.trx.from.0);
            assert(le_bytes_64(x.trx.amount.0 as u64) =~= e1.subrange(129, 137));
            assert(le_bytes_64(y.trx.amount.0 as u64) =~= e2.subrange(129, 137));
            lemma_le64_roundtrip(x.trx.amount.0 as u64);
            lemma_le64_roundtrip(y.trx.amount.0 as u64);
            lemma_amount_bits_roundtrip(x.trx.amount.0);
            lemma_amount_bits_roundtrip(y.trx.amount.0);
            assert(x.trx.amount == y.trx.amount);
            assert(le_bytes_64(x.trx.timestamp.0) =~= e1.subrange(137, 145));
            assert(le_bytes_64(y.trx.timestamp.0) =~= e2.subrange(137, 145));
            lemma_le64_roundtrip(x.trx.timestamp.0);
            lemma_le64_roundtrip(y.trx.timestamp.0);
            assert(x.trx.timestamp == y.trx.timestamp);
            assert(x == y);
        },
        (Packet::ResponseGetPeers(u), Packet::ResponseGetPeers(v)) => {
            assert(vstd::std_specs::vec::spec_vec_len(&u) == u@.len());
            assert(vstd::std_specs::vec::spec_vec_len(&v) == v@.len());
            let cu = u@.len() as u64;
            let cv = v@.len() as u64;
            assert(le_bytes_64(cu) =~= e1.subrange(1, 9));
            assert(le_bytes_64(cv) =~= e2.subrange(1, 9));
            lemma_le64_roundtrip(cu);
            lemma_le64_roundtrip(cv);
            assert(u@.len() == v@.len());
            assert(e1 =~= e2);
            lemma_address_list_len(u@);
            lemma_address_list_len(v@);
            assert(spec_encode_address_list(u@) =~= e1.subrange(9, e1.len() as int));
            assert(spec_encode_address_list(v@) =~= e2.subrange(9, e2.len() as int));
            lemma_address_list_injective(u@, v@);
        },
        _ => {
            assert(false);
        },
    }
}

} // verus!
