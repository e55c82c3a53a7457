use vstd::prelude::*;

use byteorder::ByteOrder;

use crate::common::id::{Id, ids_equal};

pub mod extended;

verus! {

/// Length of the fixed part of a handshake after the protocol string:
/// eight reserved bytes, the info hash and the peer id.
pub const HANDSHAKE_FIXED_LEN: usize = 48;

/// Largest protocol-string length that the one-byte length prefix can carry.
pub const MAX_PSTR_LEN: usize = 250;

/// The extended-message id this library gives to `ut_metadata`.
pub const MY_EXTENDED_UT_METADATA: u8 = 3;

/// The reserved bits that announce support for extended messaging (bit 20).
pub const RESERVED_EXTENDED: u64 = 0x100000;

/// Errors met while reading a peer-protocol message.
#[derive(Debug, PartialEq, Eq, Structural)]
pub enum MessageDeserializeError {
    /// The buffer is shorter than the message: the count is the bytes needed.
    NotEnoughData(usize),
    /// The length byte of the protocol string is out of range.
    InvalidStringLength(u8),
    /// The protocol string is not valid UTF-8.
    InvalidUtf8,
}

/// The opening message of a peer connection.
#[derive(Debug)]
pub struct Handshake {
    pub pstr: Vec<u8>,
    pub reserved: [u8; 8],
    pub info_hash: [u8; 20],
    pub peer_id: [u8; 20],
}

/// "BitTorrent protocol", the protocol string of version 1 of the peer protocol.
pub open spec fn pstr_bt1() -> Seq<u8> {
    seq![
        66u8, 105u8, 116u8, 84u8, 111u8, 114u8, 114u8, 101u8, 110u8, 116u8,
        32u8, 112u8, 114u8, 111u8, 116u8, 111u8, 99u8, 111u8, 108u8,
    ]
}

/// The eight big-endian bytes of `n`.
pub open spec fn be_u64_bytes(n: u64) -> Seq<u8> {
    Seq::new(8, |i: int| ((n >> (56 - 8 * i) as u64) & 0xffu64) as u8)
}

/// Whether reserved bytes announce extended messaging.
pub open spec fn reserved_supports_extended(reserved: Seq<u8>) -> bool {
    reserved[5] & 0x10u8 > 0
}

/// The wire form of a handshake with these fields: the length of the protocol
/// string in one byte, the string, the reserved bytes, the info hash, the peer id.
pub open spec fn handshake_bytes(
    pstr: Seq<u8>,
    reserved: Seq<u8>,
    info_hash: Seq<u8>,
    peer_id: Seq<u8>,
) -> Seq<u8> {
    seq![pstr.len() as u8] + pstr + reserved + info_hash + peer_id
}

/// The length of a handshake whose protocol string has `pstr_len` bytes.
pub open spec fn handshake_len(pstr_len: int) -> int {
    1 + pstr_len + 48
}

/// Whether a byte string is valid UTF-8.
pub uninterp spec fn utf8_valid(b: Seq<u8>) -> bool;

/// The protocol-string bytes of a handshake that starts `b`.
pub open spec fn pstr_bytes(b: Seq<u8>) -> Seq<u8> {
    b.subrange(1, 1 + b[0] as int)
}

/// Relies on std::str::from_utf8: it succeeds exactly on valid UTF-8, which
/// depends on the bytes alone; the empty string is valid.
#[verifier::external_body]
fn is_utf8(b: &[u8]) -> (r: bool)
    ensures
        r == utf8_valid(b@),
        b@.len() == 0 ==> r,
{
    std::str::from_utf8(b).is_ok()
}

/// Relies on byteorder's BigEndian::write_u64: it writes `n` as eight big-endian bytes.
#[verifier::external_body]
fn write_u64_be(n: u64) -> (r: [u8; 8])
    ensures
        r@ == be_u64_bytes(n),
{
    let mut buf = [0u8; 8];
    byteorder::BigEndian::write_u64(&mut buf, n);
    buf
}

/// Copies `len` bytes of `b` from `start` on into a new vector.
fn copy_range(b: &[u8], start: usize, len: usize) -> (r: Vec<u8>)
    requires
        start + len <= b.len(),
    ensures
        r@ == b@.subrange(start as int, start + len),
{
    let mut r: Vec<u8> = Vec::new();
    let mut i: usize = 0;
    while i < len
        invariant
            start + len <= b.len(),
            0 <= i <= len,
            r@ == b@.subrange(start as int, start + i),
        decreases len - i,
    {
        r.push(b[start + i]);
        i = i + 1;
        assert(r@ =~= b@.subrange(start as int, start + i));
    }
    r
}

/// Reads eight bytes of `b` from `start` on.
fn read_array_8(b: &[u8], start: usize) -> (r: [u8; 8])
    requires
        start + 8 <= b.len(),
    ensures
        r@ == b@.subrange(start as int, start + 8),
{
    let mut r = [0u8; 8];
    let mut i: usize = 0;
    while i < 8
        invariant
            start + 8 <= b.len(),
            0 <= i <= 8,
            forall|j: int| 0 <= j < i ==> r@[j] == b@[start + j],
        decreases 8 - i,
    {
        r[i] = b[start + i];
        i = i + 1;
    }
    assert(r@ =~= b@.subrange(start as int, start + 8));
    r
}

/// Reads twenty bytes of `b` from `start` on.
fn read_array_20(b: &[u8], start: usize) -> (r: [u8; 20])
    requires
        start + 20 <= b.len(),
    ensures
        r@ == b@.subrange(start as int, start + 20),
{
    let mut r = [0u8; 20];
    let mut i: usize = 0;
    while i < 20
        invariant
            start + 20 <= b.len(),
            0 <= i <= 20,
            forall|j: int| 0 <= j < i ==> r@[j] == b@[start + j],
        decreases 20 - i,
    {
        r[i] = b[start + i];
        i = i + 1;
    }
    assert(r@ =~= b@.subrange(start as int, start + 20));
    r
}

/// Appends all bytes of `src` to `buf`.
fn append_bytes(buf: &mut Vec<u8>, src: &[u8])
    ensures
        final(buf)@ == old(buf)@ + src@,
{
    let mut i: usize = 0;
    while i < src.len()
        invariant
            0 <= i <= src@.len(),
            buf@ == old(buf)@ + src@.subrange(0, i as int),
        decreases src@.len() - i,
    {
        buf.push(src[i]);
        i = i + 1;
        assert(buf@ =~= old(buf)@ + src@.subrange(0, i as int));
    }
    assert(src@.subrange(0, src@.len() as int) =~= src@);
}

impl Handshake {
    /// The wire form of this handshake.
    pub open spec fn wire(&self) -> Seq<u8> {
        handshake_bytes(self.pstr@, self.reserved@, self.info_hash@, self.peer_id@)
    }

    /// A version-1 handshake for `info_hash` from `peer_id` that announces
    /// extended messaging.
    pub fn new(info_hash: Id, peer_id: Id) -> (r: Handshake)
        ensures
            r.pstr@ == pstr_bt1(),
            r.reserved@ == be_u64_bytes(RESERVED_EXTENDED),
            r.info_hash@ == info_hash@,
            r.peer_id@ == peer_id@,
            reserved_supports_extended(r.reserved@),
    {
        let reserved = write_u64_be(RESERVED_EXTENDED);
        let pstr = vec![
            66u8, 105u8, 116u8, 84u8, 111u8, 114u8, 114u8, 101u8, 110u8, 116u8,
            32u8, 112u8, 114u8, 111u8, 116u8, 111u8, 99u8, 111u8, 108u8,
        ];
        assert(pstr@ =~= pstr_bt1());
        let n: u64 = 0x100000;
        assert(((n >> 16u64) & 0xffu64) as u8 == 0x10u8) by (bit_vector)
            requires n == 0x100000u64;
        assert(be_u64_bytes(RESERVED_EXTENDED)[5] == 0x10u8);
        assert(0x10u8 & 0x10u8 == 0x10u8) by (bit_vector);
        Handshake { pstr, reserved, info_hash: info_hash.bytes, peer_id: peer_id.bytes }
    }

    /// Whether the peer announced extended messaging (bit 20 of the reserved bytes).
    pub fn supports_extended(&self) -> (r: bool)
        ensures
            r == reserved_supports_extended(self.reserved@),
    {
        self.reserved[5] & 0x10 > 0
    }

    /// Reads a handshake from the front of `b`, given whether its protocol string
    /// (bytes 1 to `1 + b[0]`, when present) is valid UTF-8, and returns it with
    /// the number of bytes it took.
    pub fn deserialize_checked(b: &[u8], pstr_is_utf8: bool) -> (r: Result<
        (Handshake, usize),
        MessageDeserializeError,
    >)
        ensures
            b@.len() == 0 ==> r == Err::<(Handshake, usize), _>(
                MessageDeserializeError::NotEnoughData(1),
            ),
            b@.len() > 0 && b@.len() < handshake_len(b@[0] as int) ==> r == Err::<
                (Handshake, usize),
                _,
            >(MessageDeserializeError::NotEnoughData(handshake_len(b@[0] as int) as usize)),
            b@.len() > 0 && b@.len() >= handshake_len(b@[0] as int) && b@[0] > MAX_PSTR_LEN
                ==> r == Err::<(Handshake, usize), _>(
                MessageDeserializeError::InvalidStringLength(b@[0]),
            ),
            b@.len() > 0 && b@.len() >= handshake_len(b@[0] as int) && b@[0] <= MAX_PSTR_LEN
                && !pstr_is_utf8 ==> r == Err::<(Handshake, usize), _>(
                MessageDeserializeError::InvalidUtf8,
            ),
            r is Ok <==> (b@.len() > 0 && b@.len() >= handshake_len(b@[0] as int) && b@[0]
                <= MAX_PSTR_LEN && pstr_is_utf8),
            r matches Ok((h, n)) ==> n == handshake_len(b@[0] as int) && h.wire()
                == b@.subrange(0, n as int) && h.pstr@.len() == b@[0],
    {
        if b.len() == 0 {
            return Err(MessageDeserializeError::NotEnoughData(1));
        }
        let pstr_len = b[0];
        let expected_len: usize = 1 + pstr_len as usize + HANDSHAKE_FIXED_LEN;
        if b.len() < expected_len {
            return Err(MessageDeserializeError::NotEnoughData(expected_len));
        }
        if pstr_len as usize > MAX_PSTR_LEN {
            return Err(MessageDeserializeError::InvalidStringLength(pstr_len));
        }
        if !pstr_is_utf8 {
            return Err(MessageDeserializeError::InvalidUtf8);
        }
        let p = pstr_len as usize;
        let pstr = copy_range(b, 1, p);
        let reserved = read_array_8(b, 1 + p);
        let info_hash = read_array_20(b, 9 + p);
        let peer_id = read_array_20(b, 29 + p);
        let h = Handshake { pstr, reserved, info_hash, peer_id };
        assert(h.wire() =~= b@.subrange(0, expected_len as int));
        Ok((h, expected_len))
    }

    /// Reads a handshake from the front of `b`, returning it with the number of
    /// bytes it took. A shortfall is reported before anything else; the protocol
    /// string must be valid UTF-8.
    pub fn deserialize(b: &[u8]) -> (r: Result<(Handshake, usize), MessageDeserializeError>)
        ensures
            b@.len() == 0 ==> r == Err::<(Handshake, usize), _>(
                MessageDeserializeError::NotEnoughData(1),
            ),
            b@.len() > 0 && b@.len() < handshake_len(b@[0] as int) ==> r == Err::<
                (Handshake, usize),
                _,
            >(MessageDeserializeError::NotEnoughData(handshake_len(b@[0] as int) as usize)),
            b@.len() > 0 && b@.len() >= handshake_len(b@[0] as int) && b@[0] > MAX_PSTR_LEN
                ==> r == Err::<(Handshake, usize), _>(
                MessageDeserializeError::InvalidStringLength(b@[0]),
            ),
            b@.len() > 0 && b@.len() >= handshake_len(b@[0] as int) && b@[0] <= MAX_PSTR_LEN
                && !utf8_valid(pstr_bytes(b@)) ==> r == Err::<(Handshake, usize), _>(
                MessageDeserializeError::InvalidUtf8,
            ),
            r is Ok <==> (b@.len() > 0 && b@.len() >= handshake_len(b@[0] as int) && b@[0]
                <= MAX_PSTR_LEN && utf8_valid(pstr_bytes(b@))),
            r matches Ok((h, n)) ==> n == handshake_len(b@[0] as int) && h.wire()
                == b@.subrange(0, n as int) && h.pstr@.len() == b@[0],
    {
        let mut pstr_is_utf8 = false;
        if b.len() > 0 && b.len() >= 1 + b[0] as usize + HANDSHAKE_FIXED_LEN {
            let pstr = copy_range(b, 1, b[0] as usize);
            pstr_is_utf8 = is_utf8(pstr.as_slice());
        }
        Self::deserialize_checked(b, pstr_is_utf8)
    }

    /// Whether this handshake is for the torrent `info_hash`.
    pub fn info_hash_matches(&self, info_hash: &Id) -> (r: bool)
        ensures
            r == (self.info_hash@ == info_hash@),
    {
        ids_equal(&Id { bytes: self.info_hash }, info_hash)
    }

    /// Appends the wire form of this handshake to `buf`.
    pub fn serialize(&self, buf: &mut Vec<u8>)
        requires
            self.pstr@.len() <= MAX_PSTR_LEN,
        ensures
            final(buf)@ == old(buf)@ + self.wire(),
    {
        buf.push(self.pstr.len() as u8);
        append_bytes(buf, self.pstr.as_slice());
        append_bytes(buf, self.reserved.as_slice());
        append_bytes(buf, self.info_hash.as_slice());
        append_bytes(buf, self.peer_id.as_slice());
        assert(buf@ =~= old(buf)@ + self.wire());
    }
}

/// Reading back what `serialize` wrote gives the same fields: a handshake's wire
/// form determines its protocol string, reserved bytes, info hash and peer id.
pub proof fn lemma_handshake_wire_injective(h1: &Handshake, h2: &Handshake)
    requires
        h1.pstr@.len() <= MAX_PSTR_LEN,
        h2.pstr@.len() <= MAX_PSTR_LEN,
        h1.wire() == h2.wire(),
    ensures
        h1.pstr@ == h2.pstr@,
        h1.reserved@ == h2.reserved@,
        h1.info_hash@ == h2.info_hash@,
        h1.peer_id@ == h2.peer_id@,
{
    let w = h1.wire();
    assert(w[0] == h1.pstr@.len() as u8);
    assert(w[0] == h2.pstr@.len() as u8);
    let p = h1.pstr@.len() as int;
    assert(h1.pstr@ =~= w.subrange(1, 1 + p));
    assert(h2.pstr@ =~= w.subrange(1, 1 + p));
    assert(h1.reserved@ =~= w.subrange(1 + p, 9 + p));
    assert(h2.reserved@ =~= w.subrange(1 + p, 9 + p));
    assert(h1.info_hash@ =~= w.subrange(9 + p, 29 + p));
    assert(h2.info_hash@ =~= w.subrange(9 + p, 29 + p));
    assert(h1.peer_id@ =~= w.subrange(29 + p, 49 + p));
    assert(h2.peer_id@ =~= w.subrange(29 + p, 49 + p));
}

} // verus!
