use vstd::prelude::*;

use super::id::Id;

verus! {

/// The client families recognised in an Azureus-style peer id.
#[derive(Debug)]
pub enum AzureusStyleKind {
    Deluge,
    LibTorrent,
    Transmission,
    Other([char; 2]),
}

/// A decoded Azureus-style peer id: `-XXvvvv-` followed by random bytes.
#[derive(Debug)]
pub struct AzureusStyle {
    pub kind: AzureusStyleKind,
    pub version: [char; 4],
}

/// The kinds of peer id that can be decoded.
#[derive(Debug)]
pub enum PeerId {
    AzureusStyle(AzureusStyle),
}

/// The client family named by the two letters of an Azureus-style peer id.
pub open spec fn kind_spec(b1: u8, b2: u8) -> AzureusStyleKind {
    if b1 == 68u8 && b2 == 69u8 {
        AzureusStyleKind::Deluge
    } else if (b1 == 108u8 && b2 == 116u8) || (b1 == 76u8 && b2 == 84u8) {
        AzureusStyleKind::LibTorrent
    } else if b1 == 84u8 && b2 == 82u8 {
        AzureusStyleKind::Transmission
    } else {
        AzureusStyleKind::Other([b1 as char, b2 as char])
    }
}

/// Whether a peer id has the Azureus-style frame: a dash at bytes 0 and 7.
pub open spec fn is_azureus_style(p: Seq<u8>) -> bool {
    p[0] == 45u8 && p[7] == 45u8
}

/// The four version characters of an Azureus-style peer id.
pub open spec fn version_spec(p: Seq<u8>) -> Seq<char> {
    Seq::new(4, |i: int| p[3 + i] as char)
}

/// The fixed first eight bytes of the peer ids this library generates: `-rQ0001-`.
pub open spec fn own_peer_id_prefix() -> Seq<u8> {
    seq![45u8, 114u8, 81u8, 48u8, 48u8, 48u8, 49u8, 45u8]
}

impl AzureusStyleKind {
    /// Recognises the client family from the two letters after the leading dash.
    pub fn from_bytes(b1: u8, b2: u8) -> (r: Self)
        ensures
            r == kind_spec(b1, b2),
    {
        if b1 == 68u8 && b2 == 69u8 {
            AzureusStyleKind::Deluge
        } else if (b1 == 108u8 && b2 == 116u8) || (b1 == 76u8 && b2 == 84u8) {
            AzureusStyleKind::LibTorrent
        } else if b1 == 84u8 && b2 == 82u8 {
            AzureusStyleKind::Transmission
        } else {
            AzureusStyleKind::Other([b1 as char, b2 as char])
        }
    }
}

/// Decodes an Azureus-style peer id, if the id has that frame.
pub fn try_decode_azureus_style(p: &Id) -> (r: Option<AzureusStyle>)
    ensures
        r is Some <==> is_azureus_style(p@),
        r matches Some(s) ==> s.kind == kind_spec(p@[1], p@[2]) && s.version@ == version_spec(
            p@,
        ),
{
    let p = p.bytes;
    if !(p[0] == 45u8 && p[7] == 45u8) {
        return None;
    }
    let mut version = ['0'; 4];
    let mut i: usize = 0;
    while i < 4
        invariant
            0 <= i <= 4,
            forall|j: int| 0 <= j < i ==> version@[j] == p@[3 + j] as char,
        decreases 4 - i,
    {
        version[i] = p[3 + i] as char;
        i = i + 1;
    }
    assert(version@ =~= version_spec(p@));
    let kind = AzureusStyleKind::from_bytes(p[1], p[2]);
    Some(AzureusStyle { kind, version })
}

/// Decodes a peer id into one of the known styles.
pub fn try_decode_peer_id(p: Id) -> (r: Option<PeerId>)
    ensures
        r is Some <==> is_azureus_style(p@),
        r matches Some(PeerId::AzureusStyle(s)) ==> s.kind == kind_spec(p@[1], p@[2])
            && s.version@ == version_spec(p@),
{
    match try_decode_azureus_style(&p) {
        Some(s) => Some(PeerId::AzureusStyle(s)),
        None => None,
    }
}

/// Relies on uuid::Uuid::new_v4 and Uuid::as_bytes: sixteen random bytes, big-endian,
/// with the version-4 nibble in byte 6 and the RFC variant bits in byte 8.
#[verifier::external_body]
fn random_uuid_bytes() -> (r: [u8; 16])
    ensures
        r@[6] & 0xf0u8 == 0x40u8,
        r@[8] & 0xc0u8 == 0x80u8,
{
    *uuid::Uuid::new_v4().as_bytes()
}

/// Builds this library's peer id from sixteen random bytes: the prefix `-rQ0001-`
/// followed by the last twelve of them.
pub fn peer_id_from_random(u: [u8; 16]) -> (r: Id)
    ensures
        r@ == own_peer_id_prefix() + u@.subrange(4, 16),
{
    let mut peer_id = [0u8; 20];
    let prefix: [u8; 8] = [45u8, 114u8, 81u8, 48u8, 48u8, 48u8, 49u8, 45u8];
    let mut i: usize = 0;
    while i < 20
        invariant
            0 <= i <= 20,
            forall|j: int| 0 <= j < i && j < 8 ==> peer_id@[j] == prefix@[j],
            forall|j: int| 8 <= j < i ==> peer_id@[j] == u@[j - 4],
        decreases 20 - i,
    {
        if i < 8 {
            peer_id[i] = prefix[i];
        } else {
            peer_id[i] = u[i - 4];
        }
        i = i + 1;
    }
    let r = Id { bytes: peer_id };
    assert(r@ =~= own_peer_id_prefix() + u@.subrange(4, 16));
    r
}

/// Generates a fresh peer id with this library's prefix and random remaining bytes.
pub fn generate_peer_id() -> (r: Id)
    ensures
        r@.len() == 20,
        r@.subrange(0, 8) == own_peer_id_prefix(),
        r@[10] & 0xf0u8 == 0x40u8,
        r@[12] & 0xc0u8 == 0x80u8,
{
    let u = random_uuid_bytes();
    let r = peer_id_from_random(u);
    assert(r@.subrange(0, 8) =~= own_peer_id_prefix());
    r
}

} // verus!
