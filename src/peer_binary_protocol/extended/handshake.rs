use vstd::prelude::*;

use crate::peer_binary_protocol::MY_EXTENDED_UT_METADATA;

verus! {

/// The extension ids a peer offers, by extension name.
#[derive(Debug)]
pub struct Dictionary {
    pub ut_metadata: Option<u8>,
}

/// The dictionary of an extended handshake; absent entries are `None`.
#[derive(Debug)]
pub struct ExtendedHandshake {
    pub m: Dictionary,
    pub p: Option<u32>,
    pub v: Option<Vec<u8>>,
    pub yourip: Option<Vec<u8>>,
    pub ipv6: Option<Vec<u8>>,
    pub ipv4: Option<Vec<u8>>,
    pub reqq: Option<u32>,
    pub metadata_size: Option<u32>,
    pub complete_ago: Option<i32>,
    pub upload_only: Option<u32>,
}

impl Default for Dictionary {
    fn default() -> (r: Dictionary)
        ensures
            r.ut_metadata is None,
    {
        Dictionary { ut_metadata: None }
    }
}

impl ExtendedHandshake {
    /// Whether every entry but `m` is absent.
    pub open spec fn only_m(&self) -> bool {
        &&& self.p is None
        &&& self.v is None
        &&& self.yourip is None
        &&& self.ipv6 is None
        &&& self.ipv4 is None
        &&& self.reqq is None
        &&& self.metadata_size is None
        &&& self.complete_ago is None
        &&& self.upload_only is None
    }

    /// The handshake this library sends: it offers `ut_metadata` and nothing else.
    pub fn new() -> (r: Self)
        ensures
            r.m.ut_metadata == Some(MY_EXTENDED_UT_METADATA),
            r.only_m(),
    {
        let mut h = ExtendedHandshake::default();
        h.m = Dictionary { ut_metadata: Some(MY_EXTENDED_UT_METADATA) };
        h
    }
}

impl Default for ExtendedHandshake {
    fn default() -> (r: ExtendedHandshake)
        ensures
            r.m.ut_metadata is None,
            r.only_m(),
    {
        ExtendedHandshake {
            m: Dictionary { ut_metadata: None },
            p: None,
            v: None,
            yourip: None,
            ipv6: None,
            ipv4: None,
            reqq: None,
            metadata_size: None,
            complete_ago: None,
            upload_only: None,
        }
    }
}


/// Decimal digits of `n`, most significant first.
pub open spec fn decimal(n: nat) -> Seq<u8>
    decreases n,
{
    if n < 10 {
        seq![(48 + n) as u8]
    } else {
        decimal(n / 10).push((48 + n % 10) as u8)
    }
}

/// Decimal text of a signed integer.
pub open spec fn int_text(n: int) -> Seq<u8> {
    if n < 0 {
        seq![45u8] + decimal((-n) as nat)
    } else {
        decimal(n as nat)
    }
}

/// A bencoded integer: `i<n>e`.
pub open spec fn ben_int(n: int) -> Seq<u8> {
    seq![105u8] + int_text(n) + seq![101u8]
}

/// A bencoded byte string: `<length>:<bytes>`.
pub open spec fn ben_bytes(b: Seq<u8>) -> Seq<u8> {
    decimal(b.len()) + seq![58u8] + b
}

/// A dictionary entry with an integer value, or nothing when the value is absent.
pub open spec fn int_entry(key: Seq<u8>, v: Option<int>) -> Seq<u8> {
    match v {
        Some(x) => ben_bytes(key) + ben_int(x),
        None => Seq::empty(),
    }
}

/// A dictionary entry with a byte-string value, or nothing when the value is absent.
pub open spec fn bytes_entry(key: Seq<u8>, v: Option<Seq<u8>>) -> Seq<u8> {
    match v {
        Some(x) => ben_bytes(key) + ben_bytes(x),
        None => Seq::empty(),
    }
}

pub open spec fn opt_int_u8(v: Option<u8>) -> Option<int> {
    match v {
        Some(x) => Some(x as int),
        None => None,
    }
}

pub open spec fn opt_int_u32(v: Option<u32>) -> Option<int> {
    match v {
        Some(x) => Some(x as int),
        None => None,
    }
}

pub open spec fn opt_int_i32(v: Option<i32>) -> Option<int> {
    match v {
        Some(x) => Some(x as int),
        None => None,
    }
}

pub open spec fn opt_bytes(v: Option<Vec<u8>>) -> Option<Seq<u8>> {
    match v {
        Some(x) => Some(x@),
        None => None,
    }
}

/// The key `complete_ago`.
pub open spec fn key_complete_ago() -> Seq<u8> {
    seq![99u8, 111u8, 109u8, 112u8, 108u8, 101u8, 116u8, 101u8, 95u8, 97u8, 103u8, 111u8]
}

/// The key `ipv4`.
pub open spec fn key_ipv4() -> Seq<u8> {
    seq![105u8, 112u8, 118u8, 52u8]
}

/// The key `ipv6`.
pub open spec fn key_ipv6() -> Seq<u8> {
    seq![105u8, 112u8, 118u8, 54u8]
}

/// The key `m`.
pub open spec fn key_m() -> Seq<u8> {
    seq![109u8]
}

/// The key `metadata_size`.
pub open spec fn key_metadata_size() -> Seq<u8> {
    seq![109u8, 101u8, 116u8, 97u8, 100u8, 97u8, 116u8, 97u8, 95u8, 115u8, 105u8, 122u8, 101u8]
}

/// The key `p`.
pub open spec fn key_p() -> Seq<u8> {
    seq![112u8]
}

/// The key `reqq`.
pub open spec fn key_reqq() -> Seq<u8> {
    seq![114u8, 101u8, 113u8, 113u8]
}

/// The key `upload_only`.
pub open spec fn key_upload_only() -> Seq<u8> {
    seq![117u8, 112u8, 108u8, 111u8, 97u8, 100u8, 95u8, 111u8, 110u8, 108u8, 121u8]
}

/// The key `v`.
pub open spec fn key_v() -> Seq<u8> {
    seq![118u8]
}

/// The key `yourip`.
pub open spec fn key_yourip() -> Seq<u8> {
    seq![121u8, 111u8, 117u8, 114u8, 105u8, 112u8]
}

/// The key `ut_metadata`.
pub open spec fn key_ut_metadata() -> Seq<u8> {
    seq![117u8, 116u8, 95u8, 109u8, 101u8, 116u8, 97u8, 100u8, 97u8, 116u8, 97u8]
}

impl Dictionary {
    /// The bencoded form: a dictionary with the present entries.
    pub open spec fn bencode(&self) -> Seq<u8> {
        seq![100u8] + int_entry(key_ut_metadata(), opt_int_u8(self.ut_metadata)) + seq![101u8]
    }

    /// Appends the bencoded form to `buf`.
    pub fn write_bencode(&self, buf: &mut Vec<u8>)
        ensures
            final(buf)@ == old(buf)@ + self.bencode(),
    {
        buf.push(100u8);
        match self.ut_metadata {
            Some(x) => {
                let key: [u8; 11] = [117u8, 116u8, 95u8, 109u8, 101u8, 116u8, 97u8, 100u8, 97u8, 116u8, 97u8];
                assert(key@ =~= key_ut_metadata());
                write_bytes(buf, key.as_slice());
                write_int(buf, x as i64);
            },
            None => {},
        }
        buf.push(101u8);
        assert(buf@ =~= old(buf)@ + self.bencode());
    }
}

impl ExtendedHandshake {
    /// The bencoded form: a dictionary with the present entries, keys in
    /// ascending byte order; `m` is always present.
    pub open spec fn bencode(&self) -> Seq<u8> {
        seq![100u8] + int_entry(key_complete_ago(), opt_int_i32(self.complete_ago)) + bytes_entry(key_ipv4(), opt_bytes(self.ipv4)) + bytes_entry(key_ipv6(), opt_bytes(self.ipv6)) + ben_bytes(key_m()) + self.m.bencode() + int_entry(key_metadata_size(), opt_int_u32(self.metadata_size)) + int_entry(key_p(), opt_int_u32(self.p)) + int_entry(key_reqq(), opt_int_u32(self.reqq)) + int_entry(key_upload_only(), opt_int_u32(self.upload_only)) + bytes_entry(key_v(), opt_bytes(self.v)) + bytes_entry(key_yourip(), opt_bytes(self.yourip)) + seq![101u8]
    }

    /// The bencoded form of this handshake.
    pub fn to_bencode(&self) -> (r: Vec<u8>)
        ensures
            r@ == self.bencode(),
    {
        let mut buf: Vec<u8> = Vec::new();
        buf.push(100u8);
        let ghost s0 = buf@;
        let key: [u8; 12] = [99u8, 111u8, 109u8, 112u8, 108u8, 101u8, 116u8, 101u8, 95u8, 97u8, 103u8, 111u8];
        assert(key@ =~= key_complete_ago());
        write_i32_entry(&mut buf, key.as_slice(), self.complete_ago);
        let ghost s1 = buf@;
        assert(s1 =~= s0 + int_entry(key_complete_ago(), opt_int_i32(self.complete_ago)));
        let key: [u8; 4] = [105u8, 112u8, 118u8, 52u8];
        assert(key@ =~= key_ipv4());
        write_bytes_entry(&mut buf, key.as_slice(), &self.ipv4);
        let ghost s2 = buf@;
        assert(s2 =~= s1 + bytes_entry(key_ipv4(), opt_bytes(self.ipv4)));
        let key: [u8; 4] = [105u8, 112u8, 118u8, 54u8];
        assert(key@ =~= key_ipv6());
        write_bytes_entry(&mut buf, key.as_slice(), &self.ipv6);
        let ghost s3 = buf@;
        assert(s3 =~= s2 + bytes_entry(key_ipv6(), opt_bytes(self.ipv6)));
        let key: [u8; 1] = [109u8];
        assert(key@ =~= key_m());
        write_bytes(&mut buf, key.as_slice());
        self.m.write_bencode(&mut buf);
        let ghost s4 = buf@;
        assert(s4 =~= s3 + ben_bytes(key_m()) + self.m.bencode());
        let key: [u8; 13] = [109u8, 101u8, 116u8, 97u8, 100u8, 97u8, 116u8, 97u8, 95u8, 115u8, 105u8, 122u8, 101u8];
        assert(key@ =~= key_metadata_size());
        write_u32_entry(&mut buf, key.as_slice(), self.metadata_size);
        let ghost s5 = buf@;
        assert(s5 =~= s4 + int_entry(key_metadata_size(), opt_int_u32(self.metadata_size)));
        let key: [u8; 1] = [112u8];
        assert(key@ =~= key_p());
        write_u32_entry(&mut buf, key.as_slice(), self.p);
        let ghost s6 = buf@;
        assert(s6 =~= s5 + int_entry(key_p(), opt_int_u32(self.p)));
        let key: [u8; 4] = [114u8, 101u8, 113u8, 113u8];
        assert(key@ =~= key_reqq());
        write_u32_entry(&mut buf, key.as_slice(), self.reqq);
        let ghost s7 = buf@;
        assert(s7 =~= s6 + int_entry(key_reqq(), opt_int_u32(self.reqq)));
        let key: [u8; 11] = [117u8, 112u8, 108u8, 111u8, 97u8, 100u8, 95u8, 111u8, 110u8, 108u8, 121u8];
        assert(key@ =~= key_upload_only());
        write_u32_entry(&mut buf, key.as_slice(), self.upload_only);
        let ghost s8 = buf@;
        assert(s8 =~= s7 + int_entry(key_upload_only(), opt_int_u32(self.upload_only)));
        let key: [u8; 1] = [118u8];
        assert(key@ =~= key_v());
        write_bytes_entry(&mut buf, key.as_slice(), &self.v);
        let ghost s9 = buf@;
        assert(s9 =~= s8 + bytes_entry(key_v(), opt_bytes(self.v)));
        let key: [u8; 6] = [121u8, 111u8, 117u8, 114u8, 105u8, 112u8];
        assert(key@ =~= key_yourip());
        write_bytes_entry(&mut buf, key.as_slice(), &self.yourip);
        let ghost s10 = buf@;
        assert(s10 =~= s9 + bytes_entry(key_yourip(), opt_bytes(self.yourip)));
        buf.push(101u8);
        assert(buf@ =~= s0 + int_entry(key_complete_ago(), opt_int_i32(self.complete_ago)) + bytes_entry(key_ipv4(), opt_bytes(self.ipv4)) + bytes_entry(key_ipv6(), opt_bytes(self.ipv6)) + ben_bytes(key_m()) + self.m.bencode() + int_entry(key_metadata_size(), opt_int_u32(self.metadata_size)) + int_entry(key_p(), opt_int_u32(self.p)) + int_entry(key_reqq(), opt_int_u32(self.reqq)) + int_entry(key_upload_only(), opt_int_u32(self.upload_only)) + bytes_entry(key_v(), opt_bytes(self.v)) + bytes_entry(key_yourip(), opt_bytes(self.yourip)) + seq![101u8]);
        assert(buf@ =~= self.bencode());
        buf
    }
}

/// Appends an entry with an optional `u32` value.
fn write_u32_entry(buf: &mut Vec<u8>, key: &[u8], v: Option<u32>)
    ensures
        final(buf)@ == old(buf)@ + int_entry(key@, opt_int_u32(v)),
{
    if let Some(x) = v {
        write_bytes(buf, key);
        write_int(buf, x as i64);
    }
    assert(buf@ =~= old(buf)@ + int_entry(key@, opt_int_u32(v)));
}

/// Appends an entry with an optional `i32` value.
fn write_i32_entry(buf: &mut Vec<u8>, key: &[u8], v: Option<i32>)
    ensures
        final(buf)@ == old(buf)@ + int_entry(key@, opt_int_i32(v)),
{
    if let Some(x) = v {
        write_bytes(buf, key);
        write_int(buf, x as i64);
    }
    assert(buf@ =~= old(buf)@ + int_entry(key@, opt_int_i32(v)));
}

/// Appends an entry with an optional byte-string value.
fn write_bytes_entry(buf: &mut Vec<u8>, key: &[u8], v: &Option<Vec<u8>>)
    ensures
        final(buf)@ == old(buf)@ + bytes_entry(key@, opt_bytes(*v)),
{
    if let Some(x) = v {
        write_bytes(buf, key);
        write_bytes(buf, x.as_slice());
    }
    assert(buf@ =~= old(buf)@ + bytes_entry(key@, opt_bytes(*v)));
}

/// Appends the decimal digits of `n`.
fn write_decimal(buf: &mut Vec<u8>, n: u64)
    ensures
        final(buf)@ == old(buf)@ + decimal(n as nat),
    decreases n,
{
    if n >= 10 {
        write_decimal(buf, n / 10);
    }
    buf.push((48 + n % 10) as u8);
    assert(buf@ =~= old(buf)@ + decimal(n as nat));
}

/// Appends a bencoded integer.
fn write_int(buf: &mut Vec<u8>, n: i64)
    requires
        n > i64::MIN,
    ensures
        final(buf)@ == old(buf)@ + ben_int(n as int),
{
    buf.push(105u8);
    if n < 0 {
        buf.push(45u8);
        write_decimal(buf, (-n) as u64);
    } else {
        write_decimal(buf, n as u64);
    }
    buf.push(101u8);
    assert(buf@ =~= old(buf)@ + ben_int(n as int));
}

/// Appends a bencoded byte string.
fn write_bytes(buf: &mut Vec<u8>, b: &[u8])
    ensures
        final(buf)@ == old(buf)@ + ben_bytes(b@),
{
    write_decimal(buf, b.len() as u64);
    buf.push(58u8);
    let mut i: usize = 0;
    let ghost start = buf@;
    while i < b.len()
        invariant
            0 <= i <= b@.len(),
            buf@ == start + b@.subrange(0, i as int),
        decreases b@.len() - i,
    {
        buf.push(b[i]);
        i = i + 1;
        assert(buf@ =~= start + b@.subrange(0, i as int));
    }
    assert(b@.subrange(0, i as int) =~= b@);
    assert(buf@ =~= old(buf)@ + ben_bytes(b@));
}

} // verus!
