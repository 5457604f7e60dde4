//! Packet signatures and connection signatures, keyed HMAC-MD5 values.
use vstd::prelude::*;
use hmac::Mac;
use md5::Digest;
use crate::bytes::{le16, le32, push_u16, push_u32, push_all};
use crate::packet::{PrudpPacket, PacketView, PrudpHeader, options_bytes, encode_options};

verus! {

/// The MD5 digest of `data`.
pub uninterp spec fn md5_of(data: Seq<u8>) -> Seq<u8>;

/// The HMAC-MD5 of `msg` under `key`.
pub uninterp spec fn hmac_md5_of(key: Seq<u8>, msg: Seq<u8>) -> Seq<u8>;

/// Relies on md5::Md5::digest: a 16-byte digest that depends on the bytes alone.
#[verifier::external_body]
pub(crate) fn md5_digest(data: &[u8]) -> (r: Vec<u8>)
    ensures
        r@ == md5_of(data@),
        r@.len() == 16,
{
    md5::Md5::digest(data).to_vec()
}

/// Relies on hmac::Hmac<md5::Md5>: a 16-byte value that depends on the key and
/// message alone; `new_from_slice` takes keys of any length.
#[verifier::external_body]
pub(crate) fn hmac_md5(key: &[u8], msg: &[u8]) -> (r: Vec<u8>)
    ensures
        r@ == hmac_md5_of(key@, msg@),
        r@.len() == 16,
{
    let mut mac = <hmac::Hmac<md5::Md5> as Mac>::new_from_slice(key).unwrap();
    mac.update(msg);
    mac.finalize().into_bytes().to_vec()
}

/// The sum of the bytes of `s`.
pub open spec fn byte_sum(s: Seq<u8>) -> nat
    decreases s.len(),
{
    if s.len() == 0 {
        0
    } else {
        byte_sum(s.drop_last()) + s.last() as nat
    }
}

/// The header bytes that a signature covers: everything after the lengths.
pub open spec fn signed_header(h: PrudpHeader) -> Seq<u8> {
    seq![h.source_port.0, h.destination_port.0] + le16(h.types_and_flags.0) + seq![
        h.session_id,
        h.substream_id,
    ] + le16(h.sequence_id)
}

/// The message that a packet's signature is computed over.
pub open spec fn signature_message(
    p: PacketView,
    access_key: Seq<u8>,
    session_key: Seq<u8>,
    connection_signature: Seq<u8>,
) -> Seq<u8> {
    signed_header(p.header) + session_key + le32((byte_sum(access_key) % 0x1_0000_0000) as u32)
        + connection_signature + options_bytes(p.options) + p.payload
}

/// The signature of packet `p`: the HMAC-MD5, keyed with the MD5 of the access
/// key, of its signed header, the session key, the access key's byte sum, the
/// connection signature, its options and its payload.
pub open spec fn packet_signature(
    p: PacketView,
    access_key: Seq<u8>,
    session_key: Seq<u8>,
    connection_signature: Seq<u8>,
) -> Seq<u8> {
    hmac_md5_of(md5_of(access_key), signature_message(p, access_key, session_key, connection_signature))
}

/// The byte sum of `s`, modulo 2^32.
pub fn key_sum(s: &[u8]) -> (r: u32)
    ensures
        r == byte_sum(s@) % 0x1_0000_0000,
{
    let mut acc: u32 = 0;
    let mut i: usize = 0;
    while i < s.len()
        invariant
            i <= s@.len(),
            acc == byte_sum(s@.take(i as int)) % 0x1_0000_0000,
        decreases s@.len() - i,
    {
        assert(s@.take(i + 1).drop_last() =~= s@.take(i as int));
        acc = acc.wrapping_add(s[i] as u32);
        i = i + 1;
    }
    assert(s@.take(i as int) =~= s@);
    acc
}

/// Computes the signature of `p` (see `packet_signature`).
pub fn calculate_signature(
    p: &PrudpPacket,
    access_key: &[u8],
    session_key: &[u8],
    connection_signature: &[u8],
) -> (r: Vec<u8>)
    ensures
        r@ == packet_signature(p@, access_key@, session_key@, connection_signature@),
        r@.len() == 16,
{
    let mut msg: Vec<u8> = Vec::new();
    msg.push(p.header.source_port.0);
    msg.push(p.header.destination_port.0);
    push_u16(&mut msg, p.header.types_and_flags.0);
    msg.push(p.header.session_id);
    msg.push(p.header.substream_id);
    push_u16(&mut msg, p.header.sequence_id);
    push_all(&mut msg, session_key);
    push_u32(&mut msg, key_sum(access_key));
    push_all(&mut msg, connection_signature);
    encode_options(&p.options, &mut msg);
    push_all(&mut msg, p.payload.as_slice());
    assert(msg@ =~= signature_message(p@, access_key@, session_key@, connection_signature@));
    let key = md5_digest(access_key);
    hmac_md5(key.as_slice(), msg.as_slice())
}

impl PrudpPacket {
    /// Stamps the packet with its signature (see `packet_signature`).
    pub fn calculate_and_assign_signature(
        &mut self,
        access_key: &[u8],
        session_key: &[u8],
        connection_signature: &[u8],
    )
        ensures
            final(self).header == old(self).header,
            final(self).options == old(self).options,
            final(self).payload == old(self).payload,
            final(self)@.signature == packet_signature(
                old(self)@,
                access_key@,
                session_key@,
                connection_signature@,
            ),
    {
        self.signature = calculate_signature(self, access_key, session_key, connection_signature);
    }

    /// Whether the packet carries the signature that `packet_signature` gives.
    pub fn verify_signature(
        &self,
        access_key: &[u8],
        session_key: &[u8],
        connection_signature: &[u8],
    ) -> (r: bool)
        ensures
            r == (self@.signature == packet_signature(
                self@,
                access_key@,
                session_key@,
                connection_signature@,
            )),
    {
        let expected = calculate_signature(self, access_key, session_key, connection_signature);
        bytes_equal(expected.as_slice(), self.signature.as_slice())
    }
}

/// Whether `a` and `b` hold the same bytes.
pub fn bytes_equal(a: &[u8], b: &[u8]) -> (r: bool)
    ensures
        r == (a@ == b@),
{
    if a.len() != b.len() {
        return false;
    }
    let mut i: usize = 0;
    while i < a.len()
        invariant
            i <= a@.len() == b@.len(),
            a@.take(i as int) == b@.take(i as int),
        decreases a@.len() - i,
    {
        if a[i] != b[i] {
            return false;
        }
        i = i + 1;
        assert(a@.take(i as int) =~= a@.take(i - 1).push(a@[i - 1]));
        assert(b@.take(i as int) =~= b@.take(i - 1).push(b@[i - 1]));
    }
    assert(a@ =~= a@.take(i as int));
    assert(b@ =~= b@.take(i as int));
    true
}

} // verus!
