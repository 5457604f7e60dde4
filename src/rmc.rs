//! The `Any` holder of the RMC layer: a type name and the bytes of a value.
use vstd::prelude::*;
use vstd::utf8::{valid_utf8, decode_utf8, encode_utf8, encode_utf8_valid_utf8, encode_utf8_decode_utf8};
use vstd::string::StringSliceAdditionalSpecFns;
use crate::bytes::{le16, le32, u16_of, u32_of, push_u16, push_u32, push_all, read_u16, read_u32, copy_range};
use crate::bytes::{lemma_u16_round_trip, lemma_u32_round_trip};

verus! {

/// Relies on String::from_utf8: it succeeds exactly on valid UTF-8 and then
/// holds the characters those bytes encode.
#[verifier::external_body]
fn string_from_utf8(b: Vec<u8>) -> (r: Option<String>)
    ensures
        r is Some <==> valid_utf8(b@),
        r is Some ==> r.unwrap()@ == decode_utf8(b@),
{
    String::from_utf8(b).ok()
}

/// Why bytes are not an `Any`.
#[derive(Clone, Copy, Debug, PartialEq, Eq, Structural)]
pub enum RmcError {
    /// The bytes end before the value does.
    Truncated,
    /// The name is not NUL-terminated UTF-8.
    BadString,
}

/// A type name and the serialized value it names.
#[derive(Debug)]
pub struct Any {
    pub name: String,
    pub data: Vec<u8>,
}

/// The encoding of a string: its length with the terminator, its UTF-8 bytes
/// and a NUL.
pub open spec fn string_bytes(name: Seq<char>) -> Seq<u8> {
    le16((encode_utf8(name).len() + 1) as u16) + encode_utf8(name) + seq![0u8]
}

/// The encoding of an `Any`: the name, the data length plus four, the data
/// length, then the data.
pub open spec fn any_bytes(name: Seq<char>, data: Seq<u8>) -> Seq<u8> {
    string_bytes(name) + le32((data.len() + 4) as u32) + le32(data.len() as u32) + data
}

/// The name, data and length of the `Any` at the start of `s`, if any.
pub open spec fn parse_any(s: Seq<u8>) -> Option<(Seq<char>, Seq<u8>, nat)> {
    if s.len() < 2 {
        None
    } else {
        let l = u16_of(s[0], s[1]) as int;
        if l < 1 || s.len() < 2 + l + 8 || s[1 + l] != 0 || !valid_utf8(s.subrange(2, 1 + l)) {
            None
        } else {
            let dlen = u32_of(s[6 + l], s[7 + l], s[8 + l], s[9 + l]) as int;
            if s.len() < 10 + l + dlen {
                None
            } else {
                Some((decode_utf8(s.subrange(2, 1 + l)), s.subrange(10 + l, 10 + l + dlen), (10 + l + dlen) as nat))
            }
        }
    }
}

/// The error that decoding bytes `s` that hold no `Any` reports.
pub open spec fn any_error(s: Seq<u8>) -> RmcError {
    if s.len() < 2 {
        RmcError::Truncated
    } else {
        let l = u16_of(s[0], s[1]) as int;
        if l >= 1 && s.len() < 2 + l + 8 {
            RmcError::Truncated
        } else if l < 1 || s[1 + l] != 0 || !valid_utf8(s.subrange(2, 1 + l)) {
            RmcError::BadString
        } else {
            RmcError::Truncated
        }
    }
}

/// An `Any` fits its length fields.
pub open spec fn any_fits(name: Seq<char>, data: Seq<u8>) -> bool {
    encode_utf8(name).len() + 1 < 65536 && data.len() + 4 < 0x1_0000_0000
}

/// Decoding an encoded `Any`, with any bytes after it, gives it back.
pub proof fn lemma_any_round_trip(name: Seq<char>, data: Seq<u8>, rest: Seq<u8>)
    requires
        any_fits(name, data),
    ensures
        parse_any(any_bytes(name, data) + rest) == Some((name, data, any_bytes(name, data).len())),
{
    let e = encode_utf8(name);
    let s = any_bytes(name, data) + rest;
    let l = e.len() + 1;
    lemma_u16_round_trip(l as u16);
    lemma_u32_round_trip((data.len() + 4) as u32);
    lemma_u32_round_trip(data.len() as u32);
    encode_utf8_valid_utf8(name);
    encode_utf8_decode_utf8(name);
    assert(s.subrange(2, 1 + l as int) =~= e);
    assert(s[1 + l as int] == 0);
    assert(s.subrange(10 + l as int, 10 + l + data.len() as int) =~= data);
    assert(u32_of(s[6 + l as int], s[7 + l as int], s[8 + l as int], s[9 + l as int]) == data.len() as u32);
}

impl Any {
    /// Appends the encoding of this value (see `any_bytes`).
    pub fn serialize(&self, out: &mut Vec<u8>)
        requires
            any_fits(self.name@, self.data@),
        ensures
            final(out)@ == old(out)@ + any_bytes(self.name@, self.data@),
    {
        let b = self.name.as_str().as_bytes();
        push_u16(out, (b.len() + 1) as u16);
        push_all(out, b);
        out.push(0);
        push_u32(out, (self.data.len() + 4) as u32);
        push_u32(out, self.data.len() as u32);
        push_all(out, self.data.as_slice());
        assert(final(out)@ =~= old(out)@ + any_bytes(self.name@, self.data@));
    }

    /// Decodes the `Any` that starts at `pos` in `s`; on success also returns
    /// the position just after it.
    pub fn deserialize(s: &[u8], pos: usize) -> (r: Result<(Any, usize), RmcError>)
        requires
            pos <= s@.len(),
        ensures
            match r {
                Ok((a, next)) => parse_any(s@.skip(pos as int)) == Some((a.name@, a.data@, (next - pos) as nat))
                    && pos < next <= s@.len(),
                Err(e) => parse_any(s@.skip(pos as int)) is None && e == any_error(s@.skip(pos as int)),
            },
    {
        let ghost t = s@.skip(pos as int);
        let avail = s.len() - pos;
        if avail < 2 {
            return Err(RmcError::Truncated);
        }
        let l = read_u16(s, pos) as usize;
        if l >= 1 && avail < 2 + l + 8 {
            return Err(RmcError::Truncated);
        }
        if l < 1 || s[pos + 1 + l] != 0 {
            return Err(RmcError::BadString);
        }
        let raw = copy_range(s, pos + 2, pos + 1 + l);
        assert(raw@ =~= t.subrange(2, 1 + l as int));
        let name = match string_from_utf8(raw) {
            Some(n) => n,
            None => return Err(RmcError::BadString),
        };
        let dlen = read_u32(s, pos + 6 + l) as usize;
        if avail - (10 + l) < dlen {
            return Err(RmcError::Truncated);
        }
        let start = pos + 10 + l;
        let data = copy_range(s, start, start + dlen);
        assert(data@ =~= t.subrange(10 + l as int, 10 + l + dlen as int));
        Ok((Any { name, data }, start + dlen))
    }
}

} // verus!
