//! Octet strings: a length, then the text's bytes padded with zeros to a
//! multiple of four.
use vstd::prelude::*;
use vstd::utf8::{decode_utf8, encode_utf8, valid_utf8};

use crate::wire::{bytes_to_u32, put_u32, u32_bytes, u32_value, lemma_u32_round_trip, ByteOrder, Error};

verus! {

/// An octet string holding text.
#[derive(Clone, Debug, PartialEq, Eq, PartialOrd, Ord, Hash, Default)]
pub struct OctetString(pub String);

impl View for OctetString {
    type V = Seq<char>;

    open spec fn view(&self) -> Seq<char> {
        self.0@
    }
}

/// `n` rounded up to a multiple of four.
pub open spec fn pad_len(n: nat) -> nat {
    if n % 4 == 0 {
        n
    } else {
        n + (4 - n % 4) as nat
    }
}

/// `n` zero bytes.
pub open spec fn zeros(n: nat) -> Seq<u8> {
    Seq::new(n, |i: int| 0u8)
}

/// Wire form of a text: the length of its bytes, the bytes, and zero padding.
pub open spec fn octets_bytes(s: Seq<char>, bo: ByteOrder) -> Seq<u8> {
    let c = encode_utf8(s);
    u32_bytes(c.len() as u32, bo) + c + zeros((pad_len(c.len()) - c.len()) as nat)
}

/// The number of bytes of the wire form of a text, padding included.
pub open spec fn octets_size(s: Seq<char>) -> nat {
    4 + pad_len(encode_utf8(s).len())
}

/// The text can be written: its length fits the 32-bit length field.
pub open spec fn octets_fit(s: Seq<char>) -> bool {
    encode_utf8(s).len() <= u32::MAX
}

/// The text at the start of `b`, if the bytes hold one. The padding after the
/// content is not read.
pub open spec fn octets_parse(b: Seq<u8>, bo: ByteOrder) -> Option<Seq<char>> {
    if b.len() < 4 || b.len() - 4 < u32_value(b, bo) {
        None
    } else {
        let c = b.subrange(4, 4 + u32_value(b, bo));
        if valid_utf8(c) {
            Some(decode_utf8(c))
        } else {
            None
        }
    }
}

/// The wire form of a text of `L` bytes takes `4 + ceil(L / 4) * 4` bytes:
/// exactly four for the empty text.
pub proof fn lemma_octets_padding(s: Seq<char>, bo: ByteOrder)
    ensures
        octets_bytes(s, bo).len() == octets_size(s),
        octets_size(s) == 4 + (encode_utf8(s).len() + 3) / 4 * 4,
        encode_utf8(s).len() == 0 ==> octets_bytes(s, bo).len() == 4,
{
    let n = encode_utf8(s).len();
    lemma_u32_round_trip(n as u32, bo, Seq::empty());
    assert(pad_len(n) == (n + 3) / 4 * 4) by (nonlinear_arith);
}

/// Decoding the wire form of a text gives the text back, whatever follows it.
pub proof fn lemma_octets_round_trip(s: Seq<char>, bo: ByteOrder, rest: Seq<u8>)
    requires
        octets_fit(s),
    ensures
        octets_parse(octets_bytes(s, bo) + rest, bo) == Some(s),
        octets_bytes(s, bo).len() == octets_size(s),
{
    let c = encode_utf8(s);
    let b = octets_bytes(s, bo) + rest;
    lemma_octets_padding(s, bo);
    lemma_u32_round_trip(c.len() as u32, bo, c + zeros((pad_len(c.len()) - c.len()) as nat) + rest);
    assert(b =~= u32_bytes(c.len() as u32, bo) + (c + zeros((pad_len(c.len()) - c.len()) as nat)
        + rest));
    assert(b.subrange(4, 4 + c.len() as int) =~= c);
    vstd::utf8::encode_utf8_valid_utf8(s);
    vstd::utf8::encode_utf8_decode_utf8(s);
}

/// A text cut off before the end of its content does not decode; its padding
/// alone may be missing.
pub proof fn lemma_octets_truncated(s: Seq<char>, bo: ByteOrder, k: int)
    requires
        octets_fit(s),
        0 <= k < 4 + encode_utf8(s).len(),
    ensures
        octets_parse(octets_bytes(s, bo).take(k), bo) is None,
{
    let c = encode_utf8(s);
    let p = octets_bytes(s, bo);
    let z = zeros((pad_len(c.len()) - c.len()) as nat);
    lemma_octets_round_trip(s, bo, Seq::empty());
    lemma_u32_round_trip(c.len() as u32, bo, c + z);
    let b = p.take(k);
    if k >= 4 {
        assert(b.subrange(0, 4) =~= p.subrange(0, 4));
        assert(u32_value(b, bo) == u32_value(p, bo));
        assert(p =~= u32_bytes(c.len() as u32, bo) + (c + z));
        assert(u32_value(p, bo) == c.len());
    }
}

/// A decoder reads only the length and the content: whatever bytes follow
/// the content, the text decodes.
pub proof fn lemma_octets_parse_content(s: Seq<char>, bo: ByteOrder, x: Seq<u8>)
    requires
        octets_fit(s),
        x.len() >= 4 + encode_utf8(s).len(),
        x.take(4 + encode_utf8(s).len() as int) == octets_bytes(s, bo).take(4 + encode_utf8(s).len() as int),
    ensures
        octets_parse(x, bo) == Some(s),
{
    let c = encode_utf8(s);
    let n: int = 4 + c.len() as int;
    let full = octets_bytes(s, bo);
    lemma_octets_round_trip(s, bo, Seq::empty());
    assert(full + Seq::<u8>::empty() =~= full);
    lemma_u32_round_trip(c.len() as u32, bo, c + zeros((pad_len(c.len()) - c.len()) as nat));
    assert(full =~= u32_bytes(c.len() as u32, bo) + (c + zeros((pad_len(c.len()) - c.len()) as nat)));
    assert(x.subrange(0, 4) =~= x.take(n).subrange(0, 4));
    assert(full.subrange(0, 4) =~= full.take(n).subrange(0, 4));
    assert(u32_value(x, bo) == u32_value(full, bo));
    assert(x.subrange(4, n) =~= x.take(n).subrange(4, n));
    assert(full.subrange(4, n) =~= full.take(n).subrange(4, n));
    assert(full.subrange(4, n) =~= c);
}

/// Relies on `String::from_utf8`: it succeeds exactly on valid UTF-8 and then
/// holds the characters those bytes encode.
#[verifier::external_body]
pub(crate) fn string_from_utf8(v: Vec<u8>) -> (r: Option<String>)
    ensures
        r is Some <==> valid_utf8(v@),
        r matches Some(s) ==> s@ == decode_utf8(v@),
{
    String::from_utf8(v).ok()
}

impl OctetString {
    /// Serializes to bytes; fails when the text is too long for the length field.
    pub fn to_bytes(&self, bo: &ByteOrder) -> (r: Result<Vec<u8>, Error>)
        ensures
            r is Ok <==> octets_fit(self@),
            r matches Ok(v) ==> v@ == octets_bytes(self@, *bo),
            r is Err ==> r == Err::<Vec<u8>, Error>(Error::InvalidData),
    {
        let content = self.0.as_str().as_bytes();
        let n = content.len();
        if n > 0xffff_ffffusize {
            return Err(Error::InvalidData);
        }
        let mut result: Vec<u8> = Vec::new();
        put_u32(&mut result, n as u32, bo);
        let ghost head = result@;
        let mut i: usize = 0;
        while i < n
            invariant
                n == content@.len(),
                content@ == encode_utf8(self@),
                i <= n,
                result@ == head + content@.subrange(0, i as int),
            decreases n - i,
        {
            result.push(content[i]);
            i = i + 1;
            assert(result@ =~= head + content@.subrange(0, i as int));
        }
        assert(content@.subrange(0, n as int) =~= content@);
        let ghost body = result@;
        let pad: usize = (4 - n % 4) % 4;
        assert(n + pad == pad_len(n as nat));
        let mut j: usize = 0;
        while j < pad
            invariant
                pad <= 3,
                j <= pad,
                result@ == body + zeros(j as nat),
            decreases pad - j,
        {
            result.push(0);
            j = j + 1;
            assert(result@ =~= body + zeros(j as nat));
        }
        Ok(result)
    }

    /// The number of bytes of the wire form, padding included.
    pub fn byte_size(&self) -> (r: usize)
        requires
            octets_size(self@) <= usize::MAX,
        ensures
            r == octets_size(self@),
    {
        let n = self.0.as_str().as_bytes().len();
        let pad: usize = (4 - n % 4) % 4;
        assert(n + pad == pad_len(n as nat));
        4 + n + pad
    }

    /// The number of bytes of the wire form, if a `usize` can hold it.
    pub fn checked_byte_size(&self) -> (r: Option<usize>)
        ensures
            r == (if octets_size(self@) <= usize::MAX {
                Some(octets_size(self@) as usize)
            } else {
                None::<usize>
            }),
    {
        let n = self.0.as_str().as_bytes().len();
        let pad: usize = (4 - n % 4) % 4;
        assert(n + pad == pad_len(n as nat));
        if n > usize::MAX - 4 - pad {
            None
        } else {
            Some(4 + n + pad)
        }
    }

    /// Deserializes from the start of `b`. Reads exactly the announced number of
    /// content bytes, which must be valid UTF-8; padding is left to the caller.
    pub fn from_bytes(b: &[u8], bo: &ByteOrder) -> (r: Result<OctetString, Error>)
        ensures
            r is Ok <==> octets_parse(b@, *bo) is Some,
            r matches Ok(s) ==> s@ == octets_parse(b@, *bo).unwrap(),
            r is Err ==> r == Err::<OctetString, Error>(Error::InvalidData),
    {
        let length = bytes_to_u32(b, bo)?;
        if length == 0 {
            assert(b@.subrange(4, 4) =~= Seq::<u8>::empty());
            assert(decode_utf8(Seq::<u8>::empty()) =~= Seq::<char>::empty());
            return Ok(OctetString(String::new()));
        }
        let n = length as usize;
        let blen = b.len();
        if blen - 4 < n {
            return Err(Error::InvalidData);
        }
        let mut content: Vec<u8> = Vec::new();
        let mut i: usize = 0;
        while i < n
            invariant
                blen == b@.len(),
                4 + n <= b@.len(),
                i <= n,
                content@ == b@.subrange(4, 4 + i),
            decreases n - i,
        {
            content.push(b[4 + i]);
            i = i + 1;
            assert(content@ =~= b@.subrange(4, 4 + i));
        }
        match string_from_utf8(content) {
            Some(s) => Ok(OctetString(s)),
            None => Err(Error::InvalidData),
        }
    }
}

} // verus!
