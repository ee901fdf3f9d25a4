//! The context of a PDU: a name for a non-default view of management data.
use vstd::prelude::*;

use crate::encodings::octetstring::{octets_bytes, octets_fit, octets_parse, octets_size, OctetString};
use crate::wire::{ByteOrder, Error};

verus! {

/// A non-default context, written exactly as an octet string.
#[derive(Clone, Debug, PartialEq, Eq, PartialOrd, Ord, Hash, Default)]
pub struct Context(pub OctetString);

impl View for Context {
    type V = Seq<char>;

    open spec fn view(&self) -> Seq<char> {
        self.0@
    }
}

impl Context {
    /// Serializes to bytes; fails when the name is too long for the length field.
    pub fn to_bytes(&self, bo: &ByteOrder) -> (r: Result<Vec<u8>, Error>)
        ensures
            r is Ok <==> octets_fit(self@),
            r matches Ok(v) ==> v@ == octets_bytes(self@, *bo),
            r is Err ==> r == Err::<Vec<u8>, Error>(Error::InvalidData),
    {
        self.0.to_bytes(bo)
    }

    /// The number of bytes of the wire form, padding included.
    pub fn byte_size(&self) -> (r: usize)
        requires
            octets_size(self@) <= usize::MAX,
        ensures
            r == octets_size(self@),
    {
        self.0.byte_size()
    }

    /// Deserializes from the start of `b`, as an octet string.
    pub fn from_bytes(b: &[u8], bo: &ByteOrder) -> (r: Result<Context, Error>)
        ensures
            r is Ok <==> octets_parse(b@, *bo) is Some,
            r matches Ok(c) ==> c@ == octets_parse(b@, *bo).unwrap(),
            r is Err ==> r == Err::<Context, Error>(Error::InvalidData),
    {
        let s = OctetString::from_bytes(b, bo)?;
        Ok(Context(s))
    }
}

} // verus!
