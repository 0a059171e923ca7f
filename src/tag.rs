//! A chunk's tag-tree payload, kept in its encoded form.
use vstd::prelude::*;
use crate::bytes::push_all;

verus! {

/// An encoded tag tree. Its structure is never inspected here: the bytes are
/// carried unchanged from decode to encode.
pub struct Tag {
    bytes: Vec<u8>,
}

impl View for Tag {
    type V = Seq<u8>;

    closed spec fn view(&self) -> Seq<u8> {
        self.bytes@
    }
}

impl Tag {
    /// The encoded bytes of this tag tree.
    pub fn to_bytes(&self) -> (r: Vec<u8>)
        ensures
            r@ == self@,
    {
        self.bytes.clone()
    }

    /// Borrows the encoded bytes.
    pub fn as_bytes(&self) -> (r: &[u8])
        ensures
            r@ == self@,
    {
        self.bytes.as_slice()
    }
}

/// Takes the tag tree that `data` encodes.
pub fn parse_tag(data: &[u8]) -> (r: Tag)
    ensures
        r@ == data@,
{
    let mut bytes: Vec<u8> = Vec::new();
    push_all(&mut bytes, data);
    Tag { bytes }
}

} // verus!
