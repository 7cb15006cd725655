use vstd::prelude::*;

verus! {

/// A one-byte ASN.1 tag identifying a universal primitive or constructed type.
///
/// Acceptability is exact byte equality: no class or constructed-bit
/// generalization is performed.
#[derive(Clone, Copy, Debug)]
pub struct Tag(u8);

impl Tag {
    pub const INTEGER: u8 = 0x02;

    pub const OCTET_STRING: u8 = 0x04;

    pub const NULL: u8 = 0x05;

    pub const OBJECT_ID: u8 = 0x06;

    pub const SEQUENCE: u8 = 0x30;

    /// The tag byte this value stands for.
    pub closed spec fn spec_byte(self) -> u8 {
        self.0
    }

    pub fn from_byte(b: u8) -> (t: Self)
        ensures
            t.spec_byte() == b,
    {
        Tag(b)
    }

    pub fn byte(self) -> (b: u8)
        ensures
            b == self.spec_byte(),
    {
        self.0
    }

    /// Whether an offered tag byte is accepted where this tag is expected.
    pub fn acceptable(&self, offered: u8) -> (r: bool)
        ensures
            r == (offered == self.spec_byte()),
    {
        self.0 == offered
    }

    pub fn sequence() -> (t: Self)
        ensures
            t.spec_byte() == 0x30,
    {
        Tag(Tag::SEQUENCE)
    }

    pub fn integer() -> (t: Self)
        ensures
            t.spec_byte() == 0x02,
    {
        Tag(Tag::INTEGER)
    }

    pub fn octet_string() -> (t: Self)
        ensures
            t.spec_byte() == 0x04,
    {
        Tag(Tag::OCTET_STRING)
    }

    pub fn null() -> (t: Self)
        ensures
            t.spec_byte() == 0x05,
    {
        Tag(Tag::NULL)
    }

    pub fn object_id() -> (t: Self)
        ensures
            t.spec_byte() == 0x06,
    {
        Tag(Tag::OBJECT_ID)
    }
}

impl From<u8> for Tag {
    fn from(b: u8) -> (t: Self) {
        Tag(b)
    }
}

impl vstd::std_specs::convert::FromSpecImpl<u8> for Tag {
    open spec fn obeys_from_spec() -> bool {
        true
    }

    closed spec fn from_spec(b: u8) -> Tag {
        Tag(b)
    }
}

} // verus!
