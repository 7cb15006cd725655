use vstd::layout::size_of;
use vstd::prelude::*;

use crate::codec::Type;
use crate::encoder::{encoded_length_for, Encoder};
use crate::err::Error;
use crate::integer::{be_uint, lemma_canon_zero_pad, spec_is_neg, Integer};
use crate::parser::Parser;
use crate::wire::{lemma_take_roundtrip, spec_take, tlv};

verus! {

/// The platform word is at least one byte wide, so a one-byte enumeration
/// value is never too wide for `as_usize`.
pub proof fn lemma_usize_at_least_one_byte()
    ensures
        size_of::<usize>() >= 1,
{
    vstd::layout::unsigned_int_max_values();
    if size_of::<usize>() == 0 {
        vstd::arithmetic::power::lemma_pow0(256);
        assert(usize::MAX as nat == 0);
        assert(usize::MAX >= 0xffff);
    }
}

/// What parsing a small-integer enumeration from the front of `s` yields:
/// the remainder when the integer is one of the `accepted` values, the exact
/// error otherwise.
pub open spec fn enum_dec_res(s: Seq<u8>, accepted: Set<nat>) -> Result<Seq<u8>, Error> {
    match spec_take(s, 0x02) {
        Err(e) => Err(e),
        Ok((b, r)) => if spec_is_neg(b) || b.len() > size_of::<usize>() {
            Err(Error::IntegerOutOfRange)
        } else if accepted.contains(be_uint(b)) {
            Ok(r)
        } else {
            Err(Error::UnhandledEnumValue)
        },
    }
}

/// How a parsed enumeration value relates to the consumed bytes: the leading
/// integer TLV is non-negative, fits the platform word, and denotes `value`.
pub open spec fn enum_dec_ok(s: Seq<u8>, value: nat, rest: Seq<u8>) -> bool {
    &&& spec_take(s, 0x02) is Ok
    &&& {
        let (b, r) = spec_take(s, 0x02)->Ok_0;
        &&& r == rest
        &&& b.len() <= 0xffff
        &&& !spec_is_neg(b)
        &&& b.len() <= size_of::<usize>()
        &&& be_uint(b) == value
    }
}

/// The canonical integer TLV for a small enumeration value.
pub open spec fn enum_enc(value: u8) -> Seq<u8> {
    tlv(0x02, seq![value])
}

/// Writes the canonical integer TLV for a one-byte enumeration value by
/// re-deriving its minimal form through the integer path.
fn encode_enum_value(value: u8, out: &mut Vec<u8>, enc: &mut Encoder) -> (r: Result<usize, Error>)
    requires
        value < 0x80,
        crate::encoder::encoder_inv(*old(enc), old(out)@.len() as int),
    ensures
        crate::codec::encode_post(
            enum_enc(value),
            old(out)@,
            final(out)@,
            *old(enc),
            *final(enc),
            r,
        ),
{
    let mut be: Vec<u8> = Vec::new();
    be.push(0);
    be.push(0);
    be.push(0);
    be.push(0);
    be.push(0);
    be.push(0);
    be.push(0);
    be.push(value);
    let i = Integer::from_bytes(be.as_slice());
    proof {
        assert(be@ =~= seq![0u8, 0, 0, 0, 0, 0, 0, value]);
        lemma_canon_zero_pad(be@);
        assert(i@ == seq![value]);
    }
    i.encode(out, enc)
}

/// Parsing inverts encoding for a one-byte enumeration value.
pub proof fn lemma_enum_enc_dec(value: u8, tail: Seq<u8>)
    requires
        value < 0x80,
    ensures
        spec_take(enum_enc(value) + tail, 0x02) == Ok::<(Seq<u8>, Seq<u8>), Error>(
            (seq![value], tail),
        ),
        enum_dec_ok(enum_enc(value) + tail, value as nat, tail),
{
    lemma_take_roundtrip(0x02, seq![value], tail);
    lemma_usize_at_least_one_byte();
    assert(be_uint(seq![value]) == value) by {
        reveal_with_fuel(be_uint, 2);
        assert(seq![value].drop_last() =~= Seq::<u8>::empty());
        assert(be_uint(Seq::<u8>::empty()) == 0);
        assert(seq![value].last() == value);
    };
}

/// Enumeration decoding is unambiguous: the same bytes denote the same value
/// and leave the same remainder.
pub proof fn lemma_enum_dec_unique(s: Seq<u8>, v1: nat, r1: Seq<u8>, v2: nat, r2: Seq<u8>)
    requires
        enum_dec_ok(s, v1, r1),
        enum_dec_ok(s, v2, r2),
    ensures
        v1 == v2,
        r1 == r2,
{
}

/// The version marker of an RSA private key.
#[derive(Clone, Copy, Debug, PartialEq, Eq, Structural)]
#[allow(non_camel_case_types)]
pub enum Version {
    two_prime,
    multi,
}

impl Version {
    /// The numeric wire value of this variant.
    pub open spec fn value(self) -> u8 {
        match self {
            Version::two_prime => 0,
            Version::multi => 1,
        }
    }
}

impl<'a> Type<'a> for Version {
    open spec fn wf(&self) -> bool {
        true
    }

    open spec fn enc(&self) -> Seq<u8> {
        enum_enc(self.value())
    }

    open spec fn dec_res(s: Seq<u8>) -> Result<Seq<u8>, Error> {
        enum_dec_res(s, set![0nat, 1nat])
    }

    open spec fn dec_ok(s: Seq<u8>, v: Self, rest: Seq<u8>) -> bool {
        enum_dec_ok(s, v.value() as nat, rest)
    }

    fn parse(p: &mut Parser<'a>) -> (r: Result<Self, Error>) {
        let i = Integer::parse(p)?;
        proof {
            lemma_take_roundtrip(0x02, i@, p@);
        }
        let v = match i.as_usize() {
            Ok(v) => v,
            Err(e) => return Err(e),
        };
        proof {
            assert(set![0nat, 1nat].contains(be_uint(i@)) <==> (be_uint(i@) == 0 || be_uint(i@)
                == 1));
        }
        if v == 0 {
            Ok(Version::two_prime)
        } else if v == 1 {
            Ok(Version::multi)
        } else {
            Err(Error::UnhandledEnumValue)
        }
    }

    fn encode(&self, out: &mut Vec<u8>, enc: &mut Encoder) -> (r: Result<usize, Error>) {
        let value: u8 = match self {
            Version::two_prime => 0,
            Version::multi => 1,
        };
        encode_enum_value(value, out, enc)
    }

    fn encoded_len(&self) -> (n: usize) {
        encoded_length_for(1)
    }
}

/// The version marker of a SEC1 elliptic-curve private key.
#[derive(Clone, Copy, Debug, PartialEq, Eq, Structural)]
#[allow(non_camel_case_types)]
pub enum EcPrivateKeyVer {
    ecPrivkeyVer1,
}

impl EcPrivateKeyVer {
    /// The numeric wire value of this variant.
    pub open spec fn value(self) -> u8 {
        1
    }
}

impl<'a> Type<'a> for EcPrivateKeyVer {
    open spec fn wf(&self) -> bool {
        true
    }

    open spec fn enc(&self) -> Seq<u8> {
        enum_enc(self.value())
    }

    open spec fn dec_res(s: Seq<u8>) -> Result<Seq<u8>, Error> {
        enum_dec_res(s, set![1nat])
    }

    open spec fn dec_ok(s: Seq<u8>, v: Self, rest: Seq<u8>) -> bool {
        enum_dec_ok(s, v.value() as nat, rest)
    }

    fn parse(p: &mut Parser<'a>) -> (r: Result<Self, Error>) {
        let i = Integer::parse(p)?;
        proof {
            lemma_take_roundtrip(0x02, i@, p@);
        }
        let v = match i.as_usize() {
            Ok(v) => v,
            Err(e) => return Err(e),
        };
        proof {
            assert(set![1nat].contains(be_uint(i@)) <==> be_uint(i@) == 1);
        }
        if v == 1 {
            Ok(EcPrivateKeyVer::ecPrivkeyVer1)
        } else {
            Err(Error::UnhandledEnumValue)
        }
    }

    fn encode(&self, out: &mut Vec<u8>, enc: &mut Encoder) -> (r: Result<usize, Error>) {
        encode_enum_value(1, out, enc)
    }

    fn encoded_len(&self) -> (n: usize) {
        encoded_length_for(1)
    }
}

} // verus!
