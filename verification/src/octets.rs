use vstd::prelude::*;

use crate::codec::Type;
use crate::encoder::{encoded_length_for, Encoder};
use crate::err::Error;
use crate::parser::Parser;
use crate::tag::Tag;
use crate::wire::{length_encoding, lemma_splice_adjacent, lemma_take_complete, spec_take, tlv};

verus! {

/// An opaque borrowed byte range; no internal structure is interpreted at
/// this layer. A nested DER structure inside it is decoded separately by the
/// caller.
#[derive(Clone, Debug, PartialEq, Eq)]
pub struct OctetString<'a> {
    pub octets: &'a [u8],
}

impl<'a> View for OctetString<'a> {
    type V = Seq<u8>;

    open spec fn view(&self) -> Seq<u8> {
        self.octets@
    }
}

impl<'a> Type<'a> for OctetString<'a> {
    open spec fn wf(&self) -> bool {
        self@.len() <= 0xffff_ffff && self@.len() + 6 <= usize::MAX
    }

    open spec fn enc(&self) -> Seq<u8> {
        tlv(0x04, self@)
    }

    open spec fn dec_res(s: Seq<u8>) -> Result<Seq<u8>, Error> {
        match spec_take(s, 0x04) {
            Ok((body, rest)) => Ok(rest),
            Err(e) => Err(e),
        }
    }

    open spec fn dec_ok(s: Seq<u8>, v: Self, rest: Seq<u8>) -> bool {
        v@.len() <= 0xffff && s == tlv(0x04, v@) + rest
    }

    fn parse(p: &mut Parser<'a>) -> (r: Result<Self, Error>) {
        let (_, octets) = p.take(Tag::octet_string())?;
        proof {
            lemma_take_complete(old(p)@, 0x04, octets@, p@);
        }
        Ok(OctetString { octets })
    }

    fn encode(&self, out: &mut Vec<u8>, enc: &mut Encoder) -> (r: Result<usize, Error>) {
        let ghost out0 = out@;
        let ghost e0 = *enc;
        let mut body = enc.begin(out, Tag::octet_string(), self.octets.len())?;
        body.append_slice(out, self.octets)?;
        let n = body.finish();
        proof {
            lemma_splice_adjacent(
                out0,
                e0.pos as int,
                seq![0x04u8] + length_encoding(self@.len() as int),
                self@,
            );
            assert((seq![0x04u8] + length_encoding(self@.len() as int)) + self@ =~= self.enc());
        }
        Ok(n)
    }

    fn encoded_len(&self) -> (n: usize) {
        encoded_length_for(self.octets.len())
    }
}

/// Parsing inverts encoding for octet strings.
pub proof fn lemma_octet_string_enc_dec(v: OctetString<'_>, tail: Seq<u8>)
    requires
        v@.len() <= 0xffff,
    ensures
        OctetString::dec_res(v.enc() + tail) == Ok::<Seq<u8>, Error>(tail),
        OctetString::dec_ok(v.enc() + tail, v, tail),
{
    crate::wire::lemma_take_roundtrip(0x04, v@, tail);
}

/// Octet-string decoding is unambiguous.
pub proof fn lemma_octet_string_dec_unique(
    s: Seq<u8>,
    v1: OctetString<'_>,
    r1: Seq<u8>,
    v2: OctetString<'_>,
    r2: Seq<u8>,
)
    requires
        OctetString::dec_ok(s, v1, r1),
        OctetString::dec_ok(s, v2, r2),
    ensures
        v1.enc() == v2.enc(),
        v1@ == v2@,
        r1 == r2,
{
    crate::wire::lemma_tlv_prefix_free(0x04, v1@, r1, 0x04, v2@, r2);
}

} // verus!
