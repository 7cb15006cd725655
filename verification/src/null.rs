use vstd::prelude::*;

use crate::codec::Type;
use crate::encoder::{encoded_length_for, Encoder};
use crate::err::Error;
use crate::parser::Parser;
use crate::tag::Tag;
use crate::wire::{length_encoding, lemma_take_complete, spec_take, tlv};

verus! {

/// A zero-length marker; any nonzero body length is an error.
#[derive(Clone, Debug, PartialEq, Eq)]
pub struct Null;

impl<'a> Type<'a> for Null {
    open spec fn wf(&self) -> bool {
        true
    }

    open spec fn enc(&self) -> Seq<u8> {
        tlv(0x05, Seq::<u8>::empty())
    }

    open spec fn dec_res(s: Seq<u8>) -> Result<Seq<u8>, Error> {
        match spec_take(s, 0x05) {
            Ok((body, rest)) => if body.len() == 0 {
                Ok(rest)
            } else {
                Err(Error::IllegalNull)
            },
            Err(e) => Err(e),
        }
    }

    open spec fn dec_ok(s: Seq<u8>, v: Self, rest: Seq<u8>) -> bool {
        s == tlv(0x05, Seq::<u8>::empty()) + rest
    }

    fn parse(p: &mut Parser<'a>) -> (r: Result<Self, Error>) {
        let (_, body) = p.take(Tag::null())?;
        if !body.is_empty() {
            return Err(Error::IllegalNull);
        }
        proof {
            lemma_take_complete(old(p)@, 0x05, body@, p@);
            assert(body@ =~= Seq::<u8>::empty());
        }
        Ok(Null)
    }

    fn encode(&self, out: &mut Vec<u8>, enc: &mut Encoder) -> (r: Result<usize, Error>) {
        let ghost out0 = out@;
        let ghost e0 = *enc;
        let mut body = enc.begin(out, Tag::null(), 0)?;
        let n = body.finish();
        proof {
            assert((seq![0x05u8] + length_encoding(0)) + Seq::<u8>::empty() =~= seq![0x05u8]
                + length_encoding(0));
            assert(seq![0x05u8] + length_encoding(0) =~= self.enc());
        }
        Ok(n)
    }

    fn encoded_len(&self) -> (n: usize) {
        encoded_length_for(0)
    }
}

/// Parsing inverts encoding for NULL.
pub proof fn lemma_null_enc_dec(v: Null, tail: Seq<u8>)
    ensures
        Null::dec_res(v.enc() + tail) == Ok::<Seq<u8>, Error>(tail),
        Null::dec_ok(v.enc() + tail, v, tail),
{
    crate::wire::lemma_take_roundtrip(0x05, Seq::<u8>::empty(), tail);
}

/// NULL decoding is unambiguous.
pub proof fn lemma_null_dec_unique(s: Seq<u8>, v1: Null, r1: Seq<u8>, v2: Null, r2: Seq<u8>)
    requires
        Null::dec_ok(s, v1, r1),
        Null::dec_ok(s, v2, r2),
    ensures
        v1.enc() == v2.enc(),
        r1 == r2,
{
    crate::wire::lemma_tlv_prefix_free(
        0x05,
        Seq::<u8>::empty(),
        r1,
        0x05,
        Seq::<u8>::empty(),
        r2,
    );
}

} // verus!
