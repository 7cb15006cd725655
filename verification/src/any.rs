use vstd::prelude::*;

use crate::codec::Type;
use crate::encoder::Encoder;
use crate::err::Error;
use crate::integer::Integer;
use crate::null::Null;
use crate::octets::OctetString;
use crate::oid::ObjectId;
use crate::parser::Parser;
use crate::tag::Tag;

verus! {

/// A closed union over the primitive value types, the active variant selected
/// by sniffing the next tag byte before consuming.
#[derive(Clone, Debug, PartialEq, Eq)]
pub enum Any<'a> {
    Null(Null),
    Integer(Integer<'a>),
    OctetString(OctetString<'a>),
    ObjectId(ObjectId),
}

/// Whether each variant's body is within the decodable size bound, so that
/// its encoding parses back.
pub open spec fn any_decodable(v: Any<'_>) -> bool {
    match v {
        Any::Null(_) => true,
        Any::Integer(i) => i@.len() <= 0xffff,
        Any::OctetString(o) => o@.len() <= 0xffff,
        Any::ObjectId(o) => o.bytes().len() <= 16,
    }
}

impl<'a> Type<'a> for Any<'a> {
    open spec fn wf(&self) -> bool {
        match self {
            Any::Null(n) => n.wf(),
            Any::Integer(i) => i.wf(),
            Any::OctetString(o) => o.wf(),
            Any::ObjectId(o) => o.wf(),
        }
    }

    open spec fn enc(&self) -> Seq<u8> {
        match self {
            Any::Null(n) => n.enc(),
            Any::Integer(i) => i.enc(),
            Any::OctetString(o) => o.enc(),
            Any::ObjectId(o) => o.enc(),
        }
    }

    open spec fn dec_res(s: Seq<u8>) -> Result<Seq<u8>, Error> {
        if s.len() == 0 {
            Err(Error::EndOfInput)
        } else if s[0] == 0x05 {
            Null::dec_res(s)
        } else if s[0] == 0x02 {
            Integer::dec_res(s)
        } else if s[0] == 0x04 {
            OctetString::dec_res(s)
        } else if s[0] == 0x06 {
            ObjectId::dec_res(s)
        } else {
            Err(Error::UnexpectedTag)
        }
    }

    open spec fn dec_ok(s: Seq<u8>, v: Self, rest: Seq<u8>) -> bool {
        match v {
            Any::Null(n) => s.len() > 0 && s[0] == 0x05 && Null::dec_ok(s, n, rest),
            Any::Integer(i) => s.len() > 0 && s[0] == 0x02 && Integer::dec_ok(s, i, rest),
            Any::OctetString(o) => s.len() > 0 && s[0] == 0x04 && OctetString::dec_ok(s, o, rest),
            Any::ObjectId(o) => s.len() > 0 && s[0] == 0x06 && ObjectId::dec_ok(s, o, rest),
        }
    }

    fn parse(p: &mut Parser<'a>) -> (r: Result<Self, Error>) {
        let t = p.peek_tag()?;
        let b = t.byte();
        if b == Tag::NULL {
            Ok(Any::Null(Null::parse(p)?))
        } else if b == Tag::INTEGER {
            Ok(Any::Integer(Integer::parse(p)?))
        } else if b == Tag::OCTET_STRING {
            Ok(Any::OctetString(OctetString::parse(p)?))
        } else if b == Tag::OBJECT_ID {
            Ok(Any::ObjectId(ObjectId::parse(p)?))
        } else {
            Err(Error::UnexpectedTag)
        }
    }

    fn encode(&self, out: &mut Vec<u8>, enc: &mut Encoder) -> (r: Result<usize, Error>) {
        match self {
            Any::Null(n) => n.encode(out, enc),
            Any::Integer(i) => i.encode(out, enc),
            Any::OctetString(o) => o.encode(out, enc),
            Any::ObjectId(o) => o.encode(out, enc),
        }
    }

    fn encoded_len(&self) -> (n: usize) {
        match self {
            Any::Null(n) => n.encoded_len(),
            Any::Integer(i) => i.encoded_len(),
            Any::OctetString(o) => o.encoded_len(),
            Any::ObjectId(o) => o.encoded_len(),
        }
    }
}

/// Parsing inverts encoding for the tag-sniffed union.
pub proof fn lemma_any_enc_dec(v: Any<'_>, tail: Seq<u8>)
    requires
        any_decodable(v),
    ensures
        Any::dec_res(v.enc() + tail) == Ok::<Seq<u8>, Error>(tail),
        Any::dec_ok(v.enc() + tail, v, tail),
{
    let s = v.enc() + tail;
    match v {
        Any::Null(n) => {
            crate::null::lemma_null_enc_dec(n, tail);
            assert(s[0] == 0x05);
        },
        Any::Integer(i) => {
            crate::integer::lemma_integer_enc_dec(i, tail);
            assert(s[0] == 0x02);
        },
        Any::OctetString(o) => {
            crate::octets::lemma_octet_string_enc_dec(o, tail);
            assert(s[0] == 0x04);
        },
        Any::ObjectId(o) => {
            crate::oid::lemma_object_id_enc_dec(o, tail);
            assert(s[0] == 0x06);
        },
    }
}

/// Union decoding is unambiguous: the sniffed tag picks the variant, and each
/// variant's decoding is unambiguous.
pub proof fn lemma_any_dec_unique(s: Seq<u8>, v1: Any<'_>, r1: Seq<u8>, v2: Any<'_>, r2: Seq<u8>)
    requires
        Any::dec_ok(s, v1, r1),
        Any::dec_ok(s, v2, r2),
    ensures
        v1.enc() == v2.enc(),
        r1 == r2,
{
    match (v1, v2) {
        (Any::Null(a), Any::Null(b)) => {
            crate::null::lemma_null_dec_unique(s, a, r1, b, r2);
        },
        (Any::Integer(a), Any::Integer(b)) => {
            crate::integer::lemma_integer_dec_unique(s, a, r1, b, r2);
        },
        (Any::OctetString(a), Any::OctetString(b)) => {
            crate::octets::lemma_octet_string_dec_unique(s, a, r1, b, r2);
        },
        (Any::ObjectId(a), Any::ObjectId(b)) => {
            crate::oid::lemma_object_id_dec_unique(s, a, r1, b, r2);
        },
        _ => {},
    }
}

impl<'a> Type<'a> for Option<Any<'a>> {
    open spec fn wf(&self) -> bool {
        match self {
            None => true,
            Some(a) => a.wf(),
        }
    }

    open spec fn enc(&self) -> Seq<u8> {
        match self {
            None => Seq::<u8>::empty(),
            Some(a) => a.enc(),
        }
    }

    open spec fn dec_res(s: Seq<u8>) -> Result<Seq<u8>, Error> {
        if s.len() > 0 {
            Any::dec_res(s)
        } else {
            Ok(s)
        }
    }

    open spec fn dec_ok(s: Seq<u8>, v: Self, rest: Seq<u8>) -> bool {
        match v {
            None => s.len() == 0 && rest == s,
            Some(a) => s.len() > 0 && Any::dec_ok(s, a, rest),
        }
    }

    fn parse(p: &mut Parser<'a>) -> (r: Result<Self, Error>) {
        if p.left() > 0 {
            match Any::parse(p) {
                Ok(a) => Ok(Some(a)),
                Err(e) => Err(e),
            }
        } else {
            Ok(None)
        }
    }

    fn encode(&self, out: &mut Vec<u8>, enc: &mut Encoder) -> (r: Result<usize, Error>) {
        match self {
            None => {
                let n = enc.finish();
                proof {
                    crate::wire::lemma_splice_empty(out@, enc.pos as int);
                }
                Ok(n)
            },
            Some(a) => a.encode(out, enc),
        }
    }

    fn encoded_len(&self) -> (n: usize) {
        match self {
            None => 0,
            Some(a) => a.encoded_len(),
        }
    }
}

/// Whether an optional trailing value's body is within the decodable bound.
pub open spec fn opt_any_decodable(v: Option<Any<'_>>) -> bool {
    match v {
        None => true,
        Some(a) => any_decodable(a),
    }
}

/// Parsing inverts encoding for a trailing optional value: with nothing after
/// it, its encoding parses back to it. Presence is inferred from whether
/// bytes remain, so this holds only in trailing position.
pub proof fn lemma_opt_any_enc_dec(v: Option<Any<'_>>)
    requires
        opt_any_decodable(v),
    ensures
        <Option<Any<'_>> as Type<'_>>::dec_res(v.enc()) == Ok::<Seq<u8>, Error>(Seq::<u8>::empty()),
        <Option<Any<'_>> as Type<'_>>::dec_ok(v.enc(), v, Seq::<u8>::empty()),
{
    match v {
        None => {
            assert(v.enc().len() == 0);
            assert(v.enc() =~= Seq::<u8>::empty());
        },
        Some(a) => {
            lemma_any_enc_dec(a, Seq::<u8>::empty());
            assert(a.enc() + Seq::<u8>::empty() =~= a.enc());
            assert(a.enc().len() > 0);
        },
    }
}

/// Optional-value decoding is unambiguous.
pub proof fn lemma_opt_any_dec_unique(
    s: Seq<u8>,
    v1: Option<Any<'_>>,
    r1: Seq<u8>,
    v2: Option<Any<'_>>,
    r2: Seq<u8>,
)
    requires
        <Option<Any<'_>> as Type<'_>>::dec_ok(s, v1, r1),
        <Option<Any<'_>> as Type<'_>>::dec_ok(s, v2, r2),
    ensures
        v1.enc() == v2.enc(),
        r1 == r2,
{
    match (v1, v2) {
        (Some(a), Some(b)) => {
            lemma_any_dec_unique(s, a, r1, b, r2);
        },
        _ => {},
    }
}

} // verus!
