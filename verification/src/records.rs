use vstd::prelude::*;

use crate::any::{lemma_opt_any_dec_unique, lemma_opt_any_enc_dec, opt_any_decodable, Any};
use crate::codec::Type;
use crate::encoder::{encoded_length_for, Encoder};
use crate::enums::{lemma_enum_dec_unique, lemma_enum_enc_dec, EcPrivateKeyVer, Version};
use crate::err::Error;
use crate::integer::{lemma_integer_dec_unique, lemma_integer_enc_dec, Integer};
use crate::octets::{lemma_octet_string_dec_unique, lemma_octet_string_enc_dec, OctetString};
use crate::oid::{lemma_object_id_cap, lemma_object_id_dec_unique, lemma_object_id_enc_dec, ObjectId};
use crate::parser::Parser;
use crate::tag::Tag;
use crate::wire::{length_encoding, lemma_splice_adjacent, lemma_take_roundtrip, spec_take, tlv};

verus! {

/// An RSA public key: modulus and public exponent.
#[derive(Clone, Debug)]
#[allow(non_snake_case)]
pub struct RSAPublicKey<'a> {
    pub modulus: Integer<'a>,
    pub publicExponent: Integer<'a>,
}

#[allow(non_snake_case)]
impl<'a> RSAPublicKey<'a> {
    /// The concatenated field encodings: the SEQUENCE body.
    pub open spec fn spec_body(self) -> Seq<u8> {
        self.modulus.enc() + self.publicExponent.enc()
    }

    /// The summed encoded length of every field.
    pub fn body_len(&self) -> (n: usize)
        requires
            self.wf(),
        ensures
            n == self.spec_body().len(),
    {
        let mut result: usize = 0;
        result = result + self.modulus.encoded_len();
        result = result + self.publicExponent.encoded_len();
        result
    }
}

#[allow(non_snake_case)]
impl<'a> Type<'a> for RSAPublicKey<'a> {
    open spec fn wf(&self) -> bool {
        &&& self.modulus.wf()
        &&& self.publicExponent.wf()
        &&& self.spec_body().len() <= 0xffff_ffff
        &&& self.spec_body().len() + 6 <= usize::MAX
    }

    open spec fn enc(&self) -> Seq<u8> {
        tlv(0x30, self.spec_body())
    }

    open spec fn dec_res(s: Seq<u8>) -> Result<Seq<u8>, Error> {
        match spec_take(s, 0x30) {
            Err(e) => Err(e),
            Ok((body, rest)) => match Integer::dec_res(body) {
                Err(e) => Err(e),
                Ok(b1) => match Integer::dec_res(b1) {
                    Err(e) => Err(e),
                    Ok(_) => Ok(rest),
                },
            },
        }
    }

    open spec fn dec_ok(s: Seq<u8>, v: Self, rest: Seq<u8>) -> bool {
        let body = spec_take(s, 0x30)->Ok_0.0;
        let r = spec_take(s, 0x30)->Ok_0.1;
        let b1 = Integer::dec_res(body)->Ok_0;
        let b2 = Integer::dec_res(b1)->Ok_0;
        &&& spec_take(s, 0x30) is Ok
        &&& r == rest
        &&& Integer::dec_res(body) is Ok
        &&& Integer::dec_ok(body, v.modulus, b1)
        &&& Integer::dec_res(b1) is Ok
        &&& Integer::dec_ok(b1, v.publicExponent, b2)
    }

    fn parse(p: &mut Parser<'a>) -> (r: Result<Self, Error>) {
        let (_, mut sub) = p.descend(Tag::sequence())?;
        let modulus = Integer::parse(&mut sub)?;
        let publicExponent = Integer::parse(&mut sub)?;
        Ok(RSAPublicKey { modulus, publicExponent })
    }

    fn encode(&self, out: &mut Vec<u8>, enc: &mut Encoder) -> (r: Result<usize, Error>) {
        let ghost out0 = out@;
        let ghost e0 = *enc;
        let bl = self.body_len();
        let mut body = enc.begin(out, Tag::sequence(), bl)?;
        let ghost mut acc = seq![0x30u8] + length_encoding(bl as int);
        self.modulus.encode(out, &mut body)?;
        proof {
            lemma_splice_adjacent(out0, e0.pos as int, acc, self.modulus.enc());
            acc = acc + self.modulus.enc();
        }
        self.publicExponent.encode(out, &mut body)?;
        proof {
            lemma_splice_adjacent(out0, e0.pos as int, acc, self.publicExponent.enc());
            acc = acc + self.publicExponent.enc();
            assert(acc =~= self.enc());
        }
        Ok(body.finish())
    }

    fn encoded_len(&self) -> (n: usize) {
        encoded_length_for(self.body_len())
    }
}

/// Parsing inverts encoding for RSA public keys.
pub proof fn lemma_rsa_public_key_enc_dec(v: RSAPublicKey<'_>, tail: Seq<u8>)
    requires
        v.wf(),
        v.spec_body().len() <= 0xffff,
    ensures
        RSAPublicKey::dec_res(v.enc() + tail) == Ok::<Seq<u8>, Error>(tail),
        RSAPublicKey::dec_ok(v.enc() + tail, v, tail),
{
    lemma_take_roundtrip(0x30, v.spec_body(), tail);
    lemma_integer_enc_dec(v.modulus, v.publicExponent.enc());
    lemma_integer_enc_dec(v.publicExponent, Seq::<u8>::empty());
    assert(v.publicExponent.enc() + Seq::<u8>::empty() =~= v.publicExponent.enc());
}

/// RSA public key decoding is unambiguous.
pub proof fn lemma_rsa_public_key_dec_unique(
    s: Seq<u8>,
    v1: RSAPublicKey<'_>,
    r1: Seq<u8>,
    v2: RSAPublicKey<'_>,
    r2: Seq<u8>,
)
    requires
        RSAPublicKey::dec_ok(s, v1, r1),
        RSAPublicKey::dec_ok(s, v2, r2),
    ensures
        v1.enc() == v2.enc(),
        r1 == r2,
{
    let body = spec_take(s, 0x30)->Ok_0.0;
    let b1 = Integer::dec_res(body)->Ok_0;
    let b2 = Integer::dec_res(b1)->Ok_0;
    lemma_integer_dec_unique(body, v1.modulus, b1, v2.modulus, b1);
    lemma_integer_dec_unique(b1, v1.publicExponent, b2, v2.publicExponent, b2);
    assert(v1.spec_body() == v2.spec_body());
}

/// Round trip: an RSA public key decoded from bytes that are the canonical
/// encoding of a well-formed key has that same encoding, so `encoded_len`
/// equals the original byte length and re-encoding reproduces the original
/// bytes exactly.
pub proof fn round_trip_rsa_public_key(
    w: RSAPublicKey<'_>,
    v: RSAPublicKey<'_>,
    tail: Seq<u8>,
    rest: Seq<u8>,
)
    requires
        w.wf(),
        w.spec_body().len() <= 0xffff,
        RSAPublicKey::dec_ok(w.enc() + tail, v, rest),
    ensures
        v.enc() == w.enc(),
        rest == tail,
{
    lemma_rsa_public_key_enc_dec(w, tail);
    lemma_rsa_public_key_dec_unique(w.enc() + tail, w, tail, v, rest);
}

/// An RSA private key: version marker, the public pair, and the private CRT
/// components.
#[derive(Clone, Debug)]
#[allow(non_snake_case)]
pub struct RSAPrivateKey<'a> {
    pub version: Version,
    pub modulus: Integer<'a>,
    pub publicExponent: Integer<'a>,
    pub privateExponent: Integer<'a>,
    pub prime1: Integer<'a>,
    pub prime2: Integer<'a>,
    pub exponent1: Integer<'a>,
    pub exponent2: Integer<'a>,
    pub coefficient: Integer<'a>,
}

#[allow(non_snake_case)]
impl<'a> RSAPrivateKey<'a> {
    /// The concatenated field encodings: the SEQUENCE body.
    pub open spec fn spec_body(self) -> Seq<u8> {
        self.version.enc() + self.modulus.enc() + self.publicExponent.enc()
            + self.privateExponent.enc() + self.prime1.enc() + self.prime2.enc()
            + self.exponent1.enc() + self.exponent2.enc() + self.coefficient.enc()
    }

    /// The summed encoded length of every field.
    pub fn body_len(&self) -> (n: usize)
        requires
            self.wf(),
        ensures
            n == self.spec_body().len(),
    {
        let mut result: usize = 0;
        result = result + self.version.encoded_len();
        result = result + self.modulus.encoded_len();
        result = result + self.publicExponent.encoded_len();
        result = result + self.privateExponent.encoded_len();
        result = result + self.prime1.encoded_len();
        result = result + self.prime2.encoded_len();
        result = result + self.exponent1.encoded_len();
        result = result + self.exponent2.encoded_len();
        result = result + self.coefficient.encoded_len();
        result
    }
}

#[allow(non_snake_case)]
impl<'a> Type<'a> for RSAPrivateKey<'a> {
    open spec fn wf(&self) -> bool {
        &&& self.modulus.wf()
        &&& self.publicExponent.wf()
        &&& self.privateExponent.wf()
        &&& self.prime1.wf()
        &&& self.prime2.wf()
        &&& self.exponent1.wf()
        &&& self.exponent2.wf()
        &&& self.coefficient.wf()
        &&& self.spec_body().len() <= 0xffff_ffff
        &&& self.spec_body().len() + 6 <= usize::MAX
    }

    open spec fn enc(&self) -> Seq<u8> {
        tlv(0x30, self.spec_body())
    }

    open spec fn dec_res(s: Seq<u8>) -> Result<Seq<u8>, Error> {
        match spec_take(s, 0x30) {
            Err(e) => Err(e),
            Ok((body, rest)) => match Version::dec_res(body) {
                Err(e) => Err(e),
                Ok(b1) => match Integer::dec_res(b1) {
                    Err(e) => Err(e),
                    Ok(b2) => match Integer::dec_res(b2) {
                        Err(e) => Err(e),
                        Ok(b3) => match Integer::dec_res(b3) {
                            Err(e) => Err(e),
                            Ok(b4) => match Integer::dec_res(b4) {
                                Err(e) => Err(e),
                                Ok(b5) => match Integer::dec_res(b5) {
                                    Err(e) => Err(e),
                                    Ok(b6) => match Integer::dec_res(b6) {
                                        Err(e) => Err(e),
                                        Ok(b7) => match Integer::dec_res(b7) {
                                            Err(e) => Err(e),
                                            Ok(b8) => match Integer::dec_res(b8) {
                                                Err(e) => Err(e),
                                                Ok(_) => Ok(rest),
                                            },
                                        },
                                    },
                                },
                            },
                        },
                    },
                },
            },
        }
    }

    open spec fn dec_ok(s: Seq<u8>, v: Self, rest: Seq<u8>) -> bool {
        let body = spec_take(s, 0x30)->Ok_0.0;
        let r = spec_take(s, 0x30)->Ok_0.1;
        let b1 = Version::dec_res(body)->Ok_0;
        let b2 = Integer::dec_res(b1)->Ok_0;
        let b3 = Integer::dec_res(b2)->Ok_0;
        let b4 = Integer::dec_res(b3)->Ok_0;
        let b5 = Integer::dec_res(b4)->Ok_0;
        let b6 = Integer::dec_res(b5)->Ok_0;
        let b7 = Integer::dec_res(b6)->Ok_0;
        let b8 = Integer::dec_res(b7)->Ok_0;
        let b9 = Integer::dec_res(b8)->Ok_0;
        &&& spec_take(s, 0x30) is Ok
        &&& r == rest
        &&& Version::dec_res(body) is Ok
        &&& Version::dec_ok(body, v.version, b1)
        &&& Integer::dec_res(b1) is Ok
        &&& Integer::dec_ok(b1, v.modulus, b2)
        &&& Integer::dec_res(b2) is Ok
        &&& Integer::dec_ok(b2, v.publicExponent, b3)
        &&& Integer::dec_res(b3) is Ok
        &&& Integer::dec_ok(b3, v.privateExponent, b4)
        &&& Integer::dec_res(b4) is Ok
        &&& Integer::dec_ok(b4, v.prime1, b5)
        &&& Integer::dec_res(b5) is Ok
        &&& Integer::dec_ok(b5, v.prime2, b6)
        &&& Integer::dec_res(b6) is Ok
        &&& Integer::dec_ok(b6, v.exponent1, b7)
        &&& Integer::dec_res(b7) is Ok
        &&& Integer::dec_ok(b7, v.exponent2, b8)
        &&& Integer::dec_res(b8) is Ok
        &&& Integer::dec_ok(b8, v.coefficient, b9)
    }

    fn parse(p: &mut Parser<'a>) -> (r: Result<Self, Error>) {
        let (_, mut sub) = p.descend(Tag::sequence())?;
        let version = Version::parse(&mut sub)?;
        let modulus = Integer::parse(&mut sub)?;
        let publicExponent = Integer::parse(&mut sub)?;
        let privateExponent = Integer::parse(&mut sub)?;
        let prime1 = Integer::parse(&mut sub)?;
        let prime2 = Integer::parse(&mut sub)?;
        let exponent1 = Integer::parse(&mut sub)?;
        let exponent2 = Integer::parse(&mut sub)?;
        let coefficient = Integer::parse(&mut sub)?;
        Ok(
            RSAPrivateKey {
                version,
                modulus,
                publicExponent,
                privateExponent,
                prime1,
                prime2,
                exponent1,
                exponent2,
                coefficient,
            },
        )
    }

    #[verifier::rlimit(60)]
    fn encode(&self, out: &mut Vec<u8>, enc: &mut Encoder) -> (r: Result<usize, Error>) {
        let ghost out0 = out@;
        let ghost e0 = *enc;
        let bl = self.body_len();
        let mut body = enc.begin(out, Tag::sequence(), bl)?;
        let ghost mut acc = seq![0x30u8] + length_encoding(bl as int);
        self.version.encode(out, &mut body)?;
        proof {
            lemma_splice_adjacent(out0, e0.pos as int, acc, self.version.enc());
            acc = acc + self.version.enc();
        }
        self.modulus.encode(out, &mut body)?;
        proof {
            lemma_splice_adjacent(out0, e0.pos as int, acc, self.modulus.enc());
            acc = acc + self.modulus.enc();
        }
        self.publicExponent.encode(out, &mut body)?;
        proof {
            lemma_splice_adjacent(out0, e0.pos as int, acc, self.publicExponent.enc());
            acc = acc + self.publicExponent.enc();
        }
        self.privateExponent.encode(out, &mut body)?;
        proof {
            lemma_splice_adjacent(out0, e0.pos as int, acc, self.privateExponent.enc());
            acc = acc + self.privateExponent.enc();
        }
        self.prime1.encode(out, &mut body)?;
        proof {
            lemma_splice_adjacent(out0, e0.pos as int, acc, self.prime1.enc());
            acc = acc + self.prime1.enc();
        }
        self.prime2.encode(out, &mut body)?;
        proof {
            lemma_splice_adjacent(out0, e0.pos as int, acc, self.prime2.enc());
            acc = acc + self.prime2.enc();
        }
        self.exponent1.encode(out, &mut body)?;
        proof {
            lemma_splice_adjacent(out0, e0.pos as int, acc, self.exponent1.enc());
            acc = acc + self.exponent1.enc();
        }
        self.exponent2.encode(out, &mut body)?;
        proof {
            lemma_splice_adjacent(out0, e0.pos as int, acc, self.exponent2.enc());
            acc = acc + self.exponent2.enc();
        }
        self.coefficient.encode(out, &mut body)?;
        proof {
            lemma_splice_adjacent(out0, e0.pos as int, acc, self.coefficient.enc());
            acc = acc + self.coefficient.enc();
            assert(acc =~= self.enc());
        }
        Ok(body.finish())
    }

    fn encoded_len(&self) -> (n: usize) {
        encoded_length_for(self.body_len())
    }
}

/// The per-field decode facts for an RSA private key body laid out as the
/// concatenation of its field encodings.
#[verifier::rlimit(100)]
#[verifier::spinoff_prover]
proof fn lemma_rsa_private_key_fields(v: RSAPrivateKey<'_>, tail: Seq<u8>)
    requires
        v.wf(),
        v.spec_body().len() <= 0xffff,
    ensures
        ({
            let t9 = Seq::<u8>::empty();
            let t8 = v.coefficient.enc() + t9;
            let t7 = v.exponent2.enc() + t8;
            let t6 = v.exponent1.enc() + t7;
            let t5 = v.prime2.enc() + t6;
            let t4 = v.prime1.enc() + t5;
            let t3 = v.privateExponent.enc() + t4;
            let t2 = v.publicExponent.enc() + t3;
            let t1 = v.modulus.enc() + t2;
            &&& v.spec_body() == v.version.enc() + t1
            &&& Version::dec_res(v.spec_body()) == Ok::<Seq<u8>, Error>(t1)
            &&& Version::dec_ok(v.spec_body(), v.version, t1)
            &&& Integer::dec_res(t1) == Ok::<Seq<u8>, Error>(t2)
            &&& Integer::dec_ok(t1, v.modulus, t2)
            &&& Integer::dec_res(t2) == Ok::<Seq<u8>, Error>(t3)
            &&& Integer::dec_ok(t2, v.publicExponent, t3)
            &&& Integer::dec_res(t3) == Ok::<Seq<u8>, Error>(t4)
            &&& Integer::dec_ok(t3, v.privateExponent, t4)
            &&& Integer::dec_res(t4) == Ok::<Seq<u8>, Error>(t5)
            &&& Integer::dec_ok(t4, v.prime1, t5)
            &&& Integer::dec_res(t5) == Ok::<Seq<u8>, Error>(t6)
            &&& Integer::dec_ok(t5, v.prime2, t6)
            &&& Integer::dec_res(t6) == Ok::<Seq<u8>, Error>(t7)
            &&& Integer::dec_ok(t6, v.exponent1, t7)
            &&& Integer::dec_res(t7) == Ok::<Seq<u8>, Error>(t8)
            &&& Integer::dec_ok(t7, v.exponent2, t8)
            &&& Integer::dec_res(t8) == Ok::<Seq<u8>, Error>(t9)
            &&& Integer::dec_ok(t8, v.coefficient, t9)
        }),
{
    let t9 = Seq::<u8>::empty();
    let t8 = v.coefficient.enc() + t9;
    let t7 = v.exponent2.enc() + t8;
    let t6 = v.exponent1.enc() + t7;
    let t5 = v.prime2.enc() + t6;
    let t4 = v.prime1.enc() + t5;
    let t3 = v.privateExponent.enc() + t4;
    let t2 = v.publicExponent.enc() + t3;
    let t1 = v.modulus.enc() + t2;
    assert(v.spec_body() =~= v.version.enc() + t1);
    lemma_enum_enc_dec(v.version.value(), t1);
    lemma_integer_enc_dec(v.modulus, t2);
    lemma_integer_enc_dec(v.publicExponent, t3);
    lemma_integer_enc_dec(v.privateExponent, t4);
    lemma_integer_enc_dec(v.prime1, t5);
    lemma_integer_enc_dec(v.prime2, t6);
    lemma_integer_enc_dec(v.exponent1, t7);
    lemma_integer_enc_dec(v.exponent2, t8);
    lemma_integer_enc_dec(v.coefficient, t9);
    assert(v.coefficient.enc() + t9 =~= v.coefficient.enc());
}

/// Parsing inverts encoding for RSA private keys.
#[verifier::rlimit(100)]
#[verifier::spinoff_prover]
pub proof fn lemma_rsa_private_key_enc_dec(v: RSAPrivateKey<'_>, tail: Seq<u8>)
    requires
        v.wf(),
        v.spec_body().len() <= 0xffff,
    ensures
        RSAPrivateKey::dec_res(v.enc() + tail) == Ok::<Seq<u8>, Error>(tail),
        RSAPrivateKey::dec_ok(v.enc() + tail, v, tail),
{
    lemma_take_roundtrip(0x30, v.spec_body(), tail);
    lemma_rsa_private_key_fields(v, tail);
}

/// RSA private key decoding is unambiguous.
pub proof fn lemma_rsa_private_key_dec_unique(
    s: Seq<u8>,
    v1: RSAPrivateKey<'_>,
    r1: Seq<u8>,
    v2: RSAPrivateKey<'_>,
    r2: Seq<u8>,
)
    requires
        RSAPrivateKey::dec_ok(s, v1, r1),
        RSAPrivateKey::dec_ok(s, v2, r2),
    ensures
        v1.enc() == v2.enc(),
        r1 == r2,
{
    let body = spec_take(s, 0x30)->Ok_0.0;
    let b1 = Version::dec_res(body)->Ok_0;
    let b2 = Integer::dec_res(b1)->Ok_0;
    let b3 = Integer::dec_res(b2)->Ok_0;
    let b4 = Integer::dec_res(b3)->Ok_0;
    let b5 = Integer::dec_res(b4)->Ok_0;
    let b6 = Integer::dec_res(b5)->Ok_0;
    let b7 = Integer::dec_res(b6)->Ok_0;
    let b8 = Integer::dec_res(b7)->Ok_0;
    let b9 = Integer::dec_res(b8)->Ok_0;
    lemma_enum_dec_unique(body, v1.version.value() as nat, b1, v2.version.value() as nat, b1);
    assert(v1.version == v2.version);
    lemma_integer_dec_unique(b1, v1.modulus, b2, v2.modulus, b2);
    lemma_integer_dec_unique(b2, v1.publicExponent, b3, v2.publicExponent, b3);
    lemma_integer_dec_unique(b3, v1.privateExponent, b4, v2.privateExponent, b4);
    lemma_integer_dec_unique(b4, v1.prime1, b5, v2.prime1, b5);
    lemma_integer_dec_unique(b5, v1.prime2, b6, v2.prime2, b6);
    lemma_integer_dec_unique(b6, v1.exponent1, b7, v2.exponent1, b7);
    lemma_integer_dec_unique(b7, v1.exponent2, b8, v2.exponent2, b8);
    lemma_integer_dec_unique(b8, v1.coefficient, b9, v2.coefficient, b9);
    assert(v1.spec_body() == v2.spec_body());
}

/// Round trip: an RSA private key decoded from bytes that are the canonical
/// encoding of a well-formed key has that same encoding, so `encoded_len`
/// equals the original byte length and re-encoding reproduces the original
/// bytes exactly.
pub proof fn round_trip_rsa_private_key(
    w: RSAPrivateKey<'_>,
    v: RSAPrivateKey<'_>,
    tail: Seq<u8>,
    rest: Seq<u8>,
)
    requires
        w.wf(),
        w.spec_body().len() <= 0xffff,
        RSAPrivateKey::dec_ok(w.enc() + tail, v, rest),
    ensures
        v.enc() == w.enc(),
        rest == tail,
{
    lemma_rsa_private_key_enc_dec(w, tail);
    lemma_rsa_private_key_dec_unique(w.enc() + tail, w, tail, v, rest);
}

/// An algorithm identifier: the algorithm's object identifier and an
/// optional trailing parameter value, present exactly when bytes remain in
/// the enclosing view.
#[derive(Clone, Debug)]
pub struct AlgorithmIdentifier<'a> {
    pub algorithm: ObjectId,
    pub parameters: Option<Any<'a>>,
}

impl<'a> AlgorithmIdentifier<'a> {
    /// The concatenated field encodings: the SEQUENCE body.
    pub open spec fn spec_body(self) -> Seq<u8> {
        self.algorithm.enc() + self.parameters.enc()
    }

    /// The summed encoded length of every field.
    pub fn body_len(&self) -> (n: usize)
        requires
            self.wf(),
        ensures
            n == self.spec_body().len(),
    {
        let mut result: usize = 0;
        result = result + self.algorithm.encoded_len();
        result = result + self.parameters.encoded_len();
        result
    }
}

/// What parsing an algorithm identifier from the front of `s` leaves, kept
/// behind an opaque name so that enclosing records reason about it by the
/// identifier's own lemmas rather than by unfolding.
#[verifier::opaque]
pub open spec fn alg_id_dec_res(s: Seq<u8>) -> Result<Seq<u8>, Error> {
    match spec_take(s, 0x30) {
        Err(e) => Err(e),
        Ok((body, rest)) => match ObjectId::dec_res(body) {
            Err(e) => Err(e),
            Ok(b1) => match <Option<Any<'_>> as Type<'_>>::dec_res(b1) {
                Err(e) => Err(e),
                Ok(_) => Ok(rest),
            },
        },
    }
}

/// How a parsed algorithm identifier relates to the consumed bytes, behind
/// an opaque name for the same reason as `alg_id_dec_res`.
#[verifier::opaque]
pub open spec fn alg_id_dec_ok(
    s: Seq<u8>,
    algorithm: ObjectId,
    parameters: Option<Any<'_>>,
    rest: Seq<u8>,
) -> bool {
    let body = spec_take(s, 0x30)->Ok_0.0;
    let r = spec_take(s, 0x30)->Ok_0.1;
    let b1 = ObjectId::dec_res(body)->Ok_0;
    let b2 = <Option<Any<'_>> as Type<'_>>::dec_res(b1)->Ok_0;
    &&& spec_take(s, 0x30) is Ok
    &&& r == rest
    &&& ObjectId::dec_res(body) is Ok
    &&& ObjectId::dec_ok(body, algorithm, b1)
    &&& <Option<Any<'_>> as Type<'_>>::dec_res(b1) is Ok
    &&& <Option<Any<'_>> as Type<'_>>::dec_ok(b1, parameters, b2)
}

/// A decoded algorithm identifier fits inside the bytes it was read from:
/// the concatenated field encodings are no longer than the enclosing body.
pub proof fn lemma_alg_id_dec_ok_size(
    s: Seq<u8>,
    algorithm: ObjectId,
    parameters: Option<Any<'_>>,
    rest: Seq<u8>,
)
    requires
        alg_id_dec_ok(s, algorithm, parameters, rest),
        s.len() <= 0xffff,
    ensures
        algorithm.enc().len() + parameters.enc().len() <= 0xffff,
{
    reveal(alg_id_dec_ok);
    let body = spec_take(s, 0x30)->Ok_0.0;
    let b1 = ObjectId::dec_res(body)->Ok_0;
    crate::wire::lemma_take_complete(s, 0x30, body, spec_take(s, 0x30)->Ok_0.1);
    match parameters {
        None => {},
        Some(a) => {
            match a {
                Any::Null(_) => {},
                Any::Integer(_) => {},
                Any::OctetString(_) => {},
                Any::ObjectId(_) => {},
            }
        },
    }
}

impl<'a> Type<'a> for AlgorithmIdentifier<'a> {
    open spec fn wf(&self) -> bool {
        &&& self.algorithm.wf()
        &&& self.parameters.wf()
        &&& self.spec_body().len() <= 0xffff_ffff
        &&& self.spec_body().len() + 6 <= usize::MAX
    }

    open spec fn enc(&self) -> Seq<u8> {
        tlv(0x30, self.spec_body())
    }

    open spec fn dec_res(s: Seq<u8>) -> Result<Seq<u8>, Error> {
        alg_id_dec_res(s)
    }

    open spec fn dec_ok(s: Seq<u8>, v: Self, rest: Seq<u8>) -> bool {
        alg_id_dec_ok(s, v.algorithm, v.parameters, rest)
    }

    fn parse(p: &mut Parser<'a>) -> (r: Result<Self, Error>) {
        proof {
            reveal(alg_id_dec_res);
            reveal(alg_id_dec_ok);
        }
        let (_, mut sub) = p.descend(Tag::sequence())?;
        let algorithm = ObjectId::parse(&mut sub)?;
        let parameters = <Option<Any<'a>> as Type<'a>>::parse(&mut sub)?;
        Ok(AlgorithmIdentifier { algorithm, parameters })
    }

    fn encode(&self, out: &mut Vec<u8>, enc: &mut Encoder) -> (r: Result<usize, Error>) {
        let ghost out0 = out@;
        let ghost e0 = *enc;
        let bl = self.body_len();
        let mut body = enc.begin(out, Tag::sequence(), bl)?;
        let ghost mut acc = seq![0x30u8] + length_encoding(bl as int);
        self.algorithm.encode(out, &mut body)?;
        proof {
            lemma_splice_adjacent(out0, e0.pos as int, acc, self.algorithm.enc());
            acc = acc + self.algorithm.enc();
        }
        self.parameters.encode(out, &mut body)?;
        proof {
            lemma_splice_adjacent(out0, e0.pos as int, acc, self.parameters.enc());
            acc = acc + self.parameters.enc();
            assert(acc =~= self.enc());
        }
        Ok(body.finish())
    }

    fn encoded_len(&self) -> (n: usize) {
        encoded_length_for(self.body_len())
    }
}

/// Parsing inverts encoding for algorithm identifiers: in particular the
/// optional parameter field parses as absent exactly when it was absent, the
/// enclosing view then holding no further bytes.
pub proof fn lemma_algorithm_identifier_enc_dec(v: AlgorithmIdentifier<'_>, tail: Seq<u8>)
    requires
        v.wf(),
        v.spec_body().len() <= 0xffff,
    ensures
        AlgorithmIdentifier::dec_res(v.enc() + tail) == Ok::<Seq<u8>, Error>(tail),
        AlgorithmIdentifier::dec_ok(v.enc() + tail, v, tail),
{
    reveal(alg_id_dec_res);
    reveal(alg_id_dec_ok);
    lemma_take_roundtrip(0x30, v.spec_body(), tail);
    lemma_object_id_cap(&v.algorithm);
    lemma_object_id_enc_dec(v.algorithm, v.parameters.enc());
    proof_opt_decodable(v);
    lemma_opt_any_enc_dec(v.parameters);
}

proof fn proof_opt_decodable(v: AlgorithmIdentifier<'_>)
    requires
        v.wf(),
        v.spec_body().len() <= 0xffff,
    ensures
        opt_any_decodable(v.parameters),
{
    match v.parameters {
        None => {},
        Some(a) => {
            assert(a.enc().len() <= v.spec_body().len());
            match a {
                Any::Null(_) => {},
                Any::Integer(i) => {
                    assert(i.enc().len() == 1 + length_encoding(i@.len() as int).len() + i@.len());
                },
                Any::OctetString(o) => {
                    assert(o.enc().len() == 1 + length_encoding(o@.len() as int).len() + o@.len());
                },
                Any::ObjectId(o) => {
                    lemma_object_id_cap(&o);
                },
            }
        },
    }
}

/// Algorithm identifier decoding is unambiguous.
pub proof fn lemma_algorithm_identifier_dec_unique(
    s: Seq<u8>,
    v1: AlgorithmIdentifier<'_>,
    r1: Seq<u8>,
    v2: AlgorithmIdentifier<'_>,
    r2: Seq<u8>,
)
    requires
        AlgorithmIdentifier::dec_ok(s, v1, r1),
        AlgorithmIdentifier::dec_ok(s, v2, r2),
    ensures
        v1.enc() == v2.enc(),
        r1 == r2,
{
    reveal(alg_id_dec_res);
    reveal(alg_id_dec_ok);
    let body = spec_take(s, 0x30)->Ok_0.0;
    let b1 = ObjectId::dec_res(body)->Ok_0;
    let b2 = <Option<Any<'_>> as Type<'_>>::dec_res(b1)->Ok_0;
    lemma_object_id_dec_unique(body, v1.algorithm, b1, v2.algorithm, b1);
    lemma_opt_any_dec_unique(b1, v1.parameters, b2, v2.parameters, b2);
    assert(v1.spec_body() == v2.spec_body());
}

/// Round trip: an algorithm identifier decoded from bytes that are the
/// canonical encoding of a well-formed one has that same encoding, so
/// `encoded_len` equals the original byte length and re-encoding reproduces
/// the original bytes exactly.
pub proof fn round_trip_algorithm_identifier(
    w: AlgorithmIdentifier<'_>,
    v: AlgorithmIdentifier<'_>,
    tail: Seq<u8>,
    rest: Seq<u8>,
)
    requires
        w.wf(),
        w.spec_body().len() <= 0xffff,
        AlgorithmIdentifier::dec_ok(w.enc() + tail, v, rest),
    ensures
        v.enc() == w.enc(),
        rest == tail,
{
    lemma_algorithm_identifier_enc_dec(w, tail);
    lemma_algorithm_identifier_dec_unique(w.enc() + tail, w, tail, v, rest);
}

/// A PKCS#8 private key wrapper: version, algorithm identifier, and the key
/// material as an octet string holding a nested DER structure that the
/// caller decodes separately.
#[derive(Clone, Debug)]
#[allow(non_snake_case)]
pub struct PrivateKeyInfo<'a> {
    pub version: Integer<'a>,
    pub privateKeyAlgorithm: AlgorithmIdentifier<'a>,
    pub privateKey: OctetString<'a>,
}

#[allow(non_snake_case)]
impl<'a> PrivateKeyInfo<'a> {
    /// The concatenated field encodings: the SEQUENCE body.
    pub open spec fn spec_body(self) -> Seq<u8> {
        self.version.enc() + self.privateKeyAlgorithm.enc() + self.privateKey.enc()
    }

    /// The summed encoded length of every field.
    pub fn body_len(&self) -> (n: usize)
        requires
            self.wf(),
        ensures
            n == self.spec_body().len(),
    {
        let mut result: usize = 0;
        result = result + self.version.encoded_len();
        result = result + self.privateKeyAlgorithm.encoded_len();
        result = result + self.privateKey.encoded_len();
        result
    }
}

#[allow(non_snake_case)]
impl<'a> Type<'a> for PrivateKeyInfo<'a> {
    open spec fn wf(&self) -> bool {
        &&& self.version.wf()
        &&& self.privateKeyAlgorithm.wf()
        &&& self.privateKey.wf()
        &&& self.spec_body().len() <= 0xffff_ffff
        &&& self.spec_body().len() + 6 <= usize::MAX
    }

    open spec fn enc(&self) -> Seq<u8> {
        tlv(0x30, self.spec_body())
    }

    open spec fn dec_res(s: Seq<u8>) -> Result<Seq<u8>, Error> {
        match spec_take(s, 0x30) {
            Err(e) => Err(e),
            Ok((body, rest)) => match Integer::dec_res(body) {
                Err(e) => Err(e),
                Ok(b1) => match AlgorithmIdentifier::dec_res(b1) {
                    Err(e) => Err(e),
                    Ok(b2) => match OctetString::dec_res(b2) {
                        Err(e) => Err(e),
                        Ok(_) => Ok(rest),
                    },
                },
            },
        }
    }

    open spec fn dec_ok(s: Seq<u8>, v: Self, rest: Seq<u8>) -> bool {
        let body = spec_take(s, 0x30)->Ok_0.0;
        let r = spec_take(s, 0x30)->Ok_0.1;
        let b1 = Integer::dec_res(body)->Ok_0;
        let b2 = AlgorithmIdentifier::dec_res(b1)->Ok_0;
        let b3 = OctetString::dec_res(b2)->Ok_0;
        &&& spec_take(s, 0x30) is Ok
        &&& r == rest
        &&& Integer::dec_res(body) is Ok
        &&& Integer::dec_ok(body, v.version, b1)
        &&& AlgorithmIdentifier::dec_res(b1) is Ok
        &&& AlgorithmIdentifier::dec_ok(b1, v.privateKeyAlgorithm, b2)
        &&& OctetString::dec_res(b2) is Ok
        &&& OctetString::dec_ok(b2, v.privateKey, b3)
    }

    #[verifier::rlimit(100)]
    #[verifier::spinoff_prover]
    fn parse(p: &mut Parser<'a>) -> (r: Result<Self, Error>) {
        let (_, mut sub) = p.descend(Tag::sequence())?;
        let version = Integer::parse(&mut sub)?;
        let ghost b1 = sub@;
        let privateKeyAlgorithm = AlgorithmIdentifier::parse(&mut sub)?;
        proof {
            lemma_alg_id_dec_ok_size(
                b1,
                privateKeyAlgorithm.algorithm,
                privateKeyAlgorithm.parameters,
                sub@,
            );
        }
        let privateKey = OctetString::parse(&mut sub)?;
        Ok(PrivateKeyInfo { version, privateKeyAlgorithm, privateKey })
    }

    fn encode(&self, out: &mut Vec<u8>, enc: &mut Encoder) -> (r: Result<usize, Error>) {
        let ghost out0 = out@;
        let ghost e0 = *enc;
        let bl = self.body_len();
        let mut body = enc.begin(out, Tag::sequence(), bl)?;
        let ghost mut acc = seq![0x30u8] + length_encoding(bl as int);
        self.version.encode(out, &mut body)?;
        proof {
            lemma_splice_adjacent(out0, e0.pos as int, acc, self.version.enc());
            acc = acc + self.version.enc();
        }
        self.privateKeyAlgorithm.encode(out, &mut body)?;
        proof {
            lemma_splice_adjacent(out0, e0.pos as int, acc, self.privateKeyAlgorithm.enc());
            acc = acc + self.privateKeyAlgorithm.enc();
        }
        self.privateKey.encode(out, &mut body)?;
        proof {
            lemma_splice_adjacent(out0, e0.pos as int, acc, self.privateKey.enc());
            acc = acc + self.privateKey.enc();
            assert(acc =~= self.enc());
        }
        Ok(body.finish())
    }

    fn encoded_len(&self) -> (n: usize) {
        encoded_length_for(self.body_len())
    }
}

/// Parsing inverts encoding for PKCS#8 private key wrappers.
pub proof fn lemma_private_key_info_enc_dec(v: PrivateKeyInfo<'_>, tail: Seq<u8>)
    requires
        v.wf(),
        v.spec_body().len() <= 0xffff,
    ensures
        PrivateKeyInfo::dec_res(v.enc() + tail) == Ok::<Seq<u8>, Error>(tail),
        PrivateKeyInfo::dec_ok(v.enc() + tail, v, tail),
{
    lemma_take_roundtrip(0x30, v.spec_body(), tail);
    let t3 = Seq::<u8>::empty();
    let t2 = v.privateKey.enc() + t3;
    let t1 = v.privateKeyAlgorithm.enc() + t2;
    assert(v.spec_body() =~= v.version.enc() + t1);
    lemma_integer_enc_dec(v.version, t1);
    assert(v.privateKeyAlgorithm.enc().len() == 1 + length_encoding(
        v.privateKeyAlgorithm.spec_body().len() as int,
    ).len() + v.privateKeyAlgorithm.spec_body().len());
    lemma_algorithm_identifier_enc_dec(v.privateKeyAlgorithm, t2);
    lemma_octet_string_enc_dec(v.privateKey, t3);
    assert(v.privateKey.enc() + t3 =~= v.privateKey.enc());
}

/// PKCS#8 wrapper decoding is unambiguous.
pub proof fn lemma_private_key_info_dec_unique(
    s: Seq<u8>,
    v1: PrivateKeyInfo<'_>,
    r1: Seq<u8>,
    v2: PrivateKeyInfo<'_>,
    r2: Seq<u8>,
)
    requires
        PrivateKeyInfo::dec_ok(s, v1, r1),
        PrivateKeyInfo::dec_ok(s, v2, r2),
    ensures
        v1.enc() == v2.enc(),
        r1 == r2,
{
    let body = spec_take(s, 0x30)->Ok_0.0;
    let b1 = Integer::dec_res(body)->Ok_0;
    let b2 = AlgorithmIdentifier::dec_res(b1)->Ok_0;
    let b3 = OctetString::dec_res(b2)->Ok_0;
    lemma_integer_dec_unique(body, v1.version, b1, v2.version, b1);
    lemma_algorithm_identifier_dec_unique(b1, v1.privateKeyAlgorithm, b2, v2.privateKeyAlgorithm, b2);
    lemma_octet_string_dec_unique(b2, v1.privateKey, b3, v2.privateKey, b3);
    assert(v1.spec_body() == v2.spec_body());
}

/// Round trip: a PKCS#8 wrapper decoded from bytes that are the canonical
/// encoding of a well-formed one has that same encoding, so `encoded_len`
/// equals the original byte length and re-encoding reproduces the original
/// bytes exactly.
pub proof fn round_trip_private_key_info(
    w: PrivateKeyInfo<'_>,
    v: PrivateKeyInfo<'_>,
    tail: Seq<u8>,
    rest: Seq<u8>,
)
    requires
        w.wf(),
        w.spec_body().len() <= 0xffff,
        PrivateKeyInfo::dec_ok(w.enc() + tail, v, rest),
    ensures
        v.enc() == w.enc(),
        rest == tail,
{
    lemma_private_key_info_enc_dec(w, tail);
    lemma_private_key_info_dec_unique(w.enc() + tail, w, tail, v, rest);
}

/// A SEC1 elliptic-curve private key: version marker and the private scalar
/// as an octet string.
#[derive(Clone, Debug)]
#[allow(non_snake_case)]
pub struct EcPrivateKey<'a> {
    pub version: EcPrivateKeyVer,
    pub privateKey: OctetString<'a>,
}

#[allow(non_snake_case)]
impl<'a> EcPrivateKey<'a> {
    /// The concatenated field encodings: the SEQUENCE body.
    pub open spec fn spec_body(self) -> Seq<u8> {
        self.version.enc() + self.privateKey.enc()
    }

    /// The summed encoded length of every field.
    pub fn body_len(&self) -> (n: usize)
        requires
            self.wf(),
        ensures
            n == self.spec_body().len(),
    {
        let mut result: usize = 0;
        result = result + self.version.encoded_len();
        result = result + self.privateKey.encoded_len();
        result
    }
}

#[allow(non_snake_case)]
impl<'a> Type<'a> for EcPrivateKey<'a> {
    open spec fn wf(&self) -> bool {
        &&& self.privateKey.wf()
        &&& self.spec_body().len() <= 0xffff_ffff
        &&& self.spec_body().len() + 6 <= usize::MAX
    }

    open spec fn enc(&self) -> Seq<u8> {
        tlv(0x30, self.spec_body())
    }

    open spec fn dec_res(s: Seq<u8>) -> Result<Seq<u8>, Error> {
        match spec_take(s, 0x30) {
            Err(e) => Err(e),
            Ok((body, rest)) => match EcPrivateKeyVer::dec_res(body) {
                Err(e) => Err(e),
                Ok(b1) => match OctetString::dec_res(b1) {
                    Err(e) => Err(e),
                    Ok(_) => Ok(rest),
                },
            },
        }
    }

    open spec fn dec_ok(s: Seq<u8>, v: Self, rest: Seq<u8>) -> bool {
        let body = spec_take(s, 0x30)->Ok_0.0;
        let r = spec_take(s, 0x30)->Ok_0.1;
        let b1 = EcPrivateKeyVer::dec_res(body)->Ok_0;
        let b2 = OctetString::dec_res(b1)->Ok_0;
        &&& spec_take(s, 0x30) is Ok
        &&& r == rest
        &&& EcPrivateKeyVer::dec_res(body) is Ok
        &&& EcPrivateKeyVer::dec_ok(body, v.version, b1)
        &&& OctetString::dec_res(b1) is Ok
        &&& OctetString::dec_ok(b1, v.privateKey, b2)
    }

    fn parse(p: &mut Parser<'a>) -> (r: Result<Self, Error>) {
        let (_, mut sub) = p.descend(Tag::sequence())?;
        let version = EcPrivateKeyVer::parse(&mut sub)?;
        let privateKey = OctetString::parse(&mut sub)?;
        Ok(EcPrivateKey { version, privateKey })
    }

    fn encode(&self, out: &mut Vec<u8>, enc: &mut Encoder) -> (r: Result<usize, Error>) {
        let ghost out0 = out@;
        let ghost e0 = *enc;
        let bl = self.body_len();
        let mut body = enc.begin(out, Tag::sequence(), bl)?;
        let ghost mut acc = seq![0x30u8] + length_encoding(bl as int);
        self.version.encode(out, &mut body)?;
        proof {
            lemma_splice_adjacent(out0, e0.pos as int, acc, self.version.enc());
            acc = acc + self.version.enc();
        }
        self.privateKey.encode(out, &mut body)?;
        proof {
            lemma_splice_adjacent(out0, e0.pos as int, acc, self.privateKey.enc());
            acc = acc + self.privateKey.enc();
            assert(acc =~= self.enc());
        }
        Ok(body.finish())
    }

    fn encoded_len(&self) -> (n: usize) {
        encoded_length_for(self.body_len())
    }
}

/// Parsing inverts encoding for SEC1 elliptic-curve private keys.
pub proof fn lemma_ec_private_key_enc_dec(v: EcPrivateKey<'_>, tail: Seq<u8>)
    requires
        v.wf(),
        v.spec_body().len() <= 0xffff,
    ensures
        EcPrivateKey::dec_res(v.enc() + tail) == Ok::<Seq<u8>, Error>(tail),
        EcPrivateKey::dec_ok(v.enc() + tail, v, tail),
{
    lemma_take_roundtrip(0x30, v.spec_body(), tail);
    let t2 = Seq::<u8>::empty();
    let t1 = v.privateKey.enc() + t2;
    assert(v.spec_body() =~= v.version.enc() + t1);
    lemma_enum_enc_dec(v.version.value(), t1);
    lemma_octet_string_enc_dec(v.privateKey, t2);
    assert(v.privateKey.enc() + t2 =~= v.privateKey.enc());
}

/// SEC1 key decoding is unambiguous.
pub proof fn lemma_ec_private_key_dec_unique(
    s: Seq<u8>,
    v1: EcPrivateKey<'_>,
    r1: Seq<u8>,
    v2: EcPrivateKey<'_>,
    r2: Seq<u8>,
)
    requires
        EcPrivateKey::dec_ok(s, v1, r1),
        EcPrivateKey::dec_ok(s, v2, r2),
    ensures
        v1.enc() == v2.enc(),
        r1 == r2,
{
    let body = spec_take(s, 0x30)->Ok_0.0;
    let b1 = EcPrivateKeyVer::dec_res(body)->Ok_0;
    let b2 = OctetString::dec_res(b1)->Ok_0;
    lemma_enum_dec_unique(body, v1.version.value() as nat, b1, v2.version.value() as nat, b1);
    lemma_octet_string_dec_unique(b1, v1.privateKey, b2, v2.privateKey, b2);
    assert(v1.spec_body() == v2.spec_body());
}

/// Round trip: a SEC1 key decoded from bytes that are the canonical encoding
/// of a well-formed key has that same encoding, so `encoded_len` equals the
/// original byte length and re-encoding reproduces the original bytes
/// exactly.
pub proof fn round_trip_ec_private_key(
    w: EcPrivateKey<'_>,
    v: EcPrivateKey<'_>,
    tail: Seq<u8>,
    rest: Seq<u8>,
)
    requires
        w.wf(),
        w.spec_body().len() <= 0xffff,
        EcPrivateKey::dec_ok(w.enc() + tail, v, rest),
    ensures
        v.enc() == w.enc(),
        rest == tail,
{
    lemma_ec_private_key_enc_dec(w, tail);
    lemma_ec_private_key_dec_unique(w.enc() + tail, w, tail, v, rest);
}

} // verus!
