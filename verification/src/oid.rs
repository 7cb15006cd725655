use vstd::prelude::*;
use vstd::slice::{slice_index_get, slice_subrange};

use crate::codec::Type;
use crate::encoder::{encoded_length_for, Encoder};
use crate::err::Error;
use crate::parser::Parser;
use crate::tag::Tag;
use crate::wire::{length_encoding, lemma_splice_adjacent, lemma_take_complete, spec_take, tlv};

verus! {

/// The continuation bytes of a base-128 grouping: all base-128 digits of `h`
/// in big-endian order, each with the continuation bit set.
pub open spec fn hi_bytes(h: int) -> Seq<u8>
    decreases h,
    when h >= 0
    via hi_bytes_dec
{
    if h <= 0 {
        Seq::<u8>::empty()
    } else {
        hi_bytes(h / 0x80) + seq![(h % 0x80 + 0x80) as u8]
    }
}

#[via_fn]
proof fn hi_bytes_dec(h: int) {
    if h > 0 {
        assert(h / 0x80 < h) by (nonlinear_arith)
            requires
                h > 0,
        ;
    }
}

/// The DER encoding of one object-identifier component past the first pair:
/// a single byte for small values, otherwise a big-endian base-128 grouping
/// with the continuation bit set on every byte but the last.
pub open spec fn comp_enc(c: int) -> Seq<u8> {
    if c < 0x7f {
        seq![c as u8]
    } else {
        hi_bytes(c / 0x80) + seq![(c % 0x80) as u8]
    }
}

/// The component encodings of `path` from position `i` on, concatenated.
pub open spec fn oid_tail(path: Seq<usize>, i: int) -> Seq<u8>
    decreases path.len() - i,
{
    if i < 0 || i >= path.len() {
        Seq::<u8>::empty()
    } else {
        comp_enc(path[i] as int) + oid_tail(path, i + 1)
    }
}

/// The DER component encoding of a dotted path: the first two components
/// share one byte (40 times the first plus the second), each later component
/// encodes by `comp_enc`.
pub open spec fn oid_enc(path: Seq<usize>) -> Seq<u8> {
    if path.len() == 0 {
        Seq::<u8>::empty()
    } else if path.len() == 1 {
        seq![path[0] as u8]
    } else {
        seq![(40 * path[0] + path[1]) as u8] + oid_tail(path, 2)
    }
}

/// A fixed-capacity buffer holding the DER component encoding of a dotted
/// path of non-negative integers, plus a used-length. Paths whose encoding
/// would exceed the capacity of sixteen bytes are rejected.
#[derive(Clone, Debug, PartialEq, Eq)]
pub struct ObjectId {
    buf: Vec<u8>,
    used: usize,
}

impl ObjectId {
    /// The component encoding this object identifier holds.
    pub closed spec fn bytes(&self) -> Seq<u8> {
        self.buf@.take(self.used as int)
    }

    /// The capacity invariant: the buffer is sixteen bytes, of which `used`
    /// are in use.
    pub closed spec fn cap_ok(&self) -> bool {
        self.used <= 16 && self.buf@.len() == 16
    }

    /// The fixed capacity in bytes.
    pub const MAX_LEN: usize = 16;

    /// Emits the continuation bytes of one base-128 grouping.
    fn push_hi(out: &mut Vec<u8>, h: usize)
        ensures
            final(out)@ == old(out)@ + hi_bytes(h as int),
        decreases h,
    {
        if h > 0 {
            proof {
                assert(h / 0x80 < h) by (nonlinear_arith)
                    requires
                        h > 0,
                ;
            }
            Self::push_hi(out, h / 0x80);
            out.push((h % 0x80) as u8 + 0x80);
            proof {
                assert((old(out)@ + hi_bytes(h as int / 0x80)).push(((h % 0x80) as u8 + 0x80) as u8)
                    =~= old(out)@ + hi_bytes(h as int));
            }
        } else {
            proof {
                assert(old(out)@ + hi_bytes(0) =~= old(out)@);
            }
        }
    }

    /// Builds the component encoding of a dotted path, typically once at
    /// process start for a well-known constant.
    ///
    /// The path's encoding must fit the sixteen-byte capacity, and the first
    /// two components (or a lone single component) must fit their shared
    /// leading byte, as the OID convention restricts them.
    pub fn from_path(path: &[usize]) -> (r: ObjectId)
        requires
            oid_enc(path@).len() <= 16,
            path@.len() == 1 ==> path@[0] <= 0xff,
            path@.len() >= 2 ==> 40 * path@[0] + path@[1] <= 0xff,
        ensures
            r.cap_ok(),
            r.bytes() == oid_enc(path@),
    {
        let mut body: Vec<u8> = Vec::new();
        let n = path.len();
        if n == 1 {
            body.push(*slice_index_get(path, 0) as u8);
            proof {
                assert(body@ =~= oid_enc(path@));
            }
        } else if n >= 2 {
            let first = (*slice_index_get(path, 0) as u8) * 40 + (*slice_index_get(path, 1) as u8);
            body.push(first);
            proof {
                assert(body@ + oid_tail(path@, 2) =~= oid_enc(path@));
            }
            let mut i: usize = 2;
            while i < n
                invariant
                    2 <= i <= n,
                    n == path@.len(),
                    body@ + oid_tail(path@, i as int) == oid_enc(path@),
                    oid_enc(path@).len() <= 16,
                decreases n - i,
            {
                let item = *slice_index_get(path, i);
                if item < 0x7f {
                    body.push(item as u8);
                    proof {
                        assert(body@ + oid_tail(path@, i + 1) =~= oid_enc(path@));
                    }
                } else {
                    Self::push_hi(&mut body, item / 0x80);
                    body.push((item % 0x80) as u8);
                    proof {
                        assert(comp_enc(path@[i as int] as int) == hi_bytes(item as int / 0x80)
                            + seq![(item % 0x80) as u8]);
                        assert(body@ + oid_tail(path@, i + 1) =~= oid_enc(path@));
                    }
                }
                i = i + 1;
            }
            proof {
                assert(body@ + oid_tail(path@, n as int) =~= body@);
            }
        } else {
            proof {
                assert(body@ =~= oid_enc(path@));
            }
        }
        let used = body.len();
        let mut buf = body;
        while buf.len() < 16
            invariant
                used <= buf@.len() <= 16,
                buf@.take(used as int) == oid_enc(path@),
            decreases 16 - buf@.len(),
        {
            buf.push(0);
            proof {
                assert(buf@.take(used as int) =~= oid_enc(path@));
            }
        }
        ObjectId { buf, used }
    }

    /// The component encoding as a borrowed byte range.
    pub fn as_ref(&self) -> (r: &[u8])
        requires
            self.cap_ok(),
        ensures
            r@ == self.bytes(),
    {
        slice_subrange(self.buf.as_slice(), 0, self.used)
    }
}

impl<'a> Type<'a> for ObjectId {
    open spec fn wf(&self) -> bool {
        self.cap_ok()
    }

    open spec fn enc(&self) -> Seq<u8> {
        tlv(0x06, self.bytes())
    }

    open spec fn dec_res(s: Seq<u8>) -> Result<Seq<u8>, Error> {
        match spec_take(s, 0x06) {
            Ok((body, rest)) => if body.len() <= 16 {
                Ok(rest)
            } else {
                Err(Error::UnsupportedLargeObjectId)
            },
            Err(e) => Err(e),
        }
    }

    open spec fn dec_ok(s: Seq<u8>, v: Self, rest: Seq<u8>) -> bool {
        v.bytes().len() <= 16 && s == tlv(0x06, v.bytes()) + rest
    }

    fn parse(p: &mut Parser<'a>) -> (r: Result<Self, Error>) {
        let (_, body) = p.take(Tag::object_id())?;
        if body.len() > 16 {
            return Err(Error::UnsupportedLargeObjectId);
        }
        proof {
            lemma_take_complete(old(p)@, 0x06, body@, p@);
        }
        let n = body.len();
        let mut buf: Vec<u8> = Vec::new();
        let mut i: usize = 0;
        while i < n
            invariant
                i <= n <= 16,
                n == body@.len(),
                buf@ == body@.take(i as int),
            decreases n - i,
        {
            buf.push(*slice_index_get(body, i));
            proof {
                assert(body@.take(i as int).push(body@[i as int]) =~= body@.take(i + 1));
            }
            i = i + 1;
        }
        proof {
            assert(body@.take(n as int) =~= body@);
        }
        while buf.len() < 16
            invariant
                n <= buf@.len() <= 16,
                buf@.take(n as int) == body@,
            decreases 16 - buf@.len(),
        {
            buf.push(0);
            proof {
                assert(buf@.take(n as int) =~= body@);
            }
        }
        Ok(ObjectId { buf, used: n })
    }

    fn encode(&self, out: &mut Vec<u8>, enc: &mut Encoder) -> (r: Result<usize, Error>) {
        let ghost out0 = out@;
        let ghost e0 = *enc;
        let mut body = enc.begin(out, Tag::object_id(), self.used)?;
        body.append_slice(out, self.as_ref())?;
        let n = body.finish();
        proof {
            lemma_splice_adjacent(
                out0,
                e0.pos as int,
                seq![0x06u8] + length_encoding(self.bytes().len() as int),
                self.bytes(),
            );
            assert((seq![0x06u8] + length_encoding(self.bytes().len() as int)) + self.bytes()
                =~= self.enc());
        }
        Ok(n)
    }

    fn encoded_len(&self) -> (n: usize) {
        encoded_length_for(self.used)
    }
}

/// Within capacity, the held encoding is at most sixteen bytes.
pub proof fn lemma_object_id_cap(o: &ObjectId)
    requires
        o.cap_ok(),
    ensures
        o.bytes().len() <= 16,
{
}

/// Parsing inverts encoding for object identifiers.
pub proof fn lemma_object_id_enc_dec(v: ObjectId, tail: Seq<u8>)
    requires
        v.bytes().len() <= 16,
    ensures
        ObjectId::dec_res(v.enc() + tail) == Ok::<Seq<u8>, Error>(tail),
        ObjectId::dec_ok(v.enc() + tail, v, tail),
{
    crate::wire::lemma_take_roundtrip(0x06, v.bytes(), tail);
}

/// Object-identifier decoding is unambiguous.
pub proof fn lemma_object_id_dec_unique(
    s: Seq<u8>,
    v1: ObjectId,
    r1: Seq<u8>,
    v2: ObjectId,
    r2: Seq<u8>,
)
    requires
        ObjectId::dec_ok(s, v1, r1),
        ObjectId::dec_ok(s, v2, r2),
    ensures
        v1.enc() == v2.enc(),
        v1.bytes() == v2.bytes(),
        r1 == r2,
{
    crate::wire::lemma_tlv_prefix_free(0x06, v1.bytes(), r1, 0x06, v2.bytes(), r2);
}

/// The MD5 digest algorithm identifier, 1.2.840.113549.2.5.
pub fn id_md5() -> (r: ObjectId)
    ensures
        r.cap_ok(),
        r.bytes() == seq![0x2au8, 0x86, 0x48, 0x86, 0xf7, 0x0d, 0x02, 0x05],
{
    let path: &[usize] = &[1, 2, 840, 113549, 2, 5];
    proof {
        lemma_id_md5_bytes(path@);
    }
    ObjectId::from_path(path)
}

proof fn lemma_id_md5_bytes(p: Seq<usize>)
    requires
        p =~= seq![1usize, 2, 840, 113549, 2, 5],
    ensures
        oid_enc(p) == seq![0x2au8, 0x86, 0x48, 0x86, 0xf7, 0x0d, 0x02, 0x05],
{
    reveal_with_fuel(oid_tail, 6);
    reveal_with_fuel(hi_bytes, 4);
    assert(oid_enc(p) =~= seq![0x2au8, 0x86, 0x48, 0x86, 0xf7, 0x0d, 0x02, 0x05]);
}

/// The elliptic-curve public key algorithm identifier, 1.2.840.10045.2.1.
pub fn id_ec_public_key() -> (r: ObjectId)
    ensures
        r.cap_ok(),
        r.bytes() == seq![0x2au8, 0x86, 0x48, 0xce, 0x3d, 0x02, 0x01],
{
    let path: &[usize] = &[1, 2, 840, 10045, 2, 1];
    proof {
        lemma_id_ec_public_key_bytes(path@);
    }
    ObjectId::from_path(path)
}

proof fn lemma_id_ec_public_key_bytes(p: Seq<usize>)
    requires
        p =~= seq![1usize, 2, 840, 10045, 2, 1],
    ensures
        oid_enc(p) == seq![0x2au8, 0x86, 0x48, 0xce, 0x3d, 0x02, 0x01],
{
    reveal_with_fuel(oid_tail, 6);
    reveal_with_fuel(hi_bytes, 4);
    assert(oid_enc(p) =~= seq![0x2au8, 0x86, 0x48, 0xce, 0x3d, 0x02, 0x01]);
}

/// The NIST P-256 curve identifier, 1.2.840.10045.3.1.7.
pub fn id_prime256v1() -> (r: ObjectId)
    ensures
        r.cap_ok(),
        r.bytes() == seq![0x2au8, 0x86, 0x48, 0xce, 0x3d, 0x03, 0x01, 0x07],
{
    let path: &[usize] = &[1, 2, 840, 10045, 3, 1, 7];
    proof {
        lemma_id_prime256v1_bytes(path@);
    }
    ObjectId::from_path(path)
}

proof fn lemma_id_prime256v1_bytes(p: Seq<usize>)
    requires
        p =~= seq![1usize, 2, 840, 10045, 3, 1, 7],
    ensures
        oid_enc(p) == seq![0x2au8, 0x86, 0x48, 0xce, 0x3d, 0x03, 0x01, 0x07],
{
    reveal_with_fuel(oid_tail, 7);
    reveal_with_fuel(hi_bytes, 4);
    assert(oid_enc(p) =~= seq![0x2au8, 0x86, 0x48, 0xce, 0x3d, 0x03, 0x01, 0x07]);
}

} // verus!
