use vstd::arithmetic::power::{lemma_pow_increases, pow};
use vstd::layout::{size_of, unsigned_int_max_values};
use vstd::prelude::*;
use vstd::slice::{slice_index_get, slice_subrange};

use crate::codec::{encode_post, Type};
use crate::encoder::{encoded_length_for, encoder_inv, Encoder};
use crate::err::Error;
use crate::parser::Parser;
use crate::tag::Tag;
use crate::wire::{length_encoding, lemma_splice_adjacent, lemma_take_complete, spec_take, tlv};

verus! {

pub open spec fn all_zero(s: Seq<u8>) -> bool {
    forall|i: int| 0 <= i < s.len() ==> s[i] == 0
}

/// The minimal two's-complement big-endian form of `s`: empty or all-zero
/// input canonicalizes to a single zero byte; otherwise redundant leading
/// sign-extension bytes (0xff before a byte with its top bit set, 0x00 before
/// a byte with its top bit clear) are dropped.
pub open spec fn canon(s: Seq<u8>) -> Seq<u8>
    decreases s.len(),
{
    if s.len() == 0 || all_zero(s) {
        seq![0u8]
    } else if s.len() > 1 && s[0] == 0xff && s[1] >= 0x80 {
        canon(s.skip(1))
    } else if s.len() > 1 && s[0] == 0x00 && s[1] < 0x80 {
        canon(s.skip(1))
    } else {
        s
    }
}

/// Whether a two's-complement byte string denotes a negative value.
pub open spec fn spec_is_neg(s: Seq<u8>) -> bool {
    s.len() > 0 && s[0] >= 0x80
}

/// The big-endian unsigned value of a byte string.
pub open spec fn be_uint(s: Seq<u8>) -> nat
    decreases s.len(),
{
    if s.len() == 0 {
        0
    } else {
        be_uint(s.drop_last()) * 0x100 + s.last() as nat
    }
}

/// A byte string in minimal two's-complement form: nonempty, with no
/// droppable leading sign-extension byte.
pub open spec fn is_minimal(s: Seq<u8>) -> bool {
    &&& s.len() >= 1
    &&& s.len() > 1 ==> !(s[0] == 0xff && s[1] >= 0x80) && !(s[0] == 0x00 && s[1] < 0x80)
}

/// Canonicalization yields a minimal form no longer than its input (and one
/// byte long for empty input).
pub proof fn lemma_canon_minimal(s: Seq<u8>)
    ensures
        is_minimal(canon(s)),
        1 <= canon(s).len(),
        canon(s).len() <= if s.len() == 0 { 1int } else { s.len() as int },
    decreases s.len(),
{
    if s.len() == 0 || all_zero(s) {
    } else if s.len() > 1 && s[0] == 0xff && s[1] >= 0x80 {
        lemma_canon_minimal(s.skip(1));
    } else if s.len() > 1 && s[0] == 0x00 && s[1] < 0x80 {
        lemma_canon_minimal(s.skip(1));
    }
}

/// A minimal form is a fixed point of canonicalization.
pub proof fn lemma_canon_of_minimal(s: Seq<u8>)
    requires
        is_minimal(s),
    ensures
        canon(s) == s,
{
    if all_zero(s) {
        if s.len() > 1 {
            assert(s[0] == 0 && s[1] < 0x80);
        }
        assert(s =~= seq![0u8]);
    }
}

/// Canonicalization is idempotent.
pub proof fn lemma_canon_idempotent(s: Seq<u8>)
    ensures
        canon(canon(s)) == canon(s),
{
    lemma_canon_minimal(s);
    lemma_canon_of_minimal(canon(s));
}

/// A byte string of leading zeros followed by one byte below 0x80
/// canonicalizes to that one byte.
pub proof fn lemma_canon_zero_pad(s: Seq<u8>)
    requires
        s.len() >= 1,
        forall|i: int| 0 <= i < s.len() - 1 ==> s[i] == 0,
        s.last() < 0x80,
    ensures
        canon(s) == seq![s.last()],
    decreases s.len(),
{
    if all_zero(s) {
        assert(s.last() == 0);
    } else if s.len() > 1 {
        assert(s[0] == 0);
        assert(s[1] < 0x80);
        lemma_canon_zero_pad(s.skip(1));
        assert(s.skip(1).last() == s.last());
    }
}

/// The big-endian value of a byte string is below 256 to the power of its
/// length.
pub proof fn lemma_be_uint_bound(s: Seq<u8>)
    ensures
        be_uint(s) < pow(0x100, s.len() as nat),
    decreases s.len(),
{
    if s.len() == 0 {
        vstd::arithmetic::power::lemma_pow0(0x100);
    } else {
        lemma_be_uint_bound(s.drop_last());
        lemma_pow_unfold(s.len() as nat);
        assert(be_uint(s.drop_last()) * 0x100 + s.last() < 0x100 * pow(
            0x100,
            (s.len() - 1) as nat,
        )) by (nonlinear_arith)
            requires
                be_uint(s.drop_last()) < pow(0x100, (s.len() - 1) as nat),
                s.last() < 0x100,
        ;
    }
}

/// One unfolding of the power of 256.
proof fn lemma_pow_unfold(e: nat)
    requires
        e >= 1,
    ensures
        pow(0x100, e) == 0x100 * pow(0x100, (e - 1) as nat),
{
    reveal(pow);
}

fn zero_slice() -> (r: &'static [u8])
    ensures
        r@ == seq![0u8],
{
    let r: &'static [u8] = &[0u8];
    proof {
        assert(r@ =~= seq![0u8]);
    }
    r
}

/// The minimal two's-complement big-endian byte string for a signed value,
/// borrowed from the input buffer on the parse path.
///
/// A parsed integer holds the TLV body verbatim (trusted canonical), so
/// re-encoding reproduces the parsed bytes exactly; `from_bytes`
/// canonicalizes arbitrary two's-complement input.
#[derive(Clone, Debug, PartialEq, Eq)]
pub struct Integer<'a> {
    twos_complement: &'a [u8],
}

impl<'a> View for Integer<'a> {
    type V = Seq<u8>;

    closed spec fn view(&self) -> Seq<u8> {
        self.twos_complement@
    }
}

impl<'a> Integer<'a> {
    /// Canonicalizes an arbitrary two's-complement byte string.
    pub fn from_bytes(bytes: &'a [u8]) -> (r: Self)
        ensures
            r@ == canon(bytes@),
    {
        let n = bytes.len();
        let mut k: usize = 0;
        while k < n && *slice_index_get(bytes, k) == 0
            invariant
                k <= n,
                n == bytes@.len(),
                forall|i: int| 0 <= i < k ==> bytes@[i] == 0,
            decreases n - k,
        {
            k = k + 1;
        }
        if k == n {
            proof {
                assert(all_zero(bytes@));
            }
            return Integer { twos_complement: zero_slice() };
        }
        let neg = *slice_index_get(bytes, 0) >= 0x80;
        let mut start: usize = 0;
        proof {
            assert(bytes@.skip(0) =~= bytes@);
        }
        if neg {
            while n - start > 1 && *slice_index_get(bytes, start) == 0xff && *slice_index_get(
                bytes,
                start + 1,
            ) >= 0x80
                invariant
                    start < n,
                    n == bytes@.len(),
                    bytes@[start as int] >= 0x80,
                    canon(bytes@) == canon(bytes@.skip(start as int)),
                decreases n - start,
            {
                proof {
                    let suf = bytes@.skip(start as int);
                    assert(suf[0] == bytes@[start as int]);
                    assert(suf[1] == bytes@[start + 1]);
                    assert(!all_zero(suf));
                    assert(suf.skip(1) =~= bytes@.skip(start + 1));
                }
                start = start + 1;
            }
            proof {
                let suf = bytes@.skip(start as int);
                assert(suf[0] == bytes@[start as int]);
                assert(!all_zero(suf));
                if suf.len() > 1 {
                    assert(suf[1] == bytes@[start + 1]);
                }
                assert(canon(suf) == suf);
            }
        } else {
            while n - start > 1 && *slice_index_get(bytes, start) == 0 && *slice_index_get(
                bytes,
                start + 1,
            ) < 0x80
                invariant
                    start <= k < n,
                    n == bytes@.len(),
                    bytes@[k as int] != 0,
                    bytes@[start as int] < 0x80,
                    canon(bytes@) == canon(bytes@.skip(start as int)),
                decreases n - start,
            {
                proof {
                    let suf = bytes@.skip(start as int);
                    assert(suf[0] == bytes@[start as int]);
                    assert(suf[1] == bytes@[start + 1]);
                    assert(suf[k - start] == bytes@[k as int]);
                    assert(!all_zero(suf));
                    assert(suf.skip(1) =~= bytes@.skip(start + 1));
                }
                start = start + 1;
            }
            proof {
                let suf = bytes@.skip(start as int);
                assert(suf[0] == bytes@[start as int]);
                assert(suf[k - start] == bytes@[k as int]);
                assert(!all_zero(suf));
                if suf.len() > 1 {
                    assert(suf[1] == bytes@[start + 1]);
                }
                assert(canon(suf) == suf);
            }
        }
        Integer { twos_complement: slice_subrange(bytes, start, n) }
    }

    /// Whether the value is negative: the top bit of the first byte.
    pub fn is_negative(&self) -> (r: bool)
        ensures
            r == spec_is_neg(self@),
    {
        if self.twos_complement.len() == 0 {
            false
        } else {
            *slice_index_get(self.twos_complement, 0) >= 0x80
        }
    }

    /// The value as a native word: valid only when non-negative and no wider
    /// than the platform's word, rejected as out of range otherwise.
    pub fn as_usize(&self) -> (r: Result<usize, Error>)
        ensures
            match r {
                Ok(n) => !spec_is_neg(self@) && self@.len() <= size_of::<usize>() && n == be_uint(
                    self@,
                ),
                Err(e) => e == Error::IntegerOutOfRange && (spec_is_neg(self@) || self@.len()
                    > size_of::<usize>()),
            },
    {
        if self.is_negative() || self.twos_complement.len() > core::mem::size_of::<usize>() {
            return Err(Error::IntegerOutOfRange);
        }
        let n = self.twos_complement.len();
        let mut v: usize = 0;
        let mut i: usize = 0;
        proof {
            unsigned_int_max_values();
            assert(self@.take(0) =~= Seq::<u8>::empty());
        }
        while i < n
            invariant
                i <= n,
                n == self@.len() <= size_of::<usize>(),
                v == be_uint(self@.take(i as int)),
                usize::MAX as nat == pow(0x100, size_of::<usize>()) - 1,
            decreases n - i,
        {
            proof {
                lemma_be_uint_bound(self@.take(i as int));
                lemma_pow_increases(0x100, (i + 1) as nat, size_of::<usize>());
                lemma_pow_unfold((i + 1) as nat);
                assert(pow(0x100, (i + 1) as nat) == pow(0x100, i as nat) * 0x100);
                assert(self@.take(i + 1).drop_last() =~= self@.take(i as int));
                assert(self@.take(i + 1).last() == self@[i as int]);
            }
            v = v * 0x100 + (*slice_index_get(self.twos_complement, i) as usize);
            i = i + 1;
        }
        proof {
            assert(self@.take(n as int) =~= self@);
        }
        Ok(v)
    }
}

impl<'a> Type<'a> for Integer<'a> {
    open spec fn wf(&self) -> bool {
        self@.len() <= 0xffff_ffff && self@.len() + 6 <= usize::MAX
    }

    open spec fn enc(&self) -> Seq<u8> {
        tlv(0x02, self@)
    }

    open spec fn dec_res(s: Seq<u8>) -> Result<Seq<u8>, Error> {
        match spec_take(s, 0x02) {
            Ok((body, rest)) => Ok(rest),
            Err(e) => Err(e),
        }
    }

    open spec fn dec_ok(s: Seq<u8>, v: Self, rest: Seq<u8>) -> bool {
        v@.len() <= 0xffff && s == tlv(0x02, v@) + rest
    }

    fn parse(p: &mut Parser<'a>) -> (r: Result<Self, Error>) {
        let (_, twos_complement) = p.take(Tag::integer())?;
        proof {
            lemma_take_complete(old(p)@, 0x02, twos_complement@, p@);
        }
        Ok(Integer { twos_complement })
    }

    fn encode(&self, out: &mut Vec<u8>, enc: &mut Encoder) -> (r: Result<usize, Error>) {
        let ghost out0 = out@;
        let ghost e0 = *enc;
        let mut body = enc.begin(out, Tag::integer(), self.twos_complement.len())?;
        body.append_slice(out, self.twos_complement)?;
        let n = body.finish();
        proof {
            lemma_splice_adjacent(
                out0,
                e0.pos as int,
                seq![0x02u8] + length_encoding(self@.len() as int),
                self@,
            );
            assert((seq![0x02u8] + length_encoding(self@.len() as int)) + self@ =~= self.enc());
        }
        Ok(n)
    }

    fn encoded_len(&self) -> (n: usize) {
        encoded_length_for(self.twos_complement.len())
    }
}

/// Canonicalization fixed point: an integer parsed back from the encoding of
/// a canonical form carries exactly that canonical form, and canonicalizing
/// it again changes nothing.
pub proof fn canonical_integer_fixed_point(raw: Seq<u8>, v: Integer<'_>, rest: Seq<u8>, tail: Seq<u8>)
    requires
        raw.len() <= 0xffff,
        Integer::dec_ok(tlv(0x02, canon(raw)) + tail, v, rest),
    ensures
        v@ == canon(raw),
        canon(v@) == v@,
        rest == tail,
{
    lemma_canon_minimal(raw);
    crate::wire::lemma_tlv_prefix_free(0x02, canon(raw), tail, 0x02, v@, rest);
    lemma_canon_idempotent(raw);
}

/// Parsing inverts encoding for integers: the encoding of any well-formed
/// integer, followed by anything, parses back to exactly that integer.
pub proof fn lemma_integer_enc_dec(v: Integer<'_>, tail: Seq<u8>)
    requires
        v@.len() <= 0xffff,
    ensures
        Integer::dec_res(v.enc() + tail) == Ok::<Seq<u8>, Error>(tail),
        Integer::dec_ok(v.enc() + tail, v, tail),
{
    crate::wire::lemma_take_roundtrip(0x02, v@, tail);
}

/// Integer decoding is unambiguous: two integers read from the same bytes
/// have the same encoding and leave the same remainder.
pub proof fn lemma_integer_dec_unique(
    s: Seq<u8>,
    v1: Integer<'_>,
    r1: Seq<u8>,
    v2: Integer<'_>,
    r2: Seq<u8>,
)
    requires
        Integer::dec_ok(s, v1, r1),
        Integer::dec_ok(s, v2, r2),
    ensures
        v1.enc() == v2.enc(),
        v1@ == v2@,
        r1 == r2,
{
    crate::wire::lemma_tlv_prefix_free(0x02, v1@, r1, 0x02, v2@, r2);
}

} // verus!
