use vstd::prelude::*;

use crate::err::Error;

verus! {

/// The DER-canonical byte encoding of a length: the short form for values up
/// to 0x7f, otherwise the long form `0x80|n` followed by the `n` big-endian
/// value bytes, with the fewest bytes possible (up to four supported).
pub open spec fn length_encoding(n: int) -> Seq<u8>
    recommends
        0 <= n <= 0xffff_ffff,
{
    if n <= 0x7f {
        seq![n as u8]
    } else if n <= 0xff {
        seq![0x81u8, (n % 0x100) as u8]
    } else if n <= 0xffff {
        seq![0x82u8, ((n / 0x100) % 0x100) as u8, (n % 0x100) as u8]
    } else if n <= 0xff_ffff {
        seq![
            0x83u8,
            ((n / 0x1_0000) % 0x100) as u8,
            ((n / 0x100) % 0x100) as u8,
            (n % 0x100) as u8,
        ]
    } else {
        seq![
            0x84u8,
            ((n / 0x100_0000) % 0x100) as u8,
            ((n / 0x1_0000) % 0x100) as u8,
            ((n / 0x100) % 0x100) as u8,
            (n % 0x100) as u8,
        ]
    }
}

/// The full TLV encoding of one value: tag byte, canonical length encoding,
/// then the body bytes.
pub open spec fn tlv(tag: u8, body: Seq<u8>) -> Seq<u8> {
    seq![tag] + length_encoding(body.len() as int) + body
}

/// What reading a length header from the front of `s` yields: the decoded
/// length and the remaining bytes, or the exact error. Only the short form
/// and the one- and two-byte long forms are handled; a long form whose value
/// would have fit in fewer length bytes is rejected as non-canonical.
pub open spec fn spec_take_len(s: Seq<u8>) -> Result<(int, Seq<u8>), Error> {
    if s.len() == 0 {
        Err(Error::EndOfInput)
    } else if s[0] < 0x80 {
        Ok((s[0] as int, s.skip(1)))
    } else if s[0] == 0x81 {
        if s.len() < 2 {
            Err(Error::EndOfInput)
        } else if s[1] < 0x80 {
            Err(Error::NonCanonicalEncoding)
        } else {
            Ok((s[1] as int, s.skip(2)))
        }
    } else if s[0] == 0x82 {
        if s.len() < 3 {
            Err(Error::EndOfInput)
        } else if s[1] * 0x100 + s[2] < 0x100 {
            Err(Error::NonCanonicalEncoding)
        } else {
            Ok((s[1] * 0x100 + s[2], s.skip(3)))
        }
    } else {
        Err(Error::NotImplemented)
    }
}

/// What reading one TLV with the expected tag from the front of `s` yields:
/// the body and the remaining bytes, or the exact error.
pub open spec fn spec_take(s: Seq<u8>, tag: u8) -> Result<(Seq<u8>, Seq<u8>), Error> {
    if s.len() == 0 {
        Err(Error::EndOfInput)
    } else if s[0] != tag {
        Err(Error::UnexpectedTag)
    } else {
        match spec_take_len(s.skip(1)) {
            Err(e) => Err(e),
            Ok((n, r)) => if r.len() < n {
                Err(Error::EndOfInput)
            } else {
                Ok((r.take(n), r.skip(n)))
            },
        }
    }
}

/// A canonical length encoding followed by anything decodes back to the same
/// length, leaving exactly the following bytes.
pub proof fn lemma_take_len_roundtrip(n: int, r: Seq<u8>)
    requires
        0 <= n <= 0xffff,
    ensures
        spec_take_len(length_encoding(n) + r) == Ok::<(int, Seq<u8>), Error>((n, r)),
{
    let s = length_encoding(n) + r;
    if n <= 0x7f {
        assert(s[0] == n as u8);
        assert(s.skip(1) =~= r);
    } else if n <= 0xff {
        assert(s[0] == 0x81);
        assert(s[1] == (n % 0x100) as u8);
        assert(n % 0x100 == n);
        assert(s.skip(2) =~= r);
    } else {
        assert(s[0] == 0x82);
        assert((n / 0x100) % 0x100 == n / 0x100) by {
            assert(n / 0x100 <= 0xff) by (nonlinear_arith)
                requires 0x100 <= n <= 0xffff;
        };
        assert((n / 0x100) * 0x100 + n % 0x100 == n) by (nonlinear_arith)
            requires n >= 0;
        assert(s[1] * 0x100 + s[2] == n);
        assert(s.skip(3) =~= r);
    }
}

/// A TLV encoding followed by anything decodes back, when its body is within
/// the supported decodable size, to exactly the tag and body it was made of.
pub proof fn lemma_take_roundtrip(tag: u8, body: Seq<u8>, r: Seq<u8>)
    requires
        body.len() <= 0xffff,
    ensures
        spec_take(tlv(tag, body) + r, tag) == Ok::<(Seq<u8>, Seq<u8>), Error>((body, r)),
{
    let s = tlv(tag, body) + r;
    assert(s[0] == tag);
    assert(s.skip(1) =~= length_encoding(body.len() as int) + (body + r));
    lemma_take_len_roundtrip(body.len() as int, body + r);
    let n = body.len() as int;
    assert((body + r).take(n) =~= body);
    assert((body + r).skip(n) =~= r);
}

/// Canonicality of decoding: a successfully read length header is exactly the
/// canonical encoding of the length it yields.
pub proof fn lemma_take_len_complete(t: Seq<u8>, n: int, r: Seq<u8>)
    requires
        spec_take_len(t) == Ok::<(int, Seq<u8>), Error>((n, r)),
    ensures
        0 <= n <= 0xffff,
        t == length_encoding(n) + r,
{
    if t[0] < 0x80 {
        assert(t =~= length_encoding(n) + r);
    } else if t[0] == 0x81 {
        assert(t =~= length_encoding(n) + r);
    } else {
        assert(t[0] == 0x82);
        assert(n == t[1] * 0x100 + t[2]);
        assert(n / 0x100 == t[1] && n % 0x100 == t[2]) by (nonlinear_arith)
            requires n == t[1] * 0x100 + t[2], t[1] < 0x100, 0 <= t[2] < 0x100;
        assert(t =~= length_encoding(n) + r);
    }
}

/// Canonicality of decoding: a successfully read TLV is exactly the encoding
/// of the tag and body it yields.
pub proof fn lemma_take_complete(s: Seq<u8>, tag: u8, body: Seq<u8>, rest: Seq<u8>)
    requires
        spec_take(s, tag) == Ok::<(Seq<u8>, Seq<u8>), Error>((body, rest)),
    ensures
        body.len() <= 0xffff,
        s == tlv(tag, body) + rest,
{
    let t = s.skip(1);
    let (n, r) = spec_take_len(t)->Ok_0;
    lemma_take_len_complete(t, n, r);
    assert(r.take(n) == body && r.skip(n) == rest);
    assert(r =~= body + rest);
    assert(s =~= seq![tag] + (length_encoding(n) + r));
    assert(seq![tag] + (length_encoding(n) + (body + rest)) =~= tlv(tag, body) + rest);
}

/// TLV encodings are self-delimiting: if two of them begin the same byte
/// sequence, they have the same tag and body and are followed by the same
/// bytes.
pub proof fn lemma_tlv_prefix_free(t1: u8, b1: Seq<u8>, r1: Seq<u8>, t2: u8, b2: Seq<u8>, r2: Seq<u8>)
    requires
        b1.len() <= 0xffff,
        b2.len() <= 0xffff,
        tlv(t1, b1) + r1 == tlv(t2, b2) + r2,
    ensures
        t1 == t2,
        b1 == b2,
        r1 == r2,
{
    let s = tlv(t1, b1) + r1;
    assert(s[0] == t1);
    assert(s[0] == t2);
    lemma_take_roundtrip(t1, b1, r1);
    lemma_take_roundtrip(t2, b2, r2);
    assert(spec_take(s, t1) == Ok::<(Seq<u8>, Seq<u8>), Error>((b1, r1)));
    assert(spec_take(s, t1) == Ok::<(Seq<u8>, Seq<u8>), Error>((b2, r2)));
}

/// `out` with the `bytes.len()` bytes starting at `at` replaced by `bytes`.
pub open spec fn splice(out: Seq<u8>, at: int, bytes: Seq<u8>) -> Seq<u8>
    recommends
        0 <= at,
        at + bytes.len() <= out.len(),
{
    out.take(at) + bytes + out.skip(at + bytes.len())
}

pub proof fn lemma_splice_len(out: Seq<u8>, at: int, bytes: Seq<u8>)
    requires
        0 <= at,
        at + bytes.len() <= out.len(),
    ensures
        splice(out, at, bytes).len() == out.len(),
        forall|i: int| 0 <= i < at ==> #[trigger] splice(out, at, bytes)[i] == out[i],
        forall|i: int|
            at + bytes.len() <= i < out.len() ==> #[trigger] splice(out, at, bytes)[i] == out[i],
        forall|i: int|
            at <= i < at + bytes.len() ==> #[trigger] splice(out, at, bytes)[i] == bytes[i - at],
{
}

/// Splicing nothing changes nothing.
pub proof fn lemma_splice_empty(out: Seq<u8>, at: int)
    requires
        0 <= at <= out.len(),
    ensures
        splice(out, at, Seq::<u8>::empty()) == out,
{
    assert(splice(out, at, Seq::<u8>::empty()) =~= out);
}

/// Two adjacent splices amount to one splice of the concatenation.
pub proof fn lemma_splice_adjacent(out: Seq<u8>, at: int, b1: Seq<u8>, b2: Seq<u8>)
    requires
        0 <= at,
        at + b1.len() + b2.len() <= out.len(),
    ensures
        splice(splice(out, at, b1), at + b1.len(), b2) == splice(out, at, b1 + b2),
{
    lemma_splice_len(out, at, b1);
    assert(splice(splice(out, at, b1), at + b1.len(), b2) =~= splice(out, at, b1 + b2));
}

/// Writing one more byte right after a splice extends the splice.
pub proof fn lemma_splice_extend(out: Seq<u8>, at: int, b: Seq<u8>, x: u8)
    requires
        0 <= at,
        at + b.len() + 1 <= out.len(),
    ensures
        splice(out, at, b).update(at + b.len(), x) == splice(out, at, b.push(x)),
{
    assert(splice(out, at, b).update(at + b.len(), x) =~= splice(out, at, b.push(x)));
}

/// A single updated byte is a one-byte splice.
pub proof fn lemma_splice_single(out: Seq<u8>, at: int, b: u8)
    requires
        0 <= at < out.len(),
    ensures
        out.update(at, b) == splice(out, at, seq![b]),
{
    assert(out.update(at, b) =~= splice(out, at, seq![b]));
}

} // verus!
