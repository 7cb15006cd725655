use vstd::prelude::*;
use vstd::slice::slice_index_get;

use crate::err::Error;
use crate::tag::Tag;
use crate::wire::{
    length_encoding, lemma_splice_adjacent, lemma_splice_extend, lemma_splice_single, splice,
};

verus! {

/// A bounded window over a caller-owned output buffer, plus a running total
/// of bytes accounted through this window.
///
/// The window is the half-open range `[pos, end)` of the buffer that this
/// encoder may still write; `begin` carves a child window of exactly the
/// declared body size out of the front, so a field's encode logic
/// structurally cannot overrun into sibling space. The buffer itself is
/// passed to each writing operation, whose contract confines every change to
/// the window.
pub struct Encoder {
    /// Offset of the next byte this window may write.
    pub pos: usize,
    /// Exclusive upper bound of this window.
    pub end: usize,
    /// Bytes written through this window, headers of enclosing TLVs included.
    pub written: usize,
}

/// Well-formedness of an encoder window over a buffer of length `buf_len`.
pub open spec fn encoder_inv(e: Encoder, buf_len: int) -> bool {
    e.written <= e.pos <= e.end <= buf_len
}

impl Encoder {
    /// A root window covering the whole of `out`.
    pub fn new(out: &Vec<u8>) -> (e: Self)
        ensures
            e.pos == 0,
            e.end == out@.len(),
            e.written == 0,
            encoder_inv(e, out@.len() as int),
    {
        Encoder { pos: 0, end: out.len(), written: 0 }
    }

    /// Writes one byte at the window cursor and advances.
    pub fn push(&mut self, out: &mut Vec<u8>, byte: u8) -> (r: Result<(), Error>)
        requires
            encoder_inv(*old(self), old(out)@.len() as int),
        ensures
            final(out)@.len() == old(out)@.len(),
            final(self).end == old(self).end,
            encoder_inv(*final(self), final(out)@.len() as int),
            match r {
                Ok(()) => {
                    &&& old(self).pos < old(self).end
                    &&& final(out)@ == splice(old(out)@, old(self).pos as int, seq![byte])
                    &&& final(self).pos == old(self).pos + 1
                    &&& final(self).written == old(self).written + 1
                },
                Err(e) => {
                    &&& e == Error::EndOfInput
                    &&& old(self).pos == old(self).end
                    &&& *final(self) == *old(self)
                    &&& final(out)@ == old(out)@
                },
            },
    {
        if self.end - self.pos < 1 {
            return Err(Error::EndOfInput);
        }
        out[self.pos] = byte;
        proof {
            lemma_splice_single(old(out)@, old(self).pos as int, byte);
        }
        self.pos = self.pos + 1;
        self.written = self.written + 1;
        Ok(())
    }

    /// Writes a whole byte range at the window cursor and advances.
    pub fn append_slice(&mut self, out: &mut Vec<u8>, bytes: &[u8]) -> (r: Result<(), Error>)
        requires
            encoder_inv(*old(self), old(out)@.len() as int),
        ensures
            final(out)@.len() == old(out)@.len(),
            final(self).end == old(self).end,
            encoder_inv(*final(self), final(out)@.len() as int),
            match r {
                Ok(()) => {
                    &&& old(self).pos + bytes@.len() <= old(self).end
                    &&& final(out)@ == splice(old(out)@, old(self).pos as int, bytes@)
                    &&& final(self).pos == old(self).pos + bytes@.len()
                    &&& final(self).written == old(self).written + bytes@.len()
                },
                Err(e) => {
                    &&& e == Error::EndOfInput
                    &&& old(self).end - old(self).pos < bytes@.len()
                    &&& *final(self) == *old(self)
                    &&& final(out)@ == old(out)@
                },
            },
    {
        let n = bytes.len();
        if self.end - self.pos < n {
            return Err(Error::EndOfInput);
        }
        let base = self.pos;
        let mut i: usize = 0;
        proof {
            assert(bytes@.take(0) =~= Seq::<u8>::empty());
            assert(splice(old(out)@, base as int, bytes@.take(0)) =~= old(out)@);
        }
        while i < n
            invariant
                i <= n,
                n == bytes@.len(),
                base + n <= old(self).end <= old(out)@.len(),
                out@.len() == old(out)@.len(),
                out@ == splice(old(out)@, base as int, bytes@.take(i as int)),
            decreases n - i,
        {
            out[base + i] = *slice_index_get(bytes, i);
            proof {
                lemma_splice_extend(old(out)@, base as int, bytes@.take(i as int), bytes@[i as int]);
                assert(bytes@.take(i as int).push(bytes@[i as int]) =~= bytes@.take(i + 1));
            }
            i = i + 1;
        }
        proof {
            assert(bytes@.take(n as int) =~= bytes@);
        }
        self.pos = self.pos + n;
        self.written = self.written + n;
        Ok(())
    }

    /// Carves a child window of exactly `len` bytes off the front of this
    /// window, accounting those bytes as written through this window.
    fn split(&mut self, len: usize) -> (r: Result<Encoder, Error>)
        requires
            encoder_inv(*old(self), old(self).end as int),
        ensures
            final(self).end == old(self).end,
            match r {
                Ok(child) => {
                    &&& old(self).end - old(self).pos >= len
                    &&& child.pos == old(self).pos
                    &&& child.end == old(self).pos + len
                    &&& child.written == old(self).written
                    &&& final(self).pos == old(self).pos + len
                    &&& final(self).written == old(self).written + len
                },
                Err(e) => {
                    &&& e == Error::EndOfInput
                    &&& old(self).end - old(self).pos < len
                    &&& *final(self) == *old(self)
                },
            },
    {
        if self.end - self.pos < len {
            return Err(Error::EndOfInput);
        }
        let child = Encoder { pos: self.pos, end: self.pos + len, written: self.written };
        self.pos = self.pos + len;
        self.written = self.written + len;
        Ok(child)
    }

    /// Writes the tag byte and the canonical length header for `body_len`,
    /// then carves out and returns a child window covering exactly the next
    /// `body_len` bytes.
    ///
    /// `body_len` must equal the exact number of bytes the subsequent encode
    /// calls into the returned child will produce; the encoder does not
    /// independently verify this.
    #[verifier::rlimit(60)]
    pub fn begin(&mut self, out: &mut Vec<u8>, tag: Tag, body_len: usize) -> (r: Result<
        Encoder,
        Error,
    >)
        requires
            encoder_inv(*old(self), old(out)@.len() as int),
            body_len <= 0xffff_ffff,
        ensures
            final(out)@.len() == old(out)@.len(),
            final(self).end == old(self).end,
            encoder_inv(*final(self), final(out)@.len() as int),
            old(self).pos <= final(self).pos,
            old(self).written <= final(self).written,
            forall|i: int|
                0 <= i < final(out)@.len() && !(old(self).pos <= i < old(self).end)
                    ==> final(out)@[i] == old(out)@[i],
            match r {
                Ok(child) => {
                    let hdr = seq![tag.spec_byte()] + length_encoding(body_len as int);
                    &&& old(self).pos + hdr.len() + body_len <= old(self).end
                    &&& final(out)@ == splice(old(out)@, old(self).pos as int, hdr)
                    &&& child.pos == old(self).pos + hdr.len()
                    &&& child.end == child.pos + body_len
                    &&& child.written == old(self).written + hdr.len()
                    &&& encoder_inv(child, final(out)@.len() as int)
                    &&& final(self).pos == old(self).pos + hdr.len() + body_len
                    &&& final(self).written == old(self).written + hdr.len() + body_len
                },
                Err(e) => {
                    let hdr = seq![tag.spec_byte()] + length_encoding(body_len as int);
                    &&& e == Error::EndOfInput
                    &&& old(self).end - old(self).pos < hdr.len() + body_len
                },
            },
    {
        let ghost out0 = out@;
        let ghost pos0 = self.pos as int;
        self.push(out, tag.byte())?;
        if body_len <= 0x7f {
            self.push(out, body_len as u8)?;
            proof {
                lemma_splice_adjacent(out0, pos0, seq![tag.spec_byte()], seq![body_len as u8]);
                assert(seq![tag.spec_byte()] + seq![body_len as u8] =~= seq![tag.spec_byte()]
                    + length_encoding(body_len as int));
            }
        } else if body_len <= 0xff {
            self.push(out, 0x81)?;
            self.push(out, body_len as u8)?;
            proof {
                lemma_splice_adjacent(out0, pos0, seq![tag.spec_byte()], seq![0x81u8]);
                lemma_splice_adjacent(
                    out0,
                    pos0,
                    seq![tag.spec_byte()] + seq![0x81u8],
                    seq![body_len as u8],
                );
                assert((seq![tag.spec_byte()] + seq![0x81u8]) + seq![body_len as u8]
                    =~= seq![tag.spec_byte()] + length_encoding(body_len as int));
            }
        } else if body_len <= 0xffff {
            self.push(out, 0x82)?;
            self.push(out, (body_len / 0x100) as u8)?;
            self.push(out, (body_len % 0x100) as u8)?;
            proof {
                assert(body_len / 0x100 <= 0xff) by (nonlinear_arith)
                    requires 0x100 <= body_len <= 0xffff;
                lemma_splice_adjacent(out0, pos0, seq![tag.spec_byte()], seq![0x82u8]);
                lemma_splice_adjacent(
                    out0,
                    pos0,
                    seq![tag.spec_byte()] + seq![0x82u8],
                    seq![(body_len / 0x100) as u8],
                );
                lemma_splice_adjacent(
                    out0,
                    pos0,
                    (seq![tag.spec_byte()] + seq![0x82u8]) + seq![(body_len / 0x100) as u8],
                    seq![(body_len % 0x100) as u8],
                );
                assert(((seq![tag.spec_byte()] + seq![0x82u8]) + seq![(body_len / 0x100) as u8])
                    + seq![(body_len % 0x100) as u8] =~= seq![tag.spec_byte()] + length_encoding(
                    body_len as int,
                ));
            }
        } else if body_len <= 0xff_ffff {
            self.push(out, 0x83)?;
            self.push(out, (body_len / 0x1_0000) as u8)?;
            self.push(out, ((body_len / 0x100) % 0x100) as u8)?;
            self.push(out, (body_len % 0x100) as u8)?;
            proof {
                assert(body_len / 0x1_0000 <= 0xff) by (nonlinear_arith)
                    requires 0x1_0000 <= body_len <= 0xff_ffff;
                lemma_splice_adjacent(out0, pos0, seq![tag.spec_byte()], seq![0x83u8]);
                lemma_splice_adjacent(
                    out0,
                    pos0,
                    seq![tag.spec_byte()] + seq![0x83u8],
                    seq![(body_len / 0x1_0000) as u8],
                );
                lemma_splice_adjacent(
                    out0,
                    pos0,
                    (seq![tag.spec_byte()] + seq![0x83u8]) + seq![(body_len / 0x1_0000) as u8],
                    seq![((body_len / 0x100) % 0x100) as u8],
                );
                lemma_splice_adjacent(
                    out0,
                    pos0,
                    ((seq![tag.spec_byte()] + seq![0x83u8]) + seq![(body_len / 0x1_0000) as u8])
                        + seq![((body_len / 0x100) % 0x100) as u8],
                    seq![(body_len % 0x100) as u8],
                );
                assert((((seq![tag.spec_byte()] + seq![0x83u8]) + seq![(body_len
                    / 0x1_0000) as u8]) + seq![((body_len / 0x100) % 0x100) as u8]) + seq![(body_len
                    % 0x100) as u8] =~= seq![tag.spec_byte()] + length_encoding(body_len as int));
            }
        } else {
            self.push(out, 0x84)?;
            self.push(out, (body_len / 0x100_0000) as u8)?;
            self.push(out, ((body_len / 0x1_0000) % 0x100) as u8)?;
            self.push(out, ((body_len / 0x100) % 0x100) as u8)?;
            self.push(out, (body_len % 0x100) as u8)?;
            proof {
                assert(body_len / 0x100_0000 <= 0xff) by (nonlinear_arith)
                    requires 0x100_0000 <= body_len <= 0xffff_ffff;
                lemma_splice_adjacent(out0, pos0, seq![tag.spec_byte()], seq![0x84u8]);
                lemma_splice_adjacent(
                    out0,
                    pos0,
                    seq![tag.spec_byte()] + seq![0x84u8],
                    seq![(body_len / 0x100_0000) as u8],
                );
                lemma_splice_adjacent(
                    out0,
                    pos0,
                    (seq![tag.spec_byte()] + seq![0x84u8]) + seq![(body_len / 0x100_0000) as u8],
                    seq![((body_len / 0x1_0000) % 0x100) as u8],
                );
                lemma_splice_adjacent(
                    out0,
                    pos0,
                    ((seq![tag.spec_byte()] + seq![0x84u8]) + seq![(body_len / 0x100_0000) as u8])
                        + seq![((body_len / 0x1_0000) % 0x100) as u8],
                    seq![((body_len / 0x100) % 0x100) as u8],
                );
                lemma_splice_adjacent(
                    out0,
                    pos0,
                    (((seq![tag.spec_byte()] + seq![0x84u8]) + seq![(body_len / 0x100_0000) as u8])
                        + seq![((body_len / 0x1_0000) % 0x100) as u8]) + seq![((body_len / 0x100)
                        % 0x100) as u8],
                    seq![(body_len % 0x100) as u8],
                );
                assert(((((seq![tag.spec_byte()] + seq![0x84u8]) + seq![(body_len
                    / 0x100_0000) as u8]) + seq![((body_len / 0x1_0000) % 0x100) as u8])
                    + seq![((body_len / 0x100) % 0x100) as u8]) + seq![(body_len % 0x100) as u8]
                    =~= seq![tag.spec_byte()] + length_encoding(body_len as int));
            }
        }
        self.split(body_len)
    }

    /// The total byte count written through this window: for a child produced
    /// by `begin`, header plus body of the enclosing TLV.
    pub fn finish(&mut self) -> (n: usize)
        ensures
            *final(self) == *old(self),
            n == old(self).written,
    {
        self.written
    }
}

/// The exact total byte count, tag and length header included, of a TLV whose
/// body is `len` bytes long.
pub fn encoded_length_for(len: usize) -> (n: usize)
    requires
        len <= 0xffff_ffff,
        len + 6 <= usize::MAX,
    ensures
        n == 1 + length_encoding(len as int).len() + len,
{
    if len <= 0x7f {
        1 + 1 + len
    } else if len <= 0xff {
        1 + 1 + 1 + len
    } else if len <= 0xffff {
        1 + 1 + 2 + len
    } else if len <= 0xff_ffff {
        1 + 1 + 3 + len
    } else {
        1 + 1 + 4 + len
    }
}

} // verus!
