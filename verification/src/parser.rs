use vstd::prelude::*;
use vstd::slice::{slice_index_get, slice_subrange};

use crate::err::Error;
use crate::tag::Tag;
use crate::wire::{spec_take, spec_take_len};

verus! {

/// A cursor over an immutable borrowed byte range.
///
/// The view is the remaining input: the shrinking range itself is the cursor,
/// so no separate offset is kept. `descend` wraps one TLV body in a child
/// parser, which structurally can never read past the bytes its parent
/// allotted it.
pub struct Parser<'a> {
    input: &'a [u8],
}

impl<'a> View for Parser<'a> {
    type V = Seq<u8>;

    closed spec fn view(&self) -> Seq<u8> {
        self.input@
    }
}

impl<'a> Parser<'a> {
    pub fn new(buf: &'a [u8]) -> (p: Self)
        ensures
            p@ == buf@,
    {
        Parser { input: buf }
    }

    /// Count of unconsumed bytes in the current view.
    pub fn left(&self) -> (n: usize)
        ensures
            n == self@.len(),
    {
        self.input.len()
    }

    /// The next byte, advancing the view past it.
    pub fn one_byte(&mut self) -> (r: Result<u8, Error>)
        ensures
            match r {
                Ok(b) => old(self)@.len() > 0 && b == old(self)@[0] && final(self)@ == old(self)@.skip(1),
                Err(e) => {
                    &&& e == Error::EndOfInput
                    &&& old(self)@.len() == 0
                    &&& final(self)@ == old(self)@
                },
            },
    {
        if self.input.len() < 1 {
            return Err(Error::EndOfInput);
        }
        let b = *slice_index_get(self.input, 0);
        self.input = slice_subrange(self.input, 1, self.input.len());
        proof {
            assert(old(self)@.subrange(1, old(self)@.len() as int) =~= old(self)@.skip(1));
        }
        Ok(b)
    }

    /// The tag of the next byte, without consuming it.
    pub fn peek_tag(&mut self) -> (r: Result<Tag, Error>)
        ensures
            final(self)@ == old(self)@,
            match r {
                Ok(t) => old(self)@.len() > 0 && t.spec_byte() == old(self)@[0],
                Err(e) => e == Error::EndOfInput && old(self)@.len() == 0,
            },
    {
        if self.input.len() < 1 {
            return Err(Error::EndOfInput);
        }
        Ok(Tag::from_byte(*slice_index_get(self.input, 0)))
    }

    /// Reads a DER length header, rejecting non-minimal long forms and length
    /// forms beyond two extra bytes.
    fn take_len(&mut self) -> (r: Result<usize, Error>)
        ensures
            match r {
                Ok(n) => n <= 0xffff && spec_take_len(old(self)@) == Ok::<(int, Seq<u8>), Error>(
                    (n as int, final(self)@),
                ),
                Err(e) => spec_take_len(old(self)@) == Err::<(int, Seq<u8>), Error>(e)
                    && final(self)@.len() <= old(self)@.len(),
            },
    {
        let len_byte = self.one_byte()?;
        if len_byte < 0x80 {
            Ok(len_byte as usize)
        } else if len_byte == 0x81 {
            let len = self.one_byte()?;
            if len < 0x80 {
                return Err(Error::NonCanonicalEncoding);
            }
            proof {
                assert(old(self)@.skip(1).skip(1) =~= old(self)@.skip(2));
            }
            Ok(len as usize)
        } else if len_byte == 0x82 {
            let hi = self.one_byte()?;
            let lo = self.one_byte()?;
            let len = (hi as usize) * 0x100 + (lo as usize);
            if len < 0x100 {
                return Err(Error::NonCanonicalEncoding);
            }
            proof {
                assert(old(self)@.skip(1).skip(1).skip(1) =~= old(self)@.skip(3));
            }
            Ok(len)
        } else {
            Err(Error::NotImplemented)
        }
    }

    /// Reads one TLV whose tag must equal `want_tag`, returning the tag and
    /// the body as a borrowed range, and advancing past the body.
    pub fn take(&mut self, want_tag: Tag) -> (r: Result<(Tag, &'a [u8]), Error>)
        ensures
            match r {
                Ok((tag, body)) => {
                    &&& tag.spec_byte() == want_tag.spec_byte()
                    &&& body@.len() <= 0xffff
                    &&& spec_take(old(self)@, want_tag.spec_byte()) == Ok::<
                        (Seq<u8>, Seq<u8>),
                        Error,
                    >((body@, final(self)@))
                },
                Err(e) => {
                    &&& spec_take(old(self)@, want_tag.spec_byte()) == Err::<
                        (Seq<u8>, Seq<u8>),
                        Error,
                    >(e)
                    &&& final(self)@.len() <= old(self)@.len()
                },
            },
    {
        let tag = self.one_byte()?;
        if !want_tag.acceptable(tag) {
            return Err(Error::UnexpectedTag);
        }
        let len = self.take_len()?;
        let ghost mid = self@;
        if self.input.len() < len {
            return Err(Error::EndOfInput);
        }
        let body = slice_subrange(self.input, 0, len);
        let rest = slice_subrange(self.input, len, self.input.len());
        self.input = rest;
        proof {
            assert(body@ =~= mid.take(len as int));
            assert(rest@ =~= mid.skip(len as int));
        }
        Ok((want_tag, body))
    }

    /// Like `take`, but wraps the body in a child parser scoped to exactly
    /// that body.
    pub fn descend(&mut self, want_tag: Tag) -> (r: Result<(Tag, Parser<'a>), Error>)
        ensures
            match r {
                Ok((tag, sub)) => {
                    &&& tag.spec_byte() == want_tag.spec_byte()
                    &&& sub@.len() <= 0xffff
                    &&& spec_take(old(self)@, want_tag.spec_byte()) == Ok::<
                        (Seq<u8>, Seq<u8>),
                        Error,
                    >((sub@, final(self)@))
                },
                Err(e) => {
                    &&& spec_take(old(self)@, want_tag.spec_byte()) == Err::<
                        (Seq<u8>, Seq<u8>),
                        Error,
                    >(e)
                    &&& final(self)@.len() <= old(self)@.len()
                },
            },
    {
        let (tag, body) = self.take(want_tag)?;
        Ok((tag, Parser::new(body)))
    }
}

} // verus!
