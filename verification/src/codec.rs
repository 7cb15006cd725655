use vstd::prelude::*;

use crate::encoder::{encoder_inv, Encoder};
use crate::err::Error;
use crate::parser::Parser;
use crate::wire::splice;

verus! {

/// The postcondition every value's `encode` meets: on success, exactly
/// `bytes` was spliced into the buffer at the window cursor, the window
/// advanced past it, and the returned count is the running total; on failure
/// the window was too small for `bytes`. In every case nothing outside the
/// window changes and the buffer keeps its length.
pub open spec fn encode_post(
    bytes: Seq<u8>,
    out0: Seq<u8>,
    out1: Seq<u8>,
    e0: Encoder,
    e1: Encoder,
    r: Result<usize, Error>,
) -> bool {
    &&& out1.len() == out0.len()
    &&& e1.end == e0.end
    &&& e0.pos <= e1.pos <= e1.end
    &&& e1.written <= e1.pos
    &&& forall|i: int| 0 <= i < out1.len() && !(e0.pos <= i < e0.end) ==> out1[i] == out0[i]
    &&& match r {
        Ok(n) => {
            &&& e0.pos + bytes.len() <= e0.end
            &&& out1 == splice(out0, e0.pos as int, bytes)
            &&& n == e0.written + bytes.len()
            &&& e1.pos == e0.pos + bytes.len()
            &&& e1.written == e0.written + bytes.len()
        },
        Err(e) => e == Error::EndOfInput && e0.pos + bytes.len() > e0.end,
    }
}

/// The uniform value codec protocol: every value type parses from a `Parser`,
/// encodes into an `Encoder` window, and reports its exact encoded size, and
/// the three stay mutually consistent.
///
/// `enc` is the value's full DER encoding; `dec_res` says, for every input,
/// exactly what parsing leaves behind or which error it raises; `dec_ok`
/// relates a parsed value to the bytes it was read from. `parse` never
/// consumes more than the input holds, `encode` never writes outside its
/// window, and `encoded_len` equals the length of what `encode` writes.
pub trait Type<'a>: Sized {
    /// Size bounds under which the value is encodable.
    spec fn wf(&self) -> bool;

    /// The value's full DER encoding, its own tag and length header included.
    spec fn enc(&self) -> Seq<u8>;

    /// The bytes parsing leaves unconsumed, or the exact error it raises.
    spec fn dec_res(s: Seq<u8>) -> Result<Seq<u8>, Error>;

    /// How a value parsed from the front of `s`, leaving `rest`, relates to
    /// the consumed bytes.
    spec fn dec_ok(s: Seq<u8>, v: Self, rest: Seq<u8>) -> bool;

    fn parse(p: &mut Parser<'a>) -> (r: Result<Self, Error>)
        ensures
            match r {
                Ok(v) => v.wf() && Self::dec_res(old(p)@) == Ok::<Seq<u8>, Error>(final(p)@)
                    && Self::dec_ok(old(p)@, v, final(p)@),
                Err(e) => Self::dec_res(old(p)@) == Err::<Seq<u8>, Error>(e),
            },
    ;

    fn encode(&self, out: &mut Vec<u8>, enc: &mut Encoder) -> (r: Result<usize, Error>)
        requires
            self.wf(),
            encoder_inv(*old(enc), old(out)@.len() as int),
        ensures
            encode_post(self.enc(), old(out)@, final(out)@, *old(enc), *final(enc), r),
    ;

    fn encoded_len(&self) -> (n: usize)
        requires
            self.wf(),
        ensures
            n == self.enc().len(),
    ;
}

} // verus!
