use vstd::prelude::*;

use crate::params::MARGIN_SIZE;

pub mod cat;
pub mod clip;
pub mod cut;
pub mod eof;
pub mod mock;
pub mod patch;
pub mod raw;
pub mod text;
pub mod zero;
pub mod zip;

verus! {

/// Errors of the sources a stream reads from.
#[verifier::external_type_specification]
#[verifier::external_body]
pub struct ExIoError(std::io::Error);

/// The error for a source whose buffer a stream cannot walk (it shrank, or
/// outgrew the positions the stream keeps): `std::io::Error::from` an
/// `InvalidData` kind.
#[verifier::external_body]
pub(crate) fn invalid_stream_error() -> std::io::Error {
    std::io::Error::from(std::io::ErrorKind::InvalidData)
}

/// Bytes of padding that bring `len` to a multiple of `align`.
pub fn align_padding(len: usize, align: usize) -> (r: usize)
    requires
        align > 0,
    ensures
        r < align,
        (len + r) % (align as int) == 0,
{
    let rem = len % align;
    if rem == 0 {
        0
    } else {
        proof {
            assert((len + (align - rem)) % (align as int) == 0) by (nonlinear_arith)
                requires
                    rem == len % align,
                    align > 0,
                    rem > 0,
            {
                assert(len == align * (len / align) + rem);
                assert(len + (align - rem) == align * (len / align + 1));
            }
        }
        align - rem
    }
}

/// A buffered stream of bytes, read in chunks.
pub trait ByteStream {
    /// What the stream keeps between calls.
    spec fn wf(&self) -> bool;

    /// Bytes the last `fill_buf` made available and not consumed since.
    spec fn available(&self) -> nat;

    /// The buffer `as_slice` hands out.
    spec fn buffer(&self) -> Seq<u8>;

    /// Every byte consumed from the stream so far, in order.
    spec fn taken(&self) -> Seq<u8>;

    /// Makes bytes available, without losing any that were: returns how
    /// many there are. Nothing is consumed.
    fn fill_buf(&mut self) -> (r: std::io::Result<usize>)
        requires
            old(self).wf(),
        ensures
            final(self).wf(),
            r matches Ok(n) ==> n == final(self).available() && n >= old(self).available(),
            final(self).taken() == old(self).taken(),
    ;

    /// The buffer: the available bytes, then a margin.
    fn as_slice(&self) -> (r: &[u8])
        requires
            self.wf(),
        ensures
            r@ == self.buffer(),
            r@.len() >= self.available() + MARGIN_SIZE,
    ;

    /// Drops `amount` bytes from the head: the bytes after them move to
    /// the head of the buffer, as far as the stream still shows them. A
    /// zero `amount` asks for more bytes on the next `fill_buf`, keeping
    /// those available. The bytes dropped join what was taken.
    fn consume(&mut self, amount: usize)
        requires
            old(self).wf(),
            amount <= old(self).available(),
        ensures
            final(self).wf(),
            amount == 0 ==> final(self).available() >= old(self).available(),
            ({
                let k = if final(self).available() < old(self).available() - amount {
                    final(self).available() as int
                } else {
                    old(self).available() - amount
                };
                final(self).buffer().subrange(0, k) == old(self).buffer().subrange(amount as int, amount + k)
            }),
            final(self).taken() == old(self).taken() + old(self).buffer().subrange(0, amount as int),
            final(self).taken().len() == old(self).taken().len() + amount,
    ;
}

/// A boxed stream reads as the stream inside.
impl<S: ByteStream + ?Sized> ByteStream for Box<S> {
    closed spec fn wf(&self) -> bool {
        (**self).wf()
    }

    closed spec fn available(&self) -> nat {
        (**self).available()
    }

    closed spec fn buffer(&self) -> Seq<u8> {
        (**self).buffer()
    }

    closed spec fn taken(&self) -> Seq<u8> {
        (**self).taken()
    }

    fn fill_buf(&mut self) -> (r: std::io::Result<usize>) {
        (**self).fill_buf()
    }

    fn as_slice(&self) -> (r: &[u8]) {
        (**self).as_slice()
    }

    fn consume(&mut self, amount: usize) {
        (**self).consume(amount)
    }
}


} // verus!
