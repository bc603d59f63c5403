use vstd::prelude::*;

use crate::error::X11Error;
use crate::wire::{i16_be, u16_be, u32_be};

verus! {

/// A byte buffer read strictly left to right, standing in for the
/// connection's incoming byte stream. A short read never yields a partial
/// value: every read either returns the whole field and advances, or
/// fails with `IncompleteMessage` and leaves the position alone.
pub struct ByteStream {
    data: Vec<u8>,
    pos: usize,
}

impl ByteStream {
    #[verifier::type_invariant]
    spec fn inv(self) -> bool {
        self.pos <= self.data@.len()
    }

    /// The whole underlying buffer.
    pub closed spec fn bytes(self) -> Seq<u8> {
        self.data@
    }

    /// The current read position.
    pub closed spec fn pos(self) -> int {
        self.pos as int
    }

    /// How many bytes are left to read.
    pub open spec fn remaining(self) -> int {
        self.bytes().len() - self.pos()
    }

    pub fn new(data: Vec<u8>) -> (r: Self)
        ensures
            r.bytes() == data@,
            r.pos() == 0,
    {
        ByteStream { data, pos: 0 }
    }

    /// Bytes not yet read. Also witnesses that the position sits inside
    /// the buffer.
    pub fn available(&self) -> (r: usize)
        ensures
            r as int == self.remaining(),
            0 <= self.pos() <= self.bytes().len(),
    {
        proof {
            use_type_invariant(self);
        }
        self.data.len() - self.pos
    }

    /// Reads one byte.
    pub fn read_u8(&mut self) -> (r: Result<u8, X11Error>)
        ensures
            final(self).bytes() == old(self).bytes(),
            old(self).remaining() >= 1 ==> ({
                &&& r matches Ok(b) && b == old(self).bytes()[old(self).pos()]
                &&& final(self).pos() == old(self).pos() + 1
            }),
            old(self).remaining() < 1 ==> ({
                &&& r matches Err(e) && e == X11Error::IncompleteMessage
                &&& final(self).pos() == old(self).pos()
            }),
    {
        proof {
            use_type_invariant(&*self);
        }
        if self.pos < self.data.len() {
            let b = self.data[self.pos];
            self.pos = self.pos + 1;
            Ok(b)
        } else {
            Err(X11Error::IncompleteMessage)
        }
    }

    /// Reads a 16-bit big-endian value.
    pub fn read_u16_be(&mut self) -> (r: Result<u16, X11Error>)
        ensures
            final(self).bytes() == old(self).bytes(),
            old(self).remaining() >= 2 ==> ({
                &&& r matches Ok(v) && v == u16_be(
                    old(self).bytes()[old(self).pos()],
                    old(self).bytes()[old(self).pos() + 1],
                )
                &&& final(self).pos() == old(self).pos() + 2
            }),
            old(self).remaining() < 2 ==> ({
                &&& r matches Err(e) && e == X11Error::IncompleteMessage
                &&& final(self).pos() == old(self).pos()
            }),
    {
        proof {
            use_type_invariant(&*self);
        }
        if self.data.len() - self.pos >= 2 {
            let b0 = self.data[self.pos];
            let b1 = self.data[self.pos + 1];
            self.pos = self.pos + 2;
            Ok((b0 as u16) * 0x100 + (b1 as u16))
        } else {
            Err(X11Error::IncompleteMessage)
        }
    }

    /// Reads a signed 16-bit big-endian value (two's complement).
    pub fn read_i16_be(&mut self) -> (r: Result<i16, X11Error>)
        ensures
            final(self).bytes() == old(self).bytes(),
            old(self).remaining() >= 2 ==> ({
                &&& r matches Ok(v) && v == i16_be(
                    old(self).bytes()[old(self).pos()],
                    old(self).bytes()[old(self).pos() + 1],
                )
                &&& final(self).pos() == old(self).pos() + 2
            }),
            old(self).remaining() < 2 ==> ({
                &&& r matches Err(e) && e == X11Error::IncompleteMessage
                &&& final(self).pos() == old(self).pos()
            }),
    {
        match self.read_u16_be() {
            Ok(v) => Ok(v as i16),
            Err(e) => Err(e),
        }
    }

    /// Reads a 32-bit big-endian value.
    pub fn read_u32_be(&mut self) -> (r: Result<u32, X11Error>)
        ensures
            final(self).bytes() == old(self).bytes(),
            old(self).remaining() >= 4 ==> ({
                &&& r matches Ok(v) && v == u32_be(
                    old(self).bytes()[old(self).pos()],
                    old(self).bytes()[old(self).pos() + 1],
                    old(self).bytes()[old(self).pos() + 2],
                    old(self).bytes()[old(self).pos() + 3],
                )
                &&& final(self).pos() == old(self).pos() + 4
            }),
            old(self).remaining() < 4 ==> ({
                &&& r matches Err(e) && e == X11Error::IncompleteMessage
                &&& final(self).pos() == old(self).pos()
            }),
    {
        proof {
            use_type_invariant(&*self);
        }
        if self.data.len() - self.pos >= 4 {
            let b0 = self.data[self.pos];
            let b1 = self.data[self.pos + 1];
            let b2 = self.data[self.pos + 2];
            let b3 = self.data[self.pos + 3];
            self.pos = self.pos + 4;
            Ok((b0 as u32) * 0x1000000 + (b1 as u32) * 0x10000 + (b2 as u32) * 0x100
                + (b3 as u32))
        } else {
            Err(X11Error::IncompleteMessage)
        }
    }

    /// Reads `n` raw bytes.
    pub fn read_bytes(&mut self, n: usize) -> (r: Result<Vec<u8>, X11Error>)
        ensures
            final(self).bytes() == old(self).bytes(),
            old(self).remaining() >= n ==> ({
                &&& r matches Ok(v) && v@ == old(self).bytes().subrange(
                    old(self).pos(),
                    old(self).pos() + n,
                )
                &&& final(self).pos() == old(self).pos() + n
            }),
            old(self).remaining() < n ==> ({
                &&& r matches Err(e) && e == X11Error::IncompleteMessage
                &&& final(self).pos() == old(self).pos()
            }),
    {
        proof {
            use_type_invariant(&*self);
        }
        if self.data.len() - self.pos >= n {
            let start = self.pos;
            let end: usize = start + n;
            let mut v: Vec<u8> = Vec::new();
            let mut k: usize = 0;
            proof {
                assert(v@ =~= self.data@.subrange(start as int, start as int + 0));
            }
            while k < n
                invariant
                    k <= n,
                    end == start + n,
                    end <= self.data@.len(),
                    v@ == self.data@.subrange(start as int, start as int + k),
                decreases n - k,
            {
                v.push(self.data[start + k]);
                k = k + 1;
                proof {
                    assert(v@ =~= self.data@.subrange(start as int, start as int + k));
                }
            }
            self.pos = start + n;
            Ok(v)
        } else {
            Err(X11Error::IncompleteMessage)
        }
    }

    /// Skips `n` bytes (padding and reserved fields).
    pub fn skip(&mut self, n: usize) -> (r: Result<(), X11Error>)
        ensures
            final(self).bytes() == old(self).bytes(),
            old(self).remaining() >= n ==> ({
                &&& r matches Ok(u) && u == ()
                &&& final(self).pos() == old(self).pos() + n
            }),
            old(self).remaining() < n ==> ({
                &&& r matches Err(e) && e == X11Error::IncompleteMessage
                &&& final(self).pos() == old(self).pos()
            }),
    {
        proof {
            use_type_invariant(&*self);
        }
        if self.data.len() - self.pos >= n {
            self.pos = self.pos + n;
            Ok(())
        } else {
            Err(X11Error::IncompleteMessage)
        }
    }

    /// Reads one byte that an earlier length check has shown to be there.
    pub(crate) fn take_u8(&mut self) -> (r: u8)
        requires
            old(self).remaining() >= 1,
        ensures
            final(self).bytes() == old(self).bytes(),
            final(self).pos() == old(self).pos() + 1,
            r == old(self).bytes()[old(self).pos()],
    {
        match self.read_u8() {
            Ok(v) => v,
            Err(_) => {
                proof {
                    assert(false);
                }
                0
            },
        }
    }

    /// Reads a 16-bit big-endian value shown to be there.
    pub(crate) fn take_u16(&mut self) -> (r: u16)
        requires
            old(self).remaining() >= 2,
        ensures
            final(self).bytes() == old(self).bytes(),
            final(self).pos() == old(self).pos() + 2,
            r == u16_be(old(self).bytes()[old(self).pos()], old(self).bytes()[old(self).pos() + 1]),
    {
        match self.read_u16_be() {
            Ok(v) => v,
            Err(_) => {
                proof {
                    assert(false);
                }
                0
            },
        }
    }

    /// Reads a 32-bit big-endian value shown to be there.
    pub(crate) fn take_u32(&mut self) -> (r: u32)
        requires
            old(self).remaining() >= 4,
        ensures
            final(self).bytes() == old(self).bytes(),
            final(self).pos() == old(self).pos() + 4,
            r == u32_be(
                old(self).bytes()[old(self).pos()],
                old(self).bytes()[old(self).pos() + 1],
                old(self).bytes()[old(self).pos() + 2],
                old(self).bytes()[old(self).pos() + 3],
            ),
    {
        match self.read_u32_be() {
            Ok(v) => v,
            Err(_) => {
                proof {
                    assert(false);
                }
                0
            },
        }
    }

    /// Skips `n` bytes shown to be there.
    pub(crate) fn take_skip(&mut self, n: usize)
        requires
            old(self).remaining() >= n,
        ensures
            final(self).bytes() == old(self).bytes(),
            final(self).pos() == old(self).pos() + n,
    {
        match self.skip(n) {
            Ok(_) => (),
            Err(_) => {
                proof {
                    assert(false);
                }
            },
        }
    }

    /// Reads `n` raw bytes shown to be there.
    pub(crate) fn take_vec(&mut self, n: usize) -> (r: Vec<u8>)
        requires
            old(self).remaining() >= n,
        ensures
            final(self).bytes() == old(self).bytes(),
            final(self).pos() == old(self).pos() + n,
            r@ == old(self).bytes().subrange(old(self).pos(), old(self).pos() + n),
    {
        match self.read_bytes(n) {
            Ok(v) => v,
            Err(_) => {
                proof {
                    assert(false);
                }
                Vec::new()
            },
        }
    }
}

} // verus!
