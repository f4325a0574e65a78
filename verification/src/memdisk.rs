//! A disk in memory.
//!
//! What the library can be exercised on without firmware, and a device whose
//! every answer is proved: it reads back what was written to it.

use crate::disk::{BlockDevice, IoError, Op};
use crate::image::overwritten;
use vstd::prelude::*;

verus! {

/// A disk held in memory.
pub struct MemDisk {
    data: Vec<u8>,
    block_size: u32,
    writable: bool,
    requests: Ghost<Seq<Op>>,
}

/// Where a transfer starts, if it lies on the disk and is in whole blocks.
pub open spec fn transfer_at(len: nat, block_size: u32, lba: u64, count: nat) -> Result<
    int,
    IoError,
> {
    if count % block_size as nat != 0 {
        Err(IoError::Unaligned)
    } else if lba * block_size + count > len {
        Err(IoError::OutOfRange)
    } else {
        Ok(lba * block_size)
    }
}

impl MemDisk {
    /// There is a whole number of blocks, and at least one.
    #[verifier::type_invariant]
    closed spec fn inv(self) -> bool {
        &&& self.block_size > 0
        &&& self.data@.len() >= self.block_size
        &&& self.data@.len() % self.block_size as nat == 0
    }

    /// What the disk holds.
    pub closed spec fn bytes(&self) -> Seq<u8> {
        self.data@
    }

    /// It can be written to.
    pub closed spec fn is_writable(&self) -> bool {
        self.writable
    }

    /// A disk that holds these bytes, or `None` if they are not a whole
    /// number of blocks and at least one.
    pub fn new(data: Vec<u8>, block_size: u32, writable: bool) -> (r: Option<Self>)
        ensures
            r is Some == (block_size > 0 && data@.len() >= block_size && data@.len()
                % block_size as nat == 0),
            r matches Some(d) ==> {
                &&& d.bytes() == data@
                &&& d.is_writable() == writable
                &&& d.blocks_of() == block_size
                &&& d.last_of() == data@.len() / block_size as nat - 1
                &&& d.trace() == Seq::<Op>::empty()
            },
    {
        if block_size == 0 || data.len() < block_size as usize || data.len() % block_size as usize
            != 0 {
            return None;
        }
        let d = MemDisk { data, block_size, writable, requests: Ghost(Seq::empty()) };
        proof {
            d.blocks_fit();
        }
        Some(d)
    }

    /// The bytes of the disk.
    pub fn contents(&self) -> (r: &[u8])
        ensures
            r@ == self.bytes(),
    {
        self.data.as_slice()
    }

    proof fn blocks_fit(self)
        requires
            self.inv(),
            self.data@.len() <= usize::MAX,
        ensures
            1 <= self.data@.len() / self.block_size as nat <= u64::MAX,
    {
        let len = self.data@.len() as int;
        let bs = self.block_size as int;
        assert(1 <= len / bs <= len) by (nonlinear_arith)
            requires
                len >= bs,
                bs >= 1,
        ;
    }

    fn place(&self, lba: u64, count: usize) -> (r: Result<usize, IoError>)
        requires
            self.block_size > 0,
        ensures
            match r {
                Ok(at) => transfer_at(self.data@.len(), self.block_size, lba, count as nat) == Ok::<
                    int,
                    IoError,
                >(at as int) && at + count <= self.data@.len() <= usize::MAX,
                Err(e) => transfer_at(self.data@.len(), self.block_size, lba, count as nat)
                    == Err::<int, IoError>(e),
            },
    {
        let len: u64 = self.data.len() as u64;
        if count % self.block_size as usize != 0 {
            return Err(IoError::Unaligned);
        }
        let off: u64 = match lba.checked_mul(self.block_size as u64) {
            Some(off) => off,
            None => return Err(IoError::OutOfRange),
        };
        if off > len || count as u64 > len - off {
            return Err(IoError::OutOfRange);
        }
        Ok(off as usize)
    }
}

/// The disk is still the same size, and still as writable as it was.
pub open spec fn same_disk(a: &MemDisk, b: &MemDisk) -> bool {
    &&& a.blocks_of() == b.blocks_of()
    &&& a.last_of() == b.last_of()
    &&& a.is_writable() == b.is_writable()
    &&& a.bytes().len() == b.bytes().len()
}

impl BlockDevice for MemDisk {
    closed spec fn blocks_of(&self) -> u32 {
        self.block_size
    }

    closed spec fn last_of(&self) -> u64 {
        (self.data@.len() / self.block_size as nat - 1) as u64
    }

    closed spec fn trace(&self) -> Seq<Op> {
        self.requests@
    }

    fn block_size(&self) -> (r: u32) {
        self.block_size
    }

    fn last_block(&self) -> (r: u64) {
        let len: usize = self.data.len();
        proof {
            use_type_invariant(&*self);
            self.blocks_fit();
        }
        len as u64 / self.block_size as u64 - 1
    }

    /// A transfer that lies on the disk gives what it holds.
    fn read_blocks(&mut self, lba: u64, buf: &mut [u8]) -> (r: Result<(), IoError>)
        ensures
            same_disk(old(self), final(self)),
            final(self).bytes() == old(self).bytes(),
            match transfer_at(
                old(self).bytes().len(),
                old(self).blocks_of(),
                lba,
                old(buf)@.len(),
            ) {
                Ok(at) => r is Ok && final(buf)@ == old(self).bytes().subrange(
                    at,
                    at + old(buf)@.len(),
                ),
                Err(e) => r == Err::<(), IoError>(e) && final(buf)@ == old(buf)@,
            },
    {
        proof {
            use_type_invariant(&*self);
        }
        let count: usize = buf.len();
        let r = match self.place(lba, count) {
            Ok(at) => {
                let mut i: usize = 0;
                while i < count
                    invariant
                        i <= count,
                        count == buf@.len(),
                        at + count <= self.data@.len() <= usize::MAX,
                        self.data@ == old(self).data@,
                        self.block_size == old(self).block_size,
                        self.writable == old(self).writable,
                        self.requests == old(self).requests,
                        forall|j: int| 0 <= j < i ==> buf@[j] == self.data@[at + j],
                    decreases count - i,
                {
                    buf[i] = self.data[at + i];
                    i += 1;
                }
                assert(buf@ =~= self.data@.subrange(at as int, at + count));
                Ok(())
            },
            Err(e) => Err(e),
        };
        let ghost reply = match r {
            Ok(_) => Ok(buf@),
            Err(e) => Err(e),
        };
        self.requests = Ghost(self.requests@.push(Op::Read { lba, len: buf@.len(), reply }));
        r
    }

    /// A transfer that lies on the disk changes those bytes and no others.
    fn write_blocks(&mut self, lba: u64, buf: &[u8]) -> (r: Result<(), IoError>)
        ensures
            same_disk(old(self), final(self)),
            match transfer_at(old(self).bytes().len(), old(self).blocks_of(), lba, buf@.len()) {
                _ if !old(self).is_writable() => r == Err::<(), IoError>(IoError::ReadOnly)
                    && final(self).bytes() == old(self).bytes(),
                Ok(_) => r is Ok && final(self).bytes() == overwritten(
                    old(self).bytes(),
                    old(self).blocks_of(),
                    lba,
                    buf@,
                ),
                Err(e) => r == Err::<(), IoError>(e) && final(self).bytes() == old(self).bytes(),
            },
    {
        proof {
            use_type_invariant(&*self);
        }
        let ghost before = self.data@;
        let count: usize = buf.len();
        let r = if !self.writable {
            Err(IoError::ReadOnly)
        } else {
            match self.place(lba, count) {
                Ok(at) => {
                    let mut i: usize = 0;
                    while i < count
                        invariant
                            i <= count,
                            count == buf@.len(),
                            before == old(self).data@,
                            at + count <= before.len() <= usize::MAX,
                            self.data@.len() == before.len(),
                            self.inv(),
                            self.block_size == old(self).block_size,
                            self.writable == old(self).writable,
                            self.requests == old(self).requests,
                            forall|j: int|
                                0 <= j < before.len() ==> self.data@[j] == if at <= j < at + i {
                                    buf@[j - at]
                                } else {
                                    before[j]
                                },
                        decreases count - i,
                    {
                        self.data[at + i] = buf[i];
                        i += 1;
                    }
                    assert(self.data@ =~= overwritten(before, self.block_size, lba, buf@));
                    Ok(())
                },
                Err(e) => Err(e),
            }
        };
        self.requests = Ghost(self.requests@.push(Op::Write { lba, data: buf@, reply: r }));
        r
    }

    fn flush(&mut self) -> (r: Result<(), IoError>)
        ensures
            r is Ok,
            same_disk(old(self), final(self)),
            final(self).bytes() == old(self).bytes(),
    {
        proof {
            use_type_invariant(&*self);
        }
        self.requests = Ghost(self.requests@.push(Op::Flush { reply: Ok(()) }));
        Ok(())
    }
}

} // verus!
