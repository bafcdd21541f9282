use vstd::prelude::*;

use crate::error::PlotError;
use crate::layout::{nonce_major, scoop_major, to_nonce_major, to_scoop_major, NONCE_SIZE};

verus! {

/// Relies on page_size::get: the platform's memory page size in bytes, as
/// the operating system reports it. Nothing is stated of its value, which
/// depends on the machine.
#[verifier::external_body]
fn platform_page_size() -> (r: usize) {
    page_size::get()
}

/// Relies on Vec::try_reserve_exact: reserves room for `additional` more
/// bytes, reporting an allocation failure as an error instead of aborting.
/// The contents stay as they were either way.
#[verifier::external_body]
fn try_reserve(v: &mut Vec<u8>, additional: usize) -> (ok: bool)
    ensures
        final(v)@ == old(v)@,
{
    v.try_reserve_exact(additional).is_ok()
}

/// A byte buffer reserved once for a run and reused for every chunk. It
/// starts zero-filled, keeps its length for life, and records the page size
/// of the machine it was made on. Its bytes carry no address alignment: they
/// live in an ordinary vector, so the page size is a record, not a promise.
pub struct PageAlignedByteBuffer {
    data: Vec<u8>,
    page: usize,
}

impl View for PageAlignedByteBuffer {
    type V = Seq<u8>;

    closed spec fn view(&self) -> Seq<u8> {
        self.data@
    }
}

impl PageAlignedByteBuffer {
    /// The page size recorded at creation.
    pub closed spec fn page(&self) -> usize {
        self.page
    }

    /// A zero-filled buffer of `buffer_size` bytes.
    pub fn new(buffer_size: usize) -> (b: Self)
        ensures
            b@ == Seq::new(buffer_size as nat, |i: int| 0u8),
    {
        let page = platform_page_size();
        let data: Vec<u8> = vec![0u8; buffer_size];
        proof {
            assert(data@ =~= Seq::new(buffer_size as nat, |i: int| 0u8));
        }
        PageAlignedByteBuffer { data, page }
    }

    /// A zero-filled buffer of `buffer_size` bytes, or `OutOfMemory` when
    /// the allocator cannot provide the room.
    pub fn try_new(buffer_size: usize) -> (r: Result<Self, PlotError>)
        ensures
            r matches Ok(b) ==> b@ == Seq::new(buffer_size as nat, |i: int| 0u8),
            r matches Err(e) ==> e == PlotError::OutOfMemory,
    {
        let page = platform_page_size();
        let mut data: Vec<u8> = Vec::new();
        if !try_reserve(&mut data, buffer_size) {
            return Err(PlotError::OutOfMemory);
        }
        let mut i: usize = 0;
        while i < buffer_size
            invariant
                i <= buffer_size,
                data@ == Seq::new(i as nat, |k: int| 0u8),
            decreases buffer_size - i,
        {
            data.push(0u8);
            proof {
                assert(data@ =~= Seq::new((i + 1) as nat, |k: int| 0u8));
            }
            i = i + 1;
        }
        Ok(PageAlignedByteBuffer { data, page })
    }

    /// A view of the whole buffer for reading.
    pub fn get_buffer(&self) -> (r: &Vec<u8>)
        ensures
            r@ == self@,
    {
        &self.data
    }

    /// The buffer's length in bytes.
    pub fn len(&self) -> (r: usize)
        ensures
            r == self@.len(),
    {
        self.data.len()
    }

    /// The page size of the machine the buffer was made on.
    pub fn page_size(&self) -> (r: usize)
        ensures
            r == self.page(),
    {
        self.page
    }

    /// Writes `bytes` into the window from `offset`; the rest stays.
    pub fn write_at(&mut self, offset: usize, bytes: &Vec<u8>)
        requires
            offset + bytes@.len() <= old(self)@.len(),
        ensures
            final(self)@ == old(self)@.subrange(0, offset as int) + bytes@ + old(self)@.subrange(
                offset + bytes@.len(),
                old(self)@.len() as int,
            ),
            final(self).page() == old(self).page(),
    {
        let ghost orig = self.data@;
        let n = bytes.len();
        let total = self.data.len();
        let mut i: usize = 0;
        while i < n
            invariant
                n == bytes@.len(),
                offset + n <= orig.len(),
                total == orig.len(),
                i <= n,
                self.data@ == orig.subrange(0, offset as int) + bytes@.subrange(0, i as int)
                    + orig.subrange(offset + i, orig.len() as int),
                self.page == old(self).page,
            decreases n - i,
        {
            self.data.set(offset + i, bytes[i]);
            proof {
                assert(self.data@ =~= orig.subrange(0, offset as int) + bytes@.subrange(0, i + 1)
                    + orig.subrange(offset + i + 1, orig.len() as int));
            }
            i = i + 1;
        }
        proof {
            assert(bytes@.subrange(0, n as int) =~= bytes@);
        }
    }

    /// A copy of the `len` bytes from `offset`.
    pub fn read_at(&self, offset: usize, len: usize) -> (r: Vec<u8>)
        requires
            offset + len <= self@.len(),
        ensures
            r@ == self@.subrange(offset as int, offset + len),
    {
        let total = self.data.len();
        let mut out: Vec<u8> = Vec::with_capacity(len);
        let mut i: usize = 0;
        while i < len
            invariant
                offset + len <= self.data@.len(),
                total == self.data@.len(),
                i <= len,
                out@ == self.data@.subrange(offset as int, offset + i),
            decreases len - i,
        {
            out.push(self.data[offset + i]);
            proof {
                assert(out@ =~= self.data@.subrange(offset as int, offset + i + 1));
            }
            i = i + 1;
        }
        out
    }

    /// Layout transform in place: the first `nonces` whole blocks of the
    /// buffer, one nonce after another, are repacked scoop-major; the bytes
    /// after them stay.
    pub fn repack_scoop_major(&mut self, nonces: usize)
        requires
            nonces > 0,
            nonces * NONCE_SIZE <= old(self)@.len(),
        ensures
            final(self)@ == scoop_major(old(self)@.subrange(0, nonces * NONCE_SIZE), nonces as int)
                + old(self)@.subrange(nonces * NONCE_SIZE, old(self)@.len() as int),
            final(self).page() == old(self).page(),
    {
        // the call bounds the length, so the product below fits
        let _ = self.len();
        let mut head = self.read_at(0, nonces * NONCE_SIZE);
        to_scoop_major(&mut head, nonces);
        self.write_at(0, &head);
        proof {
            assert(final(self)@ =~= scoop_major(old(self)@.subrange(0, nonces * NONCE_SIZE), nonces as int)
                + old(self)@.subrange(nonces * NONCE_SIZE, old(self)@.len() as int)) by {
                assert(old(self)@.subrange(0, 0) =~= Seq::<u8>::empty());
            }
        }
    }

    /// The inverse repacking, in place: the first `nonces` nonces, held
    /// scoop-major, go back to one block per nonce; the bytes after them stay.
    pub fn repack_nonce_major(&mut self, nonces: usize)
        requires
            nonces > 0,
            nonces * NONCE_SIZE <= old(self)@.len(),
        ensures
            final(self)@ == nonce_major(old(self)@.subrange(0, nonces * NONCE_SIZE), nonces as int)
                + old(self)@.subrange(nonces * NONCE_SIZE, old(self)@.len() as int),
            final(self).page() == old(self).page(),
    {
        // the call bounds the length, so the product below fits
        let _ = self.len();
        let mut head = self.read_at(0, nonces * NONCE_SIZE);
        to_nonce_major(&mut head, nonces);
        self.write_at(0, &head);
        proof {
            assert(old(self)@.subrange(0, 0) =~= Seq::<u8>::empty());
        }
    }
}

} // verus!
