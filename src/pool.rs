//! A pool of receive buffers carved out of registered shared-memory slabs.
//! Buffers are handed to connections and returned when delivery is done.
use vstd::prelude::*;

use crate::bitmap::Bitmap;
use crate::bitmap::bitmap_bits;

verus! {

/// Number of distinct values in each half of a buffer handle.
pub const HANDLE_HALF: u32 = 65536;

/// Buffers in a slab that the pool adds when every slab is full.
pub const GROWTH_BUFFERS: usize = 128;

/// Size and alignment of the buffers of a slab that the pool adds.
pub const GROWTH_BUFFER_SIZE: usize = 8388608;

/// Granularity that a slab's alignment must be a multiple of.
pub const PAGE_ALIGN: usize = 4096;

/// Largest size, in bytes, that a memory layout may round up to.
pub const LAYOUT_SIZE_MAX: u64 = 0x7fff_ffff_ffff_ffff;

/// Errors of the receive-buffer pool.
#[derive(Clone, Copy, Debug, PartialEq, Eq, Structural)]
pub enum PoolError {
    /// The requested slab size does not form a valid memory layout.
    InvalidLayout,
    /// The region handed in for a slab is too small, misaligned or wraps.
    BadRegion,
    /// No slab is backed by the requested storage.
    NotFound,
}

/// A registered shared-memory region that backs one slab.
#[derive(Clone, Copy, Debug, PartialEq, Eq, Structural)]
pub struct Region {
    /// The region's handle, unique among the regions of a pool.
    pub id: u32,
    /// Start address of the region in the backend's address space.
    pub addr: usize,
    /// Length of the region in bytes.
    pub len: usize,
}

pub open spec fn is_pow2(n: nat) -> bool
    decreases n,
{
    if n <= 1 {
        n == 1
    } else {
        n % 2 == 0 && is_pow2(n / 2)
    }
}

/// The handle of the buffer at `index` of the slab whose storage is `slab`.
pub open spec fn buffer_handle(slab: int, index: int) -> int {
    slab * HANDLE_HALF as int + index
}

/// The number of set bits.
pub open spec fn count_set(bits: Seq<bool>) -> nat
    decreases bits.len(),
{
    if bits.len() == 0 {
        0
    } else {
        count_set(bits.drop_last()) + if bits.last() {
            1nat
        } else {
            0nat
        }
    }
}

/// A buffer of one slab: `len` bytes at `offset` in the slab's storage.
/// Two buffers handed out by one slab never overlap.
#[derive(Clone, Copy, Debug)]
pub struct RecvBuffer {
    /// Offset of the buffer within its slab's storage.
    pub offset: usize,
    /// Length of the buffer in bytes.
    pub len: usize,
    /// Alignment of the buffer in bytes.
    pub align: usize,
    /// The storage of the slab that owns the buffer.
    pub storage: Region,
}

impl RecvBuffer {
    /// Index of the buffer within its slab.
    pub open spec fn index(&self) -> int {
        self.offset as int / self.len as int
    }

    /// The handle that names this buffer across processes: the storage's id
    /// in the high half, the buffer's index in the low half.
    pub fn as_handle(&self) -> (r: u32)
        requires
            self.len > 0,
            self.storage.id < HANDLE_HALF,
            self.index() < HANDLE_HALF,
        ensures
            r as int == buffer_handle(self.storage.id as int, self.index()),
    {
        let high = self.storage.id;
        let low = (self.offset / self.len) as u32;
        assert(high * HANDLE_HALF + low < 0x1_0000_0000) by (nonlinear_arith)
            requires
                high < HANDLE_HALF,
                low < HANDLE_HALF,
                HANDLE_HALF == 65536,
        ;
        high * HANDLE_HALF + low
    }

    /// Backend address of the first byte of the buffer.
    pub fn addr(&self) -> (r: usize)
        requires
            self.storage.addr + self.offset <= usize::MAX,
        ensures
            r == self.storage.addr + self.offset,
    {
        self.storage.addr + self.offset
    }

    pub fn len(&self) -> (r: usize)
        ensures
            r == self.len,
    {
        self.len
    }

    pub fn align(&self) -> (r: usize)
        ensures
            r == self.align,
    {
        self.align
    }

    pub fn offset(&self) -> (r: usize)
        ensures
            r == self.offset,
    {
        self.offset
    }

    pub fn storage(&self) -> (r: Region)
        ensures
            r == self.storage,
    {
        self.storage
    }
}

/// Decoding a buffer handle gives back the storage id and buffer index that
/// built it, so distinct (slab, buffer) pairs within the 16-bit limits get
/// distinct handles.
pub proof fn lemma_handle_injective(s1: int, i1: int, s2: int, i2: int)
    requires
        0 <= s1 < HANDLE_HALF,
        0 <= i1 < HANDLE_HALF,
        0 <= s2 < HANDLE_HALF,
        0 <= i2 < HANDLE_HALF,
        buffer_handle(s1, i1) == buffer_handle(s2, i2),
    ensures
        s1 == s2,
        i1 == i2,
{
    assert(s1 == s2 && i1 == i2) by (nonlinear_arith)
        requires
            0 <= s1 < 65536,
            0 <= i1 < 65536,
            0 <= s2 < 65536,
            0 <= i2 < 65536,
            s1 * 65536 + i1 == s2 * 65536 + i2,
    ;
}

/// A slab of `num_buffers` equal buffers carved from one region. A set bit
/// of `bitmap` marks a buffer that is handed out.
pub struct BufferSlab {
    pub num_buffers: usize,
    pub buffer_size: usize,
    pub buffer_align: usize,
    /// The backing storage.
    pub storage: Region,
    /// Which buffers are handed out: set for used, clear for free.
    pub bitmap: Bitmap,
}

impl BufferSlab {
    pub open spec fn bits(&self) -> Seq<bool> {
        bitmap_bits(self.bitmap)
    }

    pub open spec fn wf(&self) -> bool {
        &&& self.bits().len() == self.num_buffers
        &&& self.buffer_size > 0
        &&& self.num_buffers * self.buffer_size <= self.storage.len
        &&& self.storage.addr + self.storage.len <= usize::MAX
    }

    /// The buffer at `index` of this slab.
    pub open spec fn buffer_at(&self, index: int) -> RecvBuffer {
        RecvBuffer {
            offset: (index * self.buffer_size) as usize,
            len: self.buffer_size,
            align: self.buffer_align,
            storage: self.storage,
        }
    }

    /// Whether every buffer of the slab is handed out.
    pub open spec fn is_full(&self) -> bool {
        forall|j: int| 0 <= j < self.bits().len() ==> #[trigger] self.bits()[j]
    }

    /// Buffer size after raising it to the alignment.
    pub open spec fn rounded_size(buffer_size: usize, buffer_align: usize) -> int {
        if buffer_size >= buffer_align {
            buffer_size as int
        } else {
            buffer_align as int
        }
    }

    /// Whether `num_buffers` buffers of the rounded size form a valid layout:
    /// the total, rounded up to the alignment, stays within the layout limit.
    pub open spec fn layout_ok(num_buffers: usize, buffer_size: usize, buffer_align: usize) -> bool {
        &&& num_buffers * Self::rounded_size(buffer_size, buffer_align) <= usize::MAX
        &&& num_buffers * Self::rounded_size(buffer_size, buffer_align) + buffer_align - 1
            <= LAYOUT_SIZE_MAX
    }

    /// Whether `storage` can back such a slab: long enough, aligned, and
    /// not wrapping around the address space.
    pub open spec fn region_ok(
        num_buffers: usize,
        buffer_size: usize,
        buffer_align: usize,
        storage: Region,
    ) -> bool {
        &&& num_buffers * Self::rounded_size(buffer_size, buffer_align) <= storage.len
        &&& storage.addr % buffer_align == 0
        &&& storage.addr + storage.len <= usize::MAX
    }

    /// Creates a slab of `num_buffers` buffers over `storage`, each buffer
    /// `buffer_size` bytes raised to at least `buffer_align`, all free.
    pub fn new(num_buffers: usize, buffer_size: usize, buffer_align: usize, storage: Region) -> (r:
        Result<BufferSlab, PoolError>)
        requires
            is_pow2(buffer_align as nat),
            buffer_align % PAGE_ALIGN == 0,
        ensures
            match r {
                Ok(s) => {
                    &&& Self::layout_ok(num_buffers, buffer_size, buffer_align)
                    &&& Self::region_ok(num_buffers, buffer_size, buffer_align, storage)
                    &&& s.wf()
                    &&& s.num_buffers == num_buffers
                    &&& s.buffer_size == Self::rounded_size(buffer_size, buffer_align)
                    &&& s.buffer_align == buffer_align
                    &&& s.storage == storage
                    &&& s.bits() == Seq::new(num_buffers as nat, |i: int| false)
                },
                Err(e) => {
                    &&& !Self::layout_ok(num_buffers, buffer_size, buffer_align) ==> e
                        == PoolError::InvalidLayout
                    &&& Self::layout_ok(num_buffers, buffer_size, buffer_align) ==> e
                        == PoolError::BadRegion && !Self::region_ok(
                        num_buffers,
                        buffer_size,
                        buffer_align,
                        storage,
                    )
                },
            },
    {
        let size: usize = if buffer_size >= buffer_align {
            buffer_size
        } else {
            buffer_align
        };
        let total = match num_buffers.checked_mul(size) {
            Some(t) => t,
            None => {
                return Err(PoolError::InvalidLayout);
            },
        };
        if total as u64 > LAYOUT_SIZE_MAX || buffer_align as u64 - 1 > LAYOUT_SIZE_MAX - total as u64 {
            return Err(PoolError::InvalidLayout);
        }
        if total > storage.len || storage.addr % buffer_align != 0 || storage.len > usize::MAX
            - storage.addr {
            return Err(PoolError::BadRegion);
        }
        Ok(BufferSlab {
            num_buffers,
            buffer_size: size,
            buffer_align,
            storage,
            bitmap: Bitmap::zeros(num_buffers),
        })
    }

    /// Hands out the lowest free buffer and marks it used; `None` when the
    /// slab is full, which leaves it unchanged.
    pub fn obtain(&mut self) -> (r: Option<RecvBuffer>)
        requires
            old(self).wf(),
        ensures
            final(self).wf(),
            final(self).num_buffers == old(self).num_buffers,
            final(self).buffer_size == old(self).buffer_size,
            final(self).buffer_align == old(self).buffer_align,
            final(self).storage == old(self).storage,
            match r {
                Some(b) => exists|i: int|
                    {
                        &&& 0 <= i < old(self).num_buffers
                        &&& !old(self).bits()[i]
                        &&& forall|j: int| 0 <= j < i ==> #[trigger] old(self).bits()[j]
                        &&& final(self).bits() == old(self).bits().update(i, true)
                        &&& b == old(self).buffer_at(i)
                        &&& b.index() == i
                    },
                None => old(self).is_full() && *final(self) == *old(self),
            },
    {
        match self.bitmap.first_zero() {
            Some(unused) => {
                proof {
                    lemma_mul_le(unused as int, self.num_buffers as int, self.buffer_size as int);
                }
                let offset = unused * self.buffer_size;
                let len = self.buffer_size;
                self.bitmap.set(unused, true);
                proof {
                    lemma_div_exact(unused as int, len as int);
                    let i = unused as int;
                    assert(old(self).buffer_at(i).index() == i);
                }
                Some(RecvBuffer { offset, len, align: self.buffer_align, storage: self.storage })
            },
            None => None,
        }
    }

    /// Marks the buffer that `recv_buf` names as free again.
    pub fn release(&mut self, recv_buf: RecvBuffer)
        requires
            old(self).wf(),
            recv_buf.len > 0,
            recv_buf.index() < old(self).num_buffers,
        ensures
            final(self).wf(),
            final(self).num_buffers == old(self).num_buffers,
            final(self).buffer_size == old(self).buffer_size,
            final(self).buffer_align == old(self).buffer_align,
            final(self).storage == old(self).storage,
            final(self).bits() == old(self).bits().update(recv_buf.index(), false),
    {
        self.bitmap.set(recv_buf.offset / recv_buf.len, false);
    }

    /// A shared copy of the slab's storage descriptor.
    pub fn storage(&self) -> (r: Region)
        ensures
            r == self.storage,
    {
        self.storage
    }
}

proof fn lemma_mul_le(i: int, n: int, s: int)
    requires
        0 <= i < n,
        s > 0,
    ensures
        i * s < n * s,
        i * s >= 0,
{
    assert(i * s < n * s && i * s >= 0) by (nonlinear_arith)
        requires
            0 <= i < n,
            s > 0,
    ;
}

proof fn lemma_div_exact(i: int, s: int)
    requires
        i >= 0,
        s > 0,
    ensures
        (i * s) / s == i,
{
    assert((i * s) / s == i) by (nonlinear_arith)
        requires
            i >= 0,
            s > 0,
    ;
}

/// The number of buffers handed out by all the slabs together.
pub open spec fn used_count(slabs: Seq<BufferSlab>) -> nat
    decreases slabs.len(),
{
    if slabs.len() == 0 {
        0
    } else {
        used_count(slabs.drop_last()) + count_set(slabs.last().bits())
    }
}

/// The slab that the pool adds when every slab is full: `GROWTH_BUFFERS`
/// buffers of `GROWTH_BUFFER_SIZE` bytes, aligned to their size, over `storage`.
pub open spec fn is_growth_slab(s: BufferSlab, storage: Region) -> bool {
    &&& s.num_buffers == GROWTH_BUFFERS
    &&& s.buffer_size == GROWTH_BUFFER_SIZE
    &&& s.buffer_align == GROWTH_BUFFER_SIZE
    &&& s.storage == storage
}

/// A thread-shareable pool of receive buffers: a growing list of slabs.
pub struct BufferPool {
    pub slabs: Vec<BufferSlab>,
}

impl BufferPool {
    pub open spec fn wf(&self) -> bool {
        &&& forall|i: int| 0 <= i < self.slabs@.len() ==> (#[trigger] self.slabs@[i]).wf()
        &&& forall|i: int, j: int|
            0 <= i < self.slabs@.len() && 0 <= j < self.slabs@.len() && i != j
                ==> #[trigger] self.slabs@[i].storage.id != #[trigger] self.slabs@[j].storage.id
    }

    /// Whether some slab is backed by the storage with this id.
    pub open spec fn has_storage(&self, id: u32) -> bool {
        exists|i: int| 0 <= i < self.slabs@.len() && #[trigger] self.slabs@[i].storage.id == id
    }

    /// Whether every buffer of every slab is handed out.
    pub open spec fn is_full(&self) -> bool {
        forall|i: int| 0 <= i < self.slabs@.len() ==> (#[trigger] self.slabs@[i]).is_full()
    }

    /// Buffers handed out and not yet released.
    pub open spec fn used(&self) -> nat {
        used_count(self.slabs@)
    }

    /// Whether `storage` can back the slab that the pool adds when full.
    pub open spec fn fits_growth(&self, storage: Region) -> bool {
        &&& BufferSlab::region_ok(
            GROWTH_BUFFERS,
            GROWTH_BUFFER_SIZE,
            GROWTH_BUFFER_SIZE,
            storage,
        )
        &&& !self.has_storage(storage.id)
    }

    /// What `obtain` does: one more buffer is handed out. If some slab has a
    /// free buffer, the lowest free buffer of the first such slab is taken and
    /// the slabs are otherwise unchanged; else a growth slab over `fresh` is
    /// appended and its first buffer taken.
    pub open spec fn obtained(before: BufferPool, after: BufferPool, fresh: Region, r: RecvBuffer) -> bool {
        &&& after.used() == before.used() + 1
        &&& !before.is_full() ==> exists|s: int, i: int|
                {
                    &&& 0 <= s < before.slabs@.len()
                    &&& forall|t: int| 0 <= t < s ==> (#[trigger] before.slabs@[t]).is_full()
                    &&& 0 <= i < before.slabs@[s].num_buffers
                    &&& !before.slabs@[s].bits()[i]
                    &&& forall|j: int| 0 <= j < i ==> #[trigger] before.slabs@[s].bits()[j]
                    &&& after.slabs@ == before.slabs@.update(s, after.slabs@[s])
                    &&& after.slabs@[s].bits() == before.slabs@[s].bits().update(i, true)
                    &&& after.slabs@[s].num_buffers == before.slabs@[s].num_buffers
                    &&& after.slabs@[s].buffer_size == before.slabs@[s].buffer_size
                    &&& after.slabs@[s].buffer_align == before.slabs@[s].buffer_align
                    &&& after.slabs@[s].storage == before.slabs@[s].storage
                    &&& r == before.slabs@[s].buffer_at(i)
                }
        &&& before.is_full() ==> {
                let n = before.slabs@.len();
                &&& after.slabs@.len() == n + 1
                &&& after.slabs@.take(n as int) == before.slabs@
                &&& is_growth_slab(after.slabs@[n as int], fresh)
                &&& after.slabs@[n as int].bits() == Seq::new(
                    GROWTH_BUFFERS as nat,
                    |i: int| false,
                ).update(0, true)
                &&& r == after.slabs@[n as int].buffer_at(0)
            }
    }

    /// An empty pool, with no slab.
    pub fn new() -> (r: BufferPool)
        ensures
            r.wf(),
            r.slabs@.len() == 0,
            r.used() == 0,
    {
        BufferPool { slabs: Vec::new() }
    }

    /// The number of slabs.
    pub fn num_slabs(&self) -> (r: usize)
        ensures
            r == self.slabs@.len(),
    {
        self.slabs.len()
    }

    /// Appends a slab to the pool.
    pub fn replenish(&mut self, slab: BufferSlab)
        requires
            old(self).wf(),
            slab.wf(),
            !old(self).has_storage(slab.storage.id),
        ensures
            final(self).wf(),
            final(self).slabs@ == old(self).slabs@.push(slab),
            final(self).used() == old(self).used() + count_set(slab.bits()),
    {
        self.slabs.push(slab);
        proof {
            assert(self.slabs@.drop_last() =~= old(self).slabs@);
        }
    }

    /// Whether every slab is full, so that the next `obtain` adds a slab.
    pub fn needs_growth(&self) -> (r: bool)
        requires
            self.wf(),
        ensures
            r == self.is_full(),
    {
        let mut i: usize = 0;
        while i < self.slabs.len()
            invariant
                i <= self.slabs@.len(),
                self.wf(),
                forall|t: int| 0 <= t < i ==> (#[trigger] self.slabs@[t]).is_full(),
            decreases self.slabs@.len() - i,
        {
            if self.slabs[i].bitmap.first_zero().is_some() {
                return false;
            }
            i += 1;
        }
        true
    }

    /// Hands out the lowest free buffer of the first slab that has one. When
    /// every slab is full, first appends a slab of `GROWTH_BUFFERS` buffers of
    /// `GROWTH_BUFFER_SIZE` bytes over `fresh`, then hands out its first buffer.
    /// `fresh` is used only in that case.
    pub fn obtain(&mut self, fresh: Region) -> (r: RecvBuffer)
        requires
            old(self).wf(),
            old(self).is_full() ==> old(self).fits_growth(fresh),
        ensures
            final(self).wf(),
            Self::obtained(*old(self), *final(self), fresh, r),
    {
        let mut idx: usize = 0;
        while idx < self.slabs.len()
            invariant
                idx <= self.slabs@.len(),
                self.slabs@ == old(self).slabs@,
                old(self).wf(),
                forall|t: int| 0 <= t < idx ==> (#[trigger] old(self).slabs@[t]).is_full(),
            decreases self.slabs@.len() - idx,
        {
            let got = self.slabs[idx].obtain();
            match got {
                Some(b) => {
                    proof {
                        let s = idx as int;
                        assert(self.slabs@ =~= old(self).slabs@.update(s, self.slabs@[s]));
                        lemma_count_set_update(old(self).slabs@[s].bits(), b.index(), true);
                        lemma_used_update(old(self).slabs@, s, self.slabs@[s]);
                        assert forall|i: int, j: int|
                            0 <= i < self.slabs@.len() && 0 <= j < self.slabs@.len() && i != j
                                implies #[trigger] self.slabs@[i].storage.id
                            != #[trigger] self.slabs@[j].storage.id by {
                            assert(old(self).slabs@[i].storage.id != old(self).slabs@[j].storage.id);
                        }
                        assert forall|i: int| 0 <= i < self.slabs@.len() implies (
                        #[trigger] self.slabs@[i]).wf() by {
                            assert(old(self).slabs@[i].wf());
                        }
                    }
                    return b;
                },
                None => {},
            }
            idx += 1;
        }
        proof {
            assert(old(self).is_full());
            lemma_growth_align_pow2();
        }
        let slab = match BufferSlab::new(
            GROWTH_BUFFERS,
            GROWTH_BUFFER_SIZE,
            GROWTH_BUFFER_SIZE,
            fresh,
        ) {
            Ok(s) => s,
            Err(_) => {
                proof {
                    assert(BufferSlab::layout_ok(GROWTH_BUFFERS, GROWTH_BUFFER_SIZE, GROWTH_BUFFER_SIZE));
                }
                return RecvBuffer { offset: 0, len: GROWTH_BUFFER_SIZE, align: GROWTH_BUFFER_SIZE, storage: fresh };
            },
        };
        proof {
            lemma_count_set_zeros(GROWTH_BUFFERS as nat);
        }
        self.replenish(slab);
        let n = self.slabs.len() - 1;
        let got = self.slabs[n].obtain();
        match got {
            Some(b) => {
                proof {
                    let s = n as int;
                    assert(self.slabs@ =~= old(self).slabs@.push(slab).update(s, self.slabs@[s]));
                    lemma_count_set_update(slab.bits(), 0, true);
                    lemma_used_update(old(self).slabs@.push(slab), s, self.slabs@[s]);
                    assert(old(self).slabs@.push(slab).drop_last() =~= old(self).slabs@);
                    assert(self.slabs@.take(s) =~= old(self).slabs@);
                    assert forall|i: int, j: int|
                        0 <= i < self.slabs@.len() && 0 <= j < self.slabs@.len() && i != j
                            implies #[trigger] self.slabs@[i].storage.id
                        != #[trigger] self.slabs@[j].storage.id by {
                        if i < s && j < s {
                            assert(old(self).slabs@[i].storage.id != old(self).slabs@[j].storage.id);
                        }
                    }
                    assert forall|i: int| 0 <= i < self.slabs@.len() implies (
                    #[trigger] self.slabs@[i]).wf() by {
                        if i < s {
                            assert(old(self).slabs@[i].wf());
                        }
                    }
                }
                b
            },
            None => {
                proof {
                    assert(!slab.bits()[0]);
                }
                RecvBuffer { offset: 0, len: GROWTH_BUFFER_SIZE, align: GROWTH_BUFFER_SIZE, storage: fresh }
            },
        }
    }

    /// Returns `recv_buf` to the slab backed by the same storage.
    pub fn release(&mut self, recv_buf: RecvBuffer)
        requires
            old(self).wf(),
            recv_buf.len > 0,
            exists|s: int|
                0 <= s < old(self).slabs@.len() && #[trigger] old(self).slabs@[s].storage.id
                    == recv_buf.storage.id && recv_buf.index() < old(self).slabs@[s].num_buffers,
        ensures
            final(self).wf(),
            exists|s: int|
                {
                    &&& 0 <= s < old(self).slabs@.len()
                    &&& #[trigger] old(self).slabs@[s].storage.id == recv_buf.storage.id
                    &&& final(self).slabs@ == old(self).slabs@.update(s, final(self).slabs@[s])
                    &&& final(self).slabs@[s].bits() == old(self).slabs@[s].bits().update(
                        recv_buf.index(),
                        false,
                    )
                    &&& final(self).slabs@[s].num_buffers == old(self).slabs@[s].num_buffers
                    &&& final(self).slabs@[s].buffer_size == old(self).slabs@[s].buffer_size
                    &&& final(self).slabs@[s].buffer_align == old(self).slabs@[s].buffer_align
                    &&& final(self).slabs@[s].storage == old(self).slabs@[s].storage
                    &&& final(self).used() + (if old(self).slabs@[s].bits()[recv_buf.index()] {
                        1int
                    } else {
                        0int
                    }) == old(self).used()
                },
    {
        let ghost target = choose|s: int|
            0 <= s < old(self).slabs@.len() && #[trigger] old(self).slabs@[s].storage.id
                == recv_buf.storage.id && recv_buf.index() < old(self).slabs@[s].num_buffers;
        let mut idx: usize = 0;
        while idx < self.slabs.len()
            invariant
                idx <= self.slabs@.len(),
                self.slabs@ == old(self).slabs@,
                old(self).wf(),
                recv_buf.len > 0,
                0 <= target < old(self).slabs@.len(),
                old(self).slabs@[target].storage.id == recv_buf.storage.id,
                recv_buf.index() < old(self).slabs@[target].num_buffers,
                forall|t: int| 0 <= t < idx ==> (#[trigger] old(self).slabs@[t]).storage.id
                    != recv_buf.storage.id,
            decreases self.slabs@.len() - idx,
        {
            if self.slabs[idx].storage.id == recv_buf.storage.id {
                proof {
                    if idx != target {
                        assert(old(self).slabs@[idx as int].storage.id != old(self).slabs@[target].storage.id);
                    }
                }
                self.slabs[idx].release(recv_buf);
                proof {
                    let s = idx as int;
                    assert(self.slabs@ =~= old(self).slabs@.update(s, self.slabs@[s]));
                    lemma_count_set_update(old(self).slabs@[s].bits(), recv_buf.index(), false);
                    lemma_used_update(old(self).slabs@, s, self.slabs@[s]);
                    assert forall|i: int, j: int|
                        0 <= i < self.slabs@.len() && 0 <= j < self.slabs@.len() && i != j
                            implies #[trigger] self.slabs@[i].storage.id
                        != #[trigger] self.slabs@[j].storage.id by {
                        assert(old(self).slabs@[i].storage.id != old(self).slabs@[j].storage.id);
                    }
                    assert forall|i: int| 0 <= i < self.slabs@.len() implies (
                    #[trigger] self.slabs@[i]).wf() by {
                        assert(old(self).slabs@[i].wf());
                    }
                }
                return;
            }
            idx += 1;
        }
        proof {
            assert(old(self).slabs@[target].storage.id != recv_buf.storage.id);
        }
    }

    /// The storage behind `handle`, so that it can be mapped by another process.
    pub fn find(&self, handle: u32) -> (r: Result<Region, PoolError>)
        requires
            self.wf(),
        ensures
            match r {
                Ok(region) => exists|s: int|
                    0 <= s < self.slabs@.len() && #[trigger] self.slabs@[s].storage == region
                        && region.id == handle,
                Err(e) => e == PoolError::NotFound && !self.has_storage(handle),
            },
    {
        let mut idx: usize = 0;
        while idx < self.slabs.len()
            invariant
                idx <= self.slabs@.len(),
                forall|t: int| 0 <= t < idx ==> (#[trigger] self.slabs@[t]).storage.id != handle,
            decreases self.slabs@.len() - idx,
        {
            if self.slabs[idx].storage.id == handle {
                return Ok(self.slabs[idx].storage());
            }
            idx += 1;
        }
        Err(PoolError::NotFound)
    }

}

/// The slab count that `used` buffers take when slabs of `GROWTH_BUFFERS`
/// are filled one after the other.
pub open spec fn batches(used: nat) -> nat {
    ((used + GROWTH_BUFFERS - 1) / (GROWTH_BUFFERS as int)) as nat
}

/// Whether every slab holds `GROWTH_BUFFERS` buffers.
pub open spec fn growth_sized(slabs: Seq<BufferSlab>) -> bool {
    forall|i: int| 0 <= i < slabs.len() ==> (#[trigger] slabs[i]).num_buffers == GROWTH_BUFFERS
}

/// Obtaining buffers one after another from a pool grown only by `obtain`
/// adds exactly one slab per `GROWTH_BUFFERS` buffers handed out, and every
/// buffer handed out stays counted: with `used` buffers out, the pool has
/// `batches(used)` slabs, and each `obtain` counts one more.
pub proof fn lemma_growth_batches(before: BufferPool, after: BufferPool, fresh: Region, r: RecvBuffer)
    requires
        before.wf(),
        growth_sized(before.slabs@),
        before.slabs@.len() == batches(before.used()),
        BufferPool::obtained(before, after, fresh, r),
    ensures
        growth_sized(after.slabs@),
        after.used() == before.used() + 1,
        after.slabs@.len() == batches(after.used()),
{
    let n = before.slabs@.len() as int;
    let k = before.used() as int;
    let g = GROWTH_BUFFERS as int;
    if before.is_full() {
        lemma_used_full(before.slabs@);
        assert(after.slabs@.take(n as int) == before.slabs@);
        assert forall|i: int| 0 <= i < after.slabs@.len() implies (
        #[trigger] after.slabs@[i]).num_buffers == GROWTH_BUFFERS by {
            if i < n {
                assert(after.slabs@.take(n as int)[i] == after.slabs@[i]);
            }
        }
        assert(k == g * n);
        assert((g * n + 1 + g - 1) / g == n + 1) by (nonlinear_arith)
            requires
                g == 128,
        ;
    } else {
        let (s, i) = choose|s: int, i: int|
            {
                &&& 0 <= s < before.slabs@.len()
                &&& forall|t: int| 0 <= t < s ==> (#[trigger] before.slabs@[t]).is_full()
                &&& 0 <= i < before.slabs@[s].num_buffers
                &&& !before.slabs@[s].bits()[i]
                &&& forall|j: int| 0 <= j < i ==> #[trigger] before.slabs@[s].bits()[j]
                &&& after.slabs@ == before.slabs@.update(s, after.slabs@[s])
                &&& after.slabs@[s].bits() == before.slabs@[s].bits().update(i, true)
                &&& after.slabs@[s].num_buffers == before.slabs@[s].num_buffers
                &&& after.slabs@[s].buffer_size == before.slabs@[s].buffer_size
                &&& after.slabs@[s].buffer_align == before.slabs@[s].buffer_align
                &&& after.slabs@[s].storage == before.slabs@[s].storage
                &&& r == before.slabs@[s].buffer_at(i)
            };
        lemma_used_not_full(before.slabs@, s, i);
        assert forall|t: int| 0 <= t < after.slabs@.len() implies (
        #[trigger] after.slabs@[t]).num_buffers == GROWTH_BUFFERS by {
            if t != s {
                assert(after.slabs@[t] == before.slabs@[t]);
            }
        }
        assert(k < g * n);
        assert(n >= 1);
        assert((k + g - 1) / g == n ==> (k + 1 + g - 1) / g == n) by (nonlinear_arith)
            requires
                g == 128,
                k < g * n,
                n >= 1,
        ;
    }
}

proof fn lemma_count_set_bound(bits: Seq<bool>)
    ensures
        count_set(bits) <= bits.len(),
        (forall|j: int| 0 <= j < bits.len() ==> #[trigger] bits[j]) ==> count_set(bits) == bits.len(),
    decreases bits.len(),
{
    if bits.len() > 0 {
        lemma_count_set_bound(bits.drop_last());
        if forall|j: int| 0 <= j < bits.len() ==> #[trigger] bits[j] {
            assert forall|j: int| 0 <= j < bits.drop_last().len() implies #[trigger] bits.drop_last()[j] by {
                assert(bits[j]);
            }
            assert(bits[bits.len() - 1]);
        }
    }
}

proof fn lemma_count_set_missing(bits: Seq<bool>, i: int)
    requires
        0 <= i < bits.len(),
        !bits[i],
    ensures
        count_set(bits) < bits.len(),
    decreases bits.len(),
{
    lemma_count_set_bound(bits.drop_last());
    if i < bits.len() - 1 {
        assert(!bits.drop_last()[i]);
        lemma_count_set_missing(bits.drop_last(), i);
    }
}

proof fn lemma_used_full(slabs: Seq<BufferSlab>)
    requires
        growth_sized(slabs),
        forall|i: int| 0 <= i < slabs.len() ==> (#[trigger] slabs[i]).wf(),
        forall|i: int| 0 <= i < slabs.len() ==> (#[trigger] slabs[i]).is_full(),
    ensures
        used_count(slabs) == GROWTH_BUFFERS * slabs.len(),
    decreases slabs.len(),
{
    if slabs.len() > 0 {
        let last = slabs.last();
        assert(last == slabs[slabs.len() - 1]);
        assert(last.wf() && last.is_full());
        lemma_count_set_bound(last.bits());
        assert forall|i: int| 0 <= i < slabs.drop_last().len() implies (
        #[trigger] slabs.drop_last()[i]).num_buffers == GROWTH_BUFFERS by {
            assert(slabs[i].num_buffers == GROWTH_BUFFERS);
        }
        assert forall|i: int| 0 <= i < slabs.drop_last().len() implies (
        #[trigger] slabs.drop_last()[i]).wf() && slabs.drop_last()[i].is_full() by {
            assert(slabs[i].wf() && slabs[i].is_full());
        }
        lemma_used_full(slabs.drop_last());
    }
}

proof fn lemma_used_not_full(slabs: Seq<BufferSlab>, s: int, i: int)
    requires
        growth_sized(slabs),
        forall|k: int| 0 <= k < slabs.len() ==> (#[trigger] slabs[k]).wf(),
        0 <= s < slabs.len(),
        0 <= i < slabs[s].num_buffers,
        !slabs[s].bits()[i],
    ensures
        used_count(slabs) < GROWTH_BUFFERS * slabs.len(),
    decreases slabs.len(),
{
    let last = slabs.last();
    assert(last == slabs[slabs.len() - 1]);
    assert(last.wf());
    lemma_count_set_bound(last.bits());
    if slabs.len() > 1 {
        assert forall|k: int| 0 <= k < slabs.drop_last().len() implies (
        #[trigger] slabs.drop_last()[k]).num_buffers == GROWTH_BUFFERS by {
            assert(slabs[k].num_buffers == GROWTH_BUFFERS);
        }
        assert forall|k: int| 0 <= k < slabs.drop_last().len() implies (
        #[trigger] slabs.drop_last()[k]).wf() by {
            assert(slabs[k].wf());
        }
    }
    assert(used_count(slabs) == used_count(slabs.drop_last()) + count_set(last.bits()));
    assert(last.bits().len() == GROWTH_BUFFERS);
    if s == slabs.len() - 1 {
        assert(slabs[s].wf());
        lemma_count_set_missing(last.bits(), i);
        if slabs.len() > 1 {
            lemma_used_le(slabs.drop_last());
        } else {
            assert(used_count(slabs.drop_last()) == 0);
        }
    } else {
        assert(slabs.drop_last()[s] == slabs[s]);
        lemma_used_not_full(slabs.drop_last(), s, i);
    }
}

proof fn lemma_used_le(slabs: Seq<BufferSlab>)
    requires
        growth_sized(slabs),
        forall|k: int| 0 <= k < slabs.len() ==> (#[trigger] slabs[k]).wf(),
    ensures
        used_count(slabs) <= GROWTH_BUFFERS * slabs.len(),
    decreases slabs.len(),
{
    if slabs.len() > 0 {
        let last = slabs.last();
        assert(last == slabs[slabs.len() - 1]);
        assert(last.wf());
        lemma_count_set_bound(last.bits());
        assert forall|k: int| 0 <= k < slabs.drop_last().len() implies (
        #[trigger] slabs.drop_last()[k]).num_buffers == GROWTH_BUFFERS && slabs.drop_last()[k].wf() by {
            assert(slabs[k].num_buffers == GROWTH_BUFFERS && slabs[k].wf());
        }
        lemma_used_le(slabs.drop_last());
    }
}

proof fn lemma_growth_align_pow2()
    ensures
        is_pow2(GROWTH_BUFFER_SIZE as nat),
{
    reveal_with_fuel(is_pow2, 24);
}

proof fn lemma_count_set_update(bits: Seq<bool>, i: int, v: bool)
    requires
        0 <= i < bits.len(),
    ensures
        count_set(bits.update(i, v)) + (if bits[i] { 1int } else { 0int }) == count_set(bits) + (
        if v {
            1int
        } else {
            0int
        }),
    decreases bits.len(),
{
    let u = bits.update(i, v);
    if i == bits.len() - 1 {
        assert(u.drop_last() =~= bits.drop_last());
    } else {
        assert(u.drop_last() =~= bits.drop_last().update(i, v));
        lemma_count_set_update(bits.drop_last(), i, v);
    }
}

proof fn lemma_count_set_zeros(n: nat)
    ensures
        count_set(Seq::new(n, |i: int| false)) == 0,
    decreases n,
{
    if n > 0 {
        assert(Seq::new(n, |i: int| false).drop_last() =~= Seq::new((n - 1) as nat, |i: int| false));
        lemma_count_set_zeros((n - 1) as nat);
    }
}

proof fn lemma_used_update(slabs: Seq<BufferSlab>, s: int, x: BufferSlab)
    requires
        0 <= s < slabs.len(),
    ensures
        used_count(slabs.update(s, x)) + count_set(slabs[s].bits()) == used_count(slabs)
            + count_set(x.bits()),
    decreases slabs.len(),
{
    let u = slabs.update(s, x);
    if s == slabs.len() - 1 {
        assert(u.drop_last() =~= slabs.drop_last());
    } else {
        assert(u.drop_last() =~= slabs.drop_last().update(s, x));
        lemma_used_update(slabs.drop_last(), s, x);
    }
}

} // verus!
