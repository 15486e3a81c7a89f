//! The early allocator: one contiguous region `[start, end)` split into a
//! forward-growing byte zone, a backward-growing page zone, and the free gap
//! between them.

use vstd::arithmetic::div_mod::{
    lemma_fundamental_div_mod, lemma_fundamental_div_mod_converse,
    lemma_mod_division_less_than_divisor, lemma_mod_multiples_basic,
};
use vstd::arithmetic::mul::lemma_mul_inequality;
use vstd::arithmetic::power2::{lemma_pow2_pos, pow2};
use vstd::bits::{lemma_usize_pow2_no_overflow, lemma_usize_shl_is_mul};
use vstd::prelude::*;

verus! {

/// Errors surfaced by the early allocator.
///
/// `NoMemory` is recoverable: the request would make the two zones collide,
/// and the allocator state is left unchanged. `Unsupported` is returned by
/// the operations this bootstrap allocator deliberately does not implement.
#[derive(Clone, Copy, Debug, PartialEq, Eq, Structural)]
pub enum AllocError {
    NoMemory,
    Unsupported,
}

/// The smallest multiple of `align` that is at least `pos`.
pub open spec fn round_up(pos: int, align: int) -> int {
    ((pos + align - 1) / align) * align
}

/// The largest multiple of `align` that is at most `pos`.
pub open spec fn round_down(pos: int, align: int) -> int {
    (pos / align) * align
}

/// `round_up` adds exactly the padding that the current remainder calls for,
/// lands on a multiple of `align`, and overshoots by less than `align`.
proof fn lemma_round_up_pad(pos: int, align: int)
    requires
        align >= 1,
        0 <= pos,
    ensures
        round_up(pos, align) == pos + (if pos % align == 0 {
            0int
        } else {
            align - pos % align
        }),
        pos <= round_up(pos, align) < pos + align,
        round_up(pos, align) % align == 0,
{
    let q = pos / align;
    let r = pos % align;
    lemma_fundamental_div_mod(pos, align);
    lemma_mod_division_less_than_divisor(pos, align);
    if r == 0 {
        assert(pos + align - 1 == q * align + (align - 1)) by (nonlinear_arith)
            requires
                pos == align * q + r,
                r == 0,
        ;
        lemma_fundamental_div_mod_converse(pos + align - 1, align, q, align - 1);
        assert(q * align == pos) by (nonlinear_arith)
            requires
                pos == align * q + r,
                r == 0,
        ;
    } else {
        assert(pos + align - 1 == (q + 1) * align + (r - 1)) by (nonlinear_arith)
            requires
                pos == align * q + r,
        ;
        lemma_fundamental_div_mod_converse(pos + align - 1, align, q + 1, r - 1);
        assert((q + 1) * align == pos - r + align) by (nonlinear_arith)
            requires
                pos == align * q + r,
        ;
    }
    lemma_mod_multiples_basic((pos + align - 1) / align, align);
}

/// `round_down` removes exactly the current remainder, lands on a multiple of
/// `align`, and undershoots by less than `align`.
proof fn lemma_round_down_rem(pos: int, align: int)
    requires
        align >= 1,
    ensures
        round_down(pos, align) == pos - pos % align,
        pos - align < round_down(pos, align) <= pos,
        round_down(pos, align) % align == 0,
{
    lemma_fundamental_div_mod(pos, align);
    lemma_mod_division_less_than_divisor(pos, align);
    assert((pos / align) * align == align * (pos / align)) by (nonlinear_arith);
    lemma_mod_multiples_basic(pos / align, align);
}

/// A multiple of `align` is also a multiple of any positive divisor of
/// `align`.
proof fn lemma_multiple_of_divisor(x: int, align: int, d: int)
    requires
        align >= 1,
        d >= 1,
        x % align == 0,
        align % d == 0,
    ensures
        x % d == 0,
{
    let k = x / align;
    let m = align / d;
    lemma_fundamental_div_mod(x, align);
    lemma_fundamental_div_mod(align, d);
    assert(x == (k * m) * d) by (nonlinear_arith)
        requires
            x == align * k,
            align == d * m,
    ;
    lemma_mod_multiples_basic(k * m, d);
}

/// One byte-zone operation, as the reclamation law records a run of calls:
/// a committed `alloc_bytes` request, or a `dealloc`.
pub enum ByteOp {
    /// A successful `alloc_bytes(size, align)`.
    Alloc { size: usize, align: usize },
    /// A `dealloc` returning one live allocation of `size` bytes.
    Dealloc { size: usize },
}

/// A double-ended bump allocator for the boot sequence, used before the
/// permanent byte and page allocators exist.
///
/// ```text
/// [ bytes-used | free gap | pages-used ]
/// start       b_pos      p_pos       end
/// ```
///
/// Bytes are carved forward from `b_pos`; pages are carved backward from
/// `p_pos`. The byte zone is reclaimed all at once when the last live byte
/// allocation is returned; the page zone is never reclaimed.
pub struct EarlyAllocator<const PAGE_SIZE: usize> {
    /// Low bound of the managed region, fixed by `init`.
    pub start: usize,
    /// High bound of the managed region, fixed by `init`.
    pub end: usize,
    /// Next free offset for forward (byte) allocation.
    pub b_pos: usize,
    /// Next free offset for backward (page) allocation.
    pub p_pos: usize,
    /// Number of currently live byte allocations.
    pub byte_alloc_count: usize,
    /// Sum of the sizes of currently live byte allocations.
    pub byte_alloc_total: usize,
    /// Bytes ever committed to the page zone; never decremented.
    pub page_alloc_total: usize,
    /// Pages ever committed to the page zone; never decremented.
    pub page_alloc_count: usize,
}

impl<const PAGE_SIZE: usize> EarlyAllocator<PAGE_SIZE> {
    /// Well-formedness: the three zones partition the region in order, the
    /// byte-zone bookkeeping is consistent with an empty zone when nothing is
    /// live, and the page counters never outgrow the page zone.
    ///
    /// Only the count-zero direction of the byte-zone equivalence is kept,
    /// deliberately: a live zero-size allocation leaves `byte_alloc_total`
    /// at zero and can leave `b_pos` at `start` while the count is positive,
    /// so the converse directions do not hold of this allocator.
    pub open spec fn wf(&self) -> bool {
        &&& self.start <= self.b_pos
        &&& self.b_pos <= self.p_pos
        &&& self.p_pos <= self.end
        &&& (self.byte_alloc_count == 0 ==> self.b_pos == self.start
            && self.byte_alloc_total == 0)
        &&& self.byte_alloc_total <= self.b_pos - self.start
        &&& self.page_alloc_total <= self.end - self.p_pos
        &&& self.page_alloc_count * PAGE_SIZE <= self.page_alloc_total
    }

    /// A fresh, uninitialized allocator: every field is zero. It manages no
    /// memory until `init` is called.
    pub fn new() -> (r: Self)
        ensures
            r.start == 0,
            r.end == 0,
            r.b_pos == 0,
            r.p_pos == 0,
            r.byte_alloc_count == 0,
            r.byte_alloc_total == 0,
            r.page_alloc_total == 0,
            r.page_alloc_count == 0,
            r.wf(),
    {
        Self {
            start: 0,
            end: 0,
            b_pos: 0,
            p_pos: 0,
            byte_alloc_count: 0,
            byte_alloc_total: 0,
            page_alloc_total: 0,
            page_alloc_count: 0,
        }
    }

    /// Bind the allocator to the region `[start, start + size)` and reset all
    /// bookkeeping. Calling it again discards any outstanding allocations and
    /// starts over from fresh bounds, whatever the prior state was.
    pub fn init(&mut self, start: usize, size: usize)
        requires
            start + size <= usize::MAX,
        ensures
            final(self).start == start,
            final(self).end == start + size,
            final(self).b_pos == start,
            final(self).p_pos == start + size,
            final(self).byte_alloc_count == 0,
            final(self).byte_alloc_total == 0,
            final(self).page_alloc_total == 0,
            final(self).page_alloc_count == 0,
            final(self).wf(),
    {
        self.start = start;
        self.end = start + size;
        self.b_pos = start;
        self.p_pos = self.end;
        self.byte_alloc_count = 0;
        self.byte_alloc_total = 0;
        self.page_alloc_total = 0;
        self.page_alloc_count = 0;
    }

    /// Growing the managed region after initialization is unsupported: the
    /// call always fails and changes nothing.
    pub fn add_memory(&mut self, _start: usize, _size: usize) -> (r: Result<(), AllocError>)
        ensures
            r == Err::<(), AllocError>(AllocError::Unsupported),
            *final(self) == *old(self),
    {
        Err(AllocError::Unsupported)
    }

    /// Allocate `size` bytes at alignment `align` from the forward-growing
    /// byte zone.
    ///
    /// The request succeeds exactly when rounding `b_pos` up to `align` and
    /// adding `size` stays at or below `p_pos`; the returned address is that
    /// rounded position. On `NoMemory` nothing changes.
    pub fn alloc_bytes(&mut self, size: usize, align: usize) -> (r: Result<usize, AllocError>)
        requires
            old(self).wf(),
            align >= 1,
            old(self).byte_alloc_count < usize::MAX,
        ensures
            final(self).wf(),
            round_up(old(self).b_pos as int, align as int) + size <= old(self).p_pos ==> {
                let aligned = round_up(old(self).b_pos as int, align as int);
                &&& r == Ok::<usize, AllocError>(aligned as usize)
                &&& aligned % (align as int) == 0
                &&& old(self).start <= aligned
                &&& old(self).b_pos <= aligned < old(self).b_pos + align
                &&& (size >= 1 ==> aligned < old(self).p_pos)
                &&& final(self).b_pos == aligned + size
                &&& final(self).byte_alloc_count == old(self).byte_alloc_count + 1
                &&& final(self).byte_alloc_total == old(self).byte_alloc_total + size
                &&& final(self).start == old(self).start
                &&& final(self).end == old(self).end
                &&& final(self).p_pos == old(self).p_pos
                &&& final(self).page_alloc_total == old(self).page_alloc_total
                &&& final(self).page_alloc_count == old(self).page_alloc_count
                &&& *final(self) == old(self).byte_op_apply((ByteOp::Alloc { size, align }))
            },
            round_up(old(self).b_pos as int, align as int) + size > old(self).p_pos ==> {
                &&& r == Err::<usize, AllocError>(AllocError::NoMemory)
                &&& *final(self) == *old(self)
            },
    {
        proof {
            lemma_round_up_pad(self.b_pos as int, align as int);
        }
        let gap: usize = self.p_pos - self.b_pos;
        let rem: usize = self.b_pos % align;
        let pad: usize = if rem == 0 {
            0
        } else {
            align - rem
        };
        if pad > gap || size > gap - pad {
            return Err(AllocError::NoMemory);
        }
        let aligned: usize = self.b_pos + pad;
        self.b_pos = aligned + size;
        self.byte_alloc_count = self.byte_alloc_count + 1;
        self.byte_alloc_total = self.byte_alloc_total + size;
        Ok(aligned)
    }

    /// Return one byte allocation of `size` bytes. Only the bookkeeping is
    /// updated; the memory itself is reclaimed all at once when the last
    /// live allocation is returned, and only then.
    ///
    /// Callers must pair each call with exactly one earlier successful
    /// `alloc_bytes`; the preconditions are that caller contract.
    pub fn dealloc(&mut self, _pos: usize, size: usize)
        requires
            old(self).wf(),
            old(self).byte_alloc_count >= 1,
            size <= old(self).byte_alloc_total,
        ensures
            final(self).wf(),
            final(self).byte_alloc_count == old(self).byte_alloc_count - 1,
            final(self).start == old(self).start,
            final(self).end == old(self).end,
            final(self).p_pos == old(self).p_pos,
            final(self).page_alloc_total == old(self).page_alloc_total,
            final(self).page_alloc_count == old(self).page_alloc_count,
            old(self).byte_alloc_count == 1 ==> final(self).b_pos == old(self).start
                && final(self).byte_alloc_total == 0,
            old(self).byte_alloc_count > 1 ==> final(self).b_pos == old(self).b_pos
                && final(self).byte_alloc_total == old(self).byte_alloc_total - size,
            *final(self) == old(self).byte_op_apply((ByteOp::Dealloc { size })),
    {
        self.byte_alloc_count = self.byte_alloc_count - 1;
        self.byte_alloc_total = self.byte_alloc_total - size;
        if self.byte_alloc_count == 0 {
            self.b_pos = self.start;
            self.byte_alloc_total = 0;
        }
    }

    /// Allocate `num_pages` pages at alignment `2^align_pow` from the
    /// backward-growing page zone.
    ///
    /// The candidate address is `p_pos` minus the request, rounded down to
    /// the alignment; the request succeeds exactly when that candidate does
    /// not reach into the byte zone. `p_pos` never increases. On `NoMemory`
    /// nothing changes.
    pub fn alloc_pages(&mut self, num_pages: usize, align_pow: usize) -> (r: Result<
        usize,
        AllocError,
    >)
        requires
            old(self).wf(),
            PAGE_SIZE >= 1,
            align_pow < usize::BITS,
        ensures
            final(self).wf(),
            ({
                let align = pow2(align_pow as nat) as int;
                let size = num_pages * PAGE_SIZE;
                let aligned = round_down(old(self).p_pos - size, align);
                &&& (aligned >= old(self).b_pos ==> {
                    &&& r == Ok::<usize, AllocError>(aligned as usize)
                    &&& aligned % align == 0
                    &&& (align % (PAGE_SIZE as int) == 0 ==> aligned % (PAGE_SIZE as int) == 0)
                    &&& aligned + size <= old(self).p_pos
                    &&& (num_pages >= 1 ==> aligned < old(self).end)
                    &&& final(self).p_pos == aligned
                    &&& final(self).page_alloc_total == old(self).page_alloc_total + size
                    &&& final(self).page_alloc_count == old(self).page_alloc_count + num_pages
                    &&& final(self).start == old(self).start
                    &&& final(self).end == old(self).end
                    &&& final(self).b_pos == old(self).b_pos
                    &&& final(self).byte_alloc_count == old(self).byte_alloc_count
                    &&& final(self).byte_alloc_total == old(self).byte_alloc_total
                })
                &&& (aligned < old(self).b_pos ==> {
                    &&& r == Err::<usize, AllocError>(AllocError::NoMemory)
                    &&& *final(self) == *old(self)
                })
            }),
    {
        proof {
            lemma_pow2_pos(align_pow as nat);
            lemma_usize_pow2_no_overflow(align_pow as nat);
            lemma_usize_shl_is_mul(1, align_pow);
            lemma_fundamental_div_mod(self.p_pos as int, PAGE_SIZE as int);
            lemma_mod_division_less_than_divisor(self.p_pos as int, PAGE_SIZE as int);
        }
        let align: usize = 1usize << align_pow;
        if num_pages > self.p_pos / PAGE_SIZE {
            proof {
                let pp = self.p_pos as int;
                let ps = PAGE_SIZE as int;
                let q = pp / ps;
                lemma_mul_inequality(q + 1, num_pages as int, ps);
                assert((q + 1) * ps == ps * q + ps) by (nonlinear_arith);
                lemma_round_down_rem(pp - num_pages * ps, align as int);
            }
            return Err(AllocError::NoMemory);
        }
        proof {
            let pp = self.p_pos as int;
            let ps = PAGE_SIZE as int;
            let q = pp / ps;
            lemma_mul_inequality(num_pages as int, q, ps);
            assert(q * ps == ps * q) by (nonlinear_arith);
        }
        let size: usize = num_pages * PAGE_SIZE;
        let base: usize = self.p_pos - size;
        proof {
            lemma_round_down_rem(base as int, align as int);
        }
        let rem: usize = base % align;
        let aligned: usize = base - rem;
        if aligned < self.b_pos {
            return Err(AllocError::NoMemory);
        }
        proof {
            if (align as int) % (PAGE_SIZE as int) == 0 {
                lemma_multiple_of_divisor(aligned as int, align as int, PAGE_SIZE as int);
            }
            if num_pages >= 1 {
                lemma_mul_inequality(1, num_pages as int, PAGE_SIZE as int);
            }
            let count = self.page_alloc_count as int;
            let num = num_pages as int;
            assert((count + num) * (PAGE_SIZE as int) == count * (PAGE_SIZE as int) + num * (
            PAGE_SIZE as int)) by (nonlinear_arith);
            assert((count + num) * (PAGE_SIZE as int) >= count + num) by (nonlinear_arith)
                requires
                    PAGE_SIZE >= 1,
                    count >= 0,
                    num >= 0,
            ;
        }
        self.p_pos = aligned;
        self.page_alloc_total = self.page_alloc_total + size;
        self.page_alloc_count = self.page_alloc_count + num_pages;
        Ok(aligned)
    }

    /// Freeing pages through this allocator is unsupported: the call always
    /// fails and changes nothing. Page memory is reclaimed only by discarding
    /// the whole instance.
    pub fn dealloc_pages(&mut self, _pos: usize, _num_pages: usize) -> (r: Result<
        (),
        AllocError,
    >)
        ensures
            r == Err::<(), AllocError>(AllocError::Unsupported),
            *final(self) == *old(self),
    {
        Err(AllocError::Unsupported)
    }

    /// Size of the whole managed region.
    pub fn total_bytes(&self) -> (r: usize)
        requires
            self.wf(),
        ensures
            r == self.end - self.start,
    {
        self.end - self.start
    }

    /// Bytes currently live in the byte zone (sum of live allocation sizes).
    pub fn used_bytes(&self) -> (r: usize)
        ensures
            r == self.byte_alloc_total,
    {
        self.byte_alloc_total
    }

    /// Size of the free gap between the two zones.
    pub fn available_bytes(&self) -> (r: usize)
        requires
            self.wf(),
        ensures
            r == self.p_pos - self.b_pos,
    {
        self.p_pos - self.b_pos
    }

    /// Whole pages the managed region can hold.
    pub fn total_pages(&self) -> (r: usize)
        requires
            self.wf(),
            PAGE_SIZE >= 1,
        ensures
            r == (self.end - self.start) as int / PAGE_SIZE as int,
    {
        (self.end - self.start) / PAGE_SIZE
    }

    /// Whole pages ever committed to the page zone.
    pub fn used_pages(&self) -> (r: usize)
        requires
            PAGE_SIZE >= 1,
        ensures
            r == self.page_alloc_total as int / PAGE_SIZE as int,
    {
        self.page_alloc_total / PAGE_SIZE
    }

    /// Whole pages that still fit in the free gap.
    pub fn available_pages(&self) -> (r: usize)
        requires
            self.wf(),
            PAGE_SIZE >= 1,
        ensures
            r == (self.p_pos - self.b_pos) as int / PAGE_SIZE as int,
    {
        (self.p_pos - self.b_pos) / PAGE_SIZE
    }

    /// Whether the byte zone accepts `op` in this state, exactly as
    /// `alloc_bytes` and `dealloc` do.
    pub open spec fn byte_op_enabled(self, op: ByteOp) -> bool {
        match op {
            ByteOp::Alloc { size, align } => {
                &&& align >= 1
                &&& self.byte_alloc_count < usize::MAX
                &&& round_up(self.b_pos as int, align as int) + size <= self.p_pos
            },
            ByteOp::Dealloc { size } => {
                &&& self.byte_alloc_count >= 1
                &&& size <= self.byte_alloc_total
            },
        }
    }

    /// The state after `op`: the committed effect of `alloc_bytes`, or of
    /// `dealloc` with its all-or-nothing reclamation.
    pub open spec fn byte_op_apply(self, op: ByteOp) -> Self {
        match op {
            ByteOp::Alloc { size, align } => Self {
                b_pos: (round_up(self.b_pos as int, align as int) + size) as usize,
                byte_alloc_count: (self.byte_alloc_count + 1) as usize,
                byte_alloc_total: (self.byte_alloc_total + size) as usize,
                ..self
            },
            ByteOp::Dealloc { size } => if self.byte_alloc_count == 1 {
                Self { b_pos: self.start, byte_alloc_count: 0, byte_alloc_total: 0, ..self }
            } else {
                Self {
                    byte_alloc_count: (self.byte_alloc_count - 1) as usize,
                    byte_alloc_total: (self.byte_alloc_total - size) as usize,
                    ..self
                }
            },
        }
    }

    /// Whether the byte zone accepts the whole run `ops`, step by step.
    pub open spec fn byte_ops_enabled(self, ops: Seq<ByteOp>) -> bool
        decreases ops.len(),
    {
        ops.len() == 0 || (self.byte_op_enabled(ops[0]) && self.byte_op_apply(
            ops[0],
        ).byte_ops_enabled(ops.drop_first()))
    }

    /// The state after the whole run `ops`.
    pub open spec fn byte_ops_apply(self, ops: Seq<ByteOp>) -> Self
        decreases ops.len(),
    {
        if ops.len() == 0 {
            self
        } else {
            self.byte_op_apply(ops[0]).byte_ops_apply(ops.drop_first())
        }
    }

    /// A run of byte operations keeps the state well-formed and touches
    /// neither the region bounds, the page zone, nor `p_pos`.
    pub proof fn lemma_byte_run_keeps_frame(self, ops: Seq<ByteOp>)
        requires
            self.wf(),
            self.byte_ops_enabled(ops),
        ensures
            self.byte_ops_apply(ops).wf(),
            self.byte_ops_apply(ops).start == self.start,
            self.byte_ops_apply(ops).end == self.end,
            self.byte_ops_apply(ops).p_pos == self.p_pos,
            self.byte_ops_apply(ops).page_alloc_total == self.page_alloc_total,
            self.byte_ops_apply(ops).page_alloc_count == self.page_alloc_count,
        decreases ops.len(),
    {
        if ops.len() > 0 {
            let next = self.byte_op_apply(ops[0]);
            match ops[0] {
                ByteOp::Alloc { size, align } => {
                    lemma_round_up_pad(self.b_pos as int, align as int);
                },
                ByteOp::Dealloc { size } => {},
            }
            assert(next.wf());
            next.lemma_byte_run_keeps_frame(ops.drop_first());
        }
    }

    /// Law: full reclamation of the byte zone. Take any run of byte
    /// operations the allocator accepts — allocations and deallocations in
    /// any interleaving — that starts and ends with no live allocation.
    /// After the run the byte zone is empty, `b_pos` is back at `start`, and
    /// the free gap is exactly what it was before the run.
    pub proof fn lemma_balanced_byte_run_restores_gap(self, ops: Seq<ByteOp>)
        requires
            self.wf(),
            self.byte_alloc_count == 0,
            self.byte_ops_enabled(ops),
            self.byte_ops_apply(ops).byte_alloc_count == 0,
        ensures
            self.byte_ops_apply(ops).byte_alloc_total == 0,
            self.byte_ops_apply(ops).b_pos == self.b_pos,
            self.byte_ops_apply(ops).p_pos - self.byte_ops_apply(ops).b_pos == self.p_pos
                - self.b_pos,
    {
        self.lemma_byte_run_keeps_frame(ops);
    }

    /// Law: when the region length is a whole number of pages, the byte
    /// capacity and the page capacity describe the same region:
    /// `total_bytes()` equals `total_pages()` times the page size.
    pub proof fn lemma_total_bytes_split_into_pages(self)
        requires
            self.wf(),
            PAGE_SIZE >= 1,
            (self.end - self.start) % (PAGE_SIZE as int) == 0,
        ensures
            self.end - self.start == ((self.end - self.start) / (PAGE_SIZE as int)) * (
            PAGE_SIZE as int),
    {
        let len = self.end - self.start;
        lemma_fundamental_div_mod(len, PAGE_SIZE as int);
        assert((len / (PAGE_SIZE as int)) * (PAGE_SIZE as int) == (PAGE_SIZE as int) * (len / (
        PAGE_SIZE as int))) by (nonlinear_arith);
    }
}

} // verus!
