//! The kernel heap: segregated free lists by size class over bump-allocated regions.
//!
//! The allocator hands out addresses; it never touches the memory behind them.
//! A request is rounded up to a power-of-two size class. A block of a class is
//! as large as the class and aligned to it. A freed block goes to the free list
//! of its class and is the first to be handed out again; when a class has no
//! free block, the block is carved from the first region with room for it.

use vstd::prelude::*;
use vstd::arithmetic::power2::{pow2, is_pow2};
use crate::error::Error;
use crate::uefi::{EfiMemoryDescriptor, EfiMemoryType, MemoryMapHolder};

verus! {

/// Number of size classes: class `k` holds blocks of `2^k` bytes, for `k` below this.
pub const NUM_CLASSES: usize = 48;

/// A contiguous range of memory `[start, end)` of which `[start, next)` has been carved into blocks.
#[derive(Debug, Clone, Copy, PartialEq, Eq, Structural)]
pub struct Region {
    pub start: u64,
    pub end: u64,
    pub next: u64,
}

/// A block of memory: its address and its size class.
#[derive(Debug, Clone, Copy, PartialEq, Eq, Structural)]
pub struct Block {
    pub addr: u64,
    pub class: usize,
}

/// The mathematical state of the heap.
pub struct HeapModel {
    /// The regions, in the order in which they are tried.
    pub regions: Seq<Region>,
    /// One free list per size class; the last element is handed out first.
    pub free: Seq<Seq<u64>>,
    /// The blocks that are handed out, oldest first.
    pub live: Seq<Block>,
}

/// The larger of two numbers.
pub open spec fn max_nat(a: nat, b: nat) -> nat {
    if a >= b {
        a
    } else {
        b
    }
}

/// The smallest class from `k` on whose blocks hold `need` bytes; `NUM_CLASSES` if there is none.
pub open spec fn class_from(need: nat, k: nat) -> nat
    decreases NUM_CLASSES - k,
{
    if k >= NUM_CLASSES || pow2(k) >= need {
        k
    } else {
        class_from(need, k + 1)
    }
}

/// The size class that serves a request; `NUM_CLASSES` if the request is too large for any.
pub open spec fn class_of(size: usize, align: usize) -> nat {
    class_from(max_nat(size as nat, align as nat), 0)
}

/// The least multiple of `c` that is not below `n`.
pub open spec fn align_up(n: nat, c: nat) -> nat {
    if n % c == 0 {
        n
    } else {
        (n + c - n % c) as nat
    }
}

/// Whether the untouched part of `r` holds a block of `c` bytes aligned to `c`.
pub open spec fn region_fits(r: Region, c: nat) -> bool {
    align_up(r.next as nat, c) + c <= r.end
}

/// The first region from index `from` on that holds a block of `c` bytes aligned to `c`.
pub open spec fn first_fit(regions: Seq<Region>, c: nat, from: nat) -> Option<nat>
    decreases regions.len() - from,
{
    if from >= regions.len() {
        None
    } else if region_fits(regions[from as int], c) {
        Some(from)
    } else {
        first_fit(regions, c, from + 1)
    }
}

/// The first index from `from` on at which `live` holds `b`.
pub open spec fn find_live(live: Seq<Block>, b: Block, from: nat) -> Option<nat>
    decreases live.len() - from,
{
    if from >= live.len() {
        None
    } else if live[from as int] == b {
        Some(from)
    } else {
        find_live(live, b, from + 1)
    }
}

/// The number of bytes of a region.
pub open spec fn capacity(r: Region) -> nat {
    (r.end - r.start) as nat
}

/// Where a region of `cap` bytes goes among `regions`: before the first smaller one.
pub open spec fn insert_position(regions: Seq<Region>, cap: nat, from: nat) -> nat
    decreases regions.len() - from,
{
    if from >= regions.len() {
        regions.len()
    } else if capacity(regions[from as int]) < cap {
        from
    } else {
        insert_position(regions, cap, from + 1)
    }
}

/// Whether two byte ranges `[a1, a1 + s1)` and `[a2, a2 + s2)` have nothing in common.
pub open spec fn ranges_disjoint(a1: nat, s1: nat, a2: nat, s2: nat) -> bool {
    a1 + s1 <= a2 || a2 + s2 <= a1
}

/// Whether a block of class `k` at `addr` is aligned to its size and lies in the carved part of region `i`.
pub open spec fn block_in_region(r: Region, addr: u64, k: nat) -> bool {
    &&& addr as nat % pow2(k) == 0
    &&& r.start <= addr
    &&& addr + pow2(k) <= r.next
}

/// Whether a block of class `k` at `addr` is aligned to its size and lies in the carved part of a region.
pub open spec fn block_valid(regions: Seq<Region>, addr: u64, k: nat) -> bool {
    &&& k < NUM_CLASSES
    &&& exists|i: int| 0 <= i < regions.len() && #[trigger] block_in_region(regions[i], addr, k)
}

impl HeapModel {
    /// A heap without memory.
    pub open spec fn empty() -> HeapModel {
        HeapModel {
            regions: Seq::empty(),
            free: Seq::new(NUM_CLASSES as nat, |k: int| Seq::<u64>::empty()),
            live: Seq::empty(),
        }
    }

    /// The state's invariant: regions apart from each other, none of them at
    /// address 0, every block aligned and inside the carved part of a region, and
    /// no two blocks overlapping.
    pub open spec fn wf(self) -> bool {
        &&& self.free.len() == NUM_CLASSES
        &&& forall|i: int|
            0 <= i < self.regions.len() ==> 0 < (#[trigger] self.regions[i]).start
                <= self.regions[i].next <= self.regions[i].end
        &&& forall|i: int, j: int|
            0 <= i < self.regions.len() && 0 <= j < self.regions.len() && i != j
                ==> ranges_disjoint(
                (#[trigger] self.regions[i]).start as nat,
                capacity(self.regions[i]),
                (#[trigger] self.regions[j]).start as nat,
                capacity(self.regions[j]),
            )
        &&& forall|k: int, i: int|
            0 <= k < NUM_CLASSES && 0 <= i < self.free[k].len() ==> block_valid(
                self.regions,
                #[trigger] self.free[k][i],
                k as nat,
            )
        &&& forall|i: int|
            0 <= i < self.live.len() ==> block_valid(
                self.regions,
                (#[trigger] self.live[i]).addr,
                self.live[i].class as nat,
            )
        &&& forall|k1: int, i1: int, k2: int, i2: int|
            0 <= k1 < NUM_CLASSES && 0 <= i1 < self.free[k1].len() && 0 <= k2 < NUM_CLASSES && 0
                <= i2 < self.free[k2].len() && (k1 != k2 || i1 != i2) ==> ranges_disjoint(
                (#[trigger] self.free[k1][i1]) as nat,
                pow2(k1 as nat),
                (#[trigger] self.free[k2][i2]) as nat,
                pow2(k2 as nat),
            )
        &&& forall|k: int, i: int, j: int|
            0 <= k < NUM_CLASSES && 0 <= i < self.free[k].len() && 0 <= j < self.live.len()
                ==> ranges_disjoint(
                (#[trigger] self.free[k][i]) as nat,
                pow2(k as nat),
                (#[trigger] self.live[j]).addr as nat,
                pow2(self.live[j].class as nat),
            )
        &&& forall|i: int, j: int|
            0 <= i < self.live.len() && 0 <= j < self.live.len() && i != j ==> ranges_disjoint(
                (#[trigger] self.live[i]).addr as nat,
                pow2(self.live[i].class as nat),
                (#[trigger] self.live[j]).addr as nat,
                pow2(self.live[j].class as nat),
            )
    }

    /// Whether `[addr, addr + size)` overlaps no block that is handed out.
    pub open spec fn apart_from_live(self, addr: nat, size: nat) -> bool {
        forall|j: int|
            0 <= j < self.live.len() ==> ranges_disjoint(
                addr,
                size,
                (#[trigger] self.live[j]).addr as nat,
                pow2(self.live[j].class as nat),
            )
    }

    /// The heap with a block of class `k` at `p` handed out from the free list of the class.
    pub open spec fn take_free(self, k: nat) -> HeapModel {
        HeapModel {
            regions: self.regions,
            free: self.free.update(k as int, self.free[k as int].drop_last()),
            live: self.live.push(Block { addr: self.free[k as int].last(), class: k as usize }),
        }
    }

    /// The heap with a block of class `k` carved from region `i`.
    pub open spec fn carve(self, i: nat, k: nat) -> HeapModel {
        let r = self.regions[i as int];
        let p = align_up(r.next as nat, pow2(k));
        HeapModel {
            regions: self.regions.update(
                i as int,
                Region { start: r.start, end: r.end, next: (p + pow2(k)) as u64 },
            ),
            free: self.free,
            live: self.live.push(Block { addr: p as u64, class: k as usize }),
        }
    }

    /// What an allocation of `size` bytes aligned to `align` returns, and the heap after it.
    ///
    /// `Misaligned` if `align` is no power of two. `OutOfMemory` if no class is large
    /// enough, or the class has no free block and no region has room. Otherwise the
    /// block freed last in the class, or else a block carved from the first region
    /// with room.
    pub open spec fn allocate(self, size: usize, align: usize) -> (Result<u64, Error>, HeapModel) {
        let k = class_of(size, align);
        if !is_pow2(align as int) {
            (Err(Error::Misaligned), self)
        } else if k >= NUM_CLASSES {
            (Err(Error::OutOfMemory), self)
        } else if self.free[k as int].len() > 0 {
            (Ok(self.free[k as int].last()), self.take_free(k))
        } else {
            match first_fit(self.regions, pow2(k), 0) {
                Some(i) => (
                    Ok(align_up(self.regions[i as int].next as nat, pow2(k)) as u64),
                    self.carve(i, k),
                ),
                None => (Err(Error::OutOfMemory), self),
            }
        }
    }

    /// Whether a release of the block at `ptr` with this size and alignment is accepted,
    /// and the heap after it: the block leaves the live blocks and becomes the first
    /// free block of its class. A release that names no live block changes nothing.
    pub open spec fn release(self, ptr: u64, size: usize, align: usize) -> (bool, HeapModel) {
        let k = class_of(size, align);
        if !is_pow2(align as int) || k >= NUM_CLASSES {
            (false, self)
        } else {
            match find_live(self.live, Block { addr: ptr, class: k as usize }, 0) {
                Some(i) => (
                    true,
                    HeapModel {
                        regions: self.regions,
                        free: self.free.update(k as int, self.free[k as int].push(ptr)),
                        live: self.live.remove(i as int),
                    },
                ),
                None => (false, self),
            }
        }
    }

    /// Whether `[start, end)` is not empty, does not hold address 0, and is apart
    /// from every region.
    pub open spec fn accepts_region(self, start: u64, end: u64) -> bool {
        &&& 0 < start < end
        &&& forall|i: int|
            0 <= i < self.regions.len() ==> ranges_disjoint(
                start as nat,
                (end - start) as nat,
                (#[trigger] self.regions[i]).start as nat,
                capacity(self.regions[i]),
            )
    }

    /// Whether `[start, end)` is taken as a region, and the heap after it. The regions
    /// stay ordered by size, largest first; among equals the earlier one comes first.
    pub open spec fn add_region(self, start: u64, end: u64) -> (bool, HeapModel) {
        if self.accepts_region(start, end) {
            (
                true,
                HeapModel {
                    regions: self.regions.insert(
                        insert_position(self.regions, (end - start) as nat, 0) as int,
                        Region { start, end, next: start },
                    ),
                    free: self.free,
                    live: self.live,
                },
            )
        } else {
            (false, self)
        }
    }
}


/// A class that `class_from` finds below `NUM_CLASSES` holds the request, and no smaller class from `k` on does.
pub proof fn lemma_class_from(need: nat, k: nat)
    ensures
        k <= class_from(need, k) || k > NUM_CLASSES,
        class_from(need, k) < NUM_CLASSES ==> pow2(class_from(need, k)) >= need,
        k <= NUM_CLASSES ==> class_from(need, k) <= NUM_CLASSES,
        forall|j: nat| k <= j < class_from(need, k) ==> pow2(j) < need,
    decreases NUM_CLASSES - k,
{
    if k >= NUM_CLASSES || pow2(k) >= need {
    } else {
        lemma_class_from(need, k + 1);
    }
}

/// Rounding up to a multiple of `c` gives a multiple of `c` less than `c` above the number.
pub proof fn lemma_align_up(n: nat, c: nat)
    requires
        c > 0,
    ensures
        n <= align_up(n, c) < n + c,
        align_up(n, c) % c == 0,
{
    if n % c != 0 {
        vstd::arithmetic::div_mod::lemma_fundamental_div_mod(n as int, c as int);
        vstd::arithmetic::div_mod::lemma_mod_bound(n as int, c as int);
        let q = n as int / c as int;
        assert(n + c - n % c == c * (q + 1)) by (nonlinear_arith)
            requires
                n == c * q + n % c,
        ;
        vstd::arithmetic::div_mod::lemma_mod_multiples_basic(q + 1, c as int);
        assert((q + 1) * c == c * (q + 1)) by (nonlinear_arith);
    }
}

/// An address aligned to a power of two is aligned to every smaller power of two.
pub proof fn lemma_aligned_to_smaller(p: nat, k: nat, align: nat)
    requires
        p % pow2(k) == 0,
        is_pow2(align as int),
        align <= pow2(k),
    ensures
        p % align == 0,
{
    vstd::arithmetic::power2::is_pow2_equiv(align as int);
    let j = choose|j: nat| vstd::arithmetic::power::pow(2, j) == align as int;
    assert(pow2(j) == align);
    vstd::arithmetic::power2::lemma_pow2_pos(j);
    vstd::arithmetic::power2::lemma_pow2_pos(k);
    if j > k {
        vstd::arithmetic::power2::lemma_pow2_strictly_increases(k, j);
    }
    vstd::arithmetic::power2::lemma_pow2_adds(j, (k - j) as nat);
    let c = pow2(k) as int;
    let a = align as int;
    let m = pow2((k - j) as nat) as int;
    assert(c == a * m);
    vstd::arithmetic::div_mod::lemma_fundamental_div_mod(p as int, c);
    let q = p as int / c;
    assert(p == (q * m) * a) by (nonlinear_arith)
        requires
            p == c * q,
            c == a * m,
    ;
    vstd::arithmetic::div_mod::lemma_mod_multiples_basic(q * m, a);
}

/// What `first_fit` finds is a region with room, and no earlier region from `from` on has room.
pub proof fn lemma_first_fit(regions: Seq<Region>, c: nat, from: nat)
    ensures
        match first_fit(regions, c, from) {
            Some(i) => from <= i < regions.len() && region_fits(regions[i as int], c) && forall|
                j: int,
            | from <= j < i ==> !region_fits(#[trigger] regions[j], c),
            None => forall|j: int| from <= j < regions.len() ==> !region_fits(#[trigger] regions[j], c),
        },
    decreases regions.len() - from,
{
    if from < regions.len() && !region_fits(regions[from as int], c) {
        lemma_first_fit(regions, c, from + 1);
    }
}

/// What `find_live` finds is the first index from `from` on that holds the block.
pub proof fn lemma_find_live(live: Seq<Block>, b: Block, from: nat)
    ensures
        match find_live(live, b, from) {
            Some(i) => from <= i < live.len() && live[i as int] == b && forall|j: int|
                from <= j < i ==> #[trigger] live[j] != b,
            None => forall|j: int| from <= j < live.len() ==> #[trigger] live[j] != b,
        },
    decreases live.len() - from,
{
    if from < live.len() && live[from as int] != b {
        lemma_find_live(live, b, from + 1);
    }
}

/// Where `insert_position` points lies within the sequence.
pub proof fn lemma_insert_position(regions: Seq<Region>, cap: nat, from: nat)
    requires
        from <= regions.len(),
    ensures
        from <= insert_position(regions, cap, from) <= regions.len(),
    decreases regions.len() - from,
{
    if from < regions.len() && capacity(regions[from as int]) >= cap {
        lemma_insert_position(regions, cap, from + 1);
    }
}

impl HeapModel {
    /// Handing out the block freed last in a class keeps the heap well formed.
    proof fn lemma_take_free_wf(self, k: nat)
        requires
            self.wf(),
            k < NUM_CLASSES,
            self.free[k as int].len() > 0,
        ensures
            self.take_free(k).wf(),
            self.apart_from_live(self.free[k as int].last() as nat, pow2(k)),
            self.free[k as int].last() as nat % pow2(k) == 0,
    {
        let after = self.take_free(k);
        let last = self.free[k as int].len() - 1;
        let p = self.free[k as int][last];
        assert(block_valid(self.regions, p, k));
        assert forall|k1: int, i1: int| 0 <= k1 < NUM_CLASSES && 0 <= i1 < after.free[k1].len() implies after.free[k1][i1]
            == self.free[k1][i1] && i1 < self.free[k1].len() && (k1 == k ==> i1 != last) by {}
        assert forall|j: int| 0 <= j < self.live.len() implies ranges_disjoint(
            p as nat,
            pow2(k),
            (#[trigger] self.live[j]).addr as nat,
            pow2(self.live[j].class as nat),
        ) by {
            assert(ranges_disjoint(
                self.free[k as int][last] as nat,
                pow2(k),
                self.live[j].addr as nat,
                pow2(self.live[j].class as nat),
            ));
        }
        assert forall|i: int| 0 <= i < after.live.len() implies block_valid(
            after.regions,
            (#[trigger] after.live[i]).addr,
            after.live[i].class as nat,
        ) by {
            if i < self.live.len() {
                assert(after.live[i] == self.live[i]);
            }
        }
        assert forall|k1: int, i1: int, j: int|
            0 <= k1 < NUM_CLASSES && 0 <= i1 < after.free[k1].len() && 0 <= j
                < after.live.len() implies ranges_disjoint(
            (#[trigger] after.free[k1][i1]) as nat,
            pow2(k1 as nat),
            (#[trigger] after.live[j]).addr as nat,
            pow2(after.live[j].class as nat),
        ) by {
            assert(after.free[k1][i1] == self.free[k1][i1]);
            if j < self.live.len() {
                assert(after.live[j] == self.live[j]);
            } else {
                assert(ranges_disjoint(
                    self.free[k1][i1] as nat,
                    pow2(k1 as nat),
                    self.free[k as int][last] as nat,
                    pow2(k),
                ));
            }
        }
        assert forall|i: int, j: int|
            0 <= i < after.live.len() && 0 <= j < after.live.len() && i != j implies ranges_disjoint(
            (#[trigger] after.live[i]).addr as nat,
            pow2(after.live[i].class as nat),
            (#[trigger] after.live[j]).addr as nat,
            pow2(after.live[j].class as nat),
        ) by {
            if i < self.live.len() && j < self.live.len() {
                assert(after.live[i] == self.live[i]);
                assert(after.live[j] == self.live[j]);
            } else if i < self.live.len() {
                assert(after.live[i] == self.live[i]);
                assert(ranges_disjoint(
                    self.free[k as int][last] as nat,
                    pow2(k),
                    self.live[i].addr as nat,
                    pow2(self.live[i].class as nat),
                ));
            } else {
                assert(after.live[j] == self.live[j]);
                assert(ranges_disjoint(
                    self.free[k as int][last] as nat,
                    pow2(k),
                    self.live[j].addr as nat,
                    pow2(self.live[j].class as nat),
                ));
            }
        }
        assert forall|k1: int, i1: int, k2: int, i2: int|
            0 <= k1 < NUM_CLASSES && 0 <= i1 < after.free[k1].len() && 0 <= k2 < NUM_CLASSES && 0
                <= i2 < after.free[k2].len() && (k1 != k2 || i1 != i2) implies ranges_disjoint(
            (#[trigger] after.free[k1][i1]) as nat,
            pow2(k1 as nat),
            (#[trigger] after.free[k2][i2]) as nat,
            pow2(k2 as nat),
        ) by {
            assert(after.free[k1][i1] == self.free[k1][i1]);
            assert(after.free[k2][i2] == self.free[k2][i2]);
        }
        assert forall|k1: int, i1: int|
            0 <= k1 < NUM_CLASSES && 0 <= i1 < after.free[k1].len() implies block_valid(
            after.regions,
            #[trigger] after.free[k1][i1],
            k1 as nat,
        ) by {
            assert(after.free[k1][i1] == self.free[k1][i1]);
        }
    }
}


impl HeapModel {
    /// Carving a block from a region with room keeps the heap well formed, and the
    /// block overlaps no block that existed before.
    proof fn lemma_carve_wf(self, i: nat, k: nat)
        requires
            self.wf(),
            k < NUM_CLASSES,
            i < self.regions.len(),
            region_fits(self.regions[i as int], pow2(k)),
        ensures
            self.carve(i, k).wf(),
            self.apart_from_live(align_up(self.regions[i as int].next as nat, pow2(k)), pow2(k)),
            align_up(self.regions[i as int].next as nat, pow2(k)) % pow2(k) == 0,
            align_up(self.regions[i as int].next as nat, pow2(k)) + pow2(k) <= u64::MAX,
    {
        let after = self.carve(i, k);
        let r = self.regions[i as int];
        let c = pow2(k);
        vstd::arithmetic::power2::lemma_pow2_pos(k);
        lemma_align_up(r.next as nat, c);
        let p = align_up(r.next as nat, c);
        let nr = after.regions[i as int];
        assert(nr.start == r.start && nr.end == r.end && nr.next == p + c);
        assert forall|j: int| 0 <= j < after.regions.len() implies (#[trigger] after.regions[j]).start
            == self.regions[j].start && after.regions[j].end == self.regions[j].end
            && self.regions[j].next <= after.regions[j].next <= after.regions[j].end by {}
        // every block that existed before stays valid, and lies apart from the new one
        assert forall|addr: u64, kk: nat| block_valid(self.regions, addr, kk) implies block_valid(
            after.regions,
            addr,
            kk,
        ) && ranges_disjoint(p, c, addr as nat, pow2(kk)) by {
            let j = choose|j: int|
                0 <= j < self.regions.len() && #[trigger] block_in_region(self.regions[j], addr, kk);
            assert(block_in_region(after.regions[j], addr, kk));
            if j != i {
                assert(ranges_disjoint(
                    self.regions[i as int].start as nat,
                    capacity(self.regions[i as int]),
                    self.regions[j].start as nat,
                    capacity(self.regions[j]),
                ));
            }
        }
        assert(block_in_region(after.regions[i as int], p as u64, k));
        assert(block_valid(after.regions, p as u64, k));
        assert forall|j: int| 0 <= j < self.live.len() implies ranges_disjoint(
            p,
            c,
            (#[trigger] self.live[j]).addr as nat,
            pow2(self.live[j].class as nat),
        ) by {
            assert(block_valid(self.regions, self.live[j].addr, self.live[j].class as nat));
        }
        assert forall|j: int| 0 <= j < after.live.len() implies block_valid(
            after.regions,
            (#[trigger] after.live[j]).addr,
            after.live[j].class as nat,
        ) by {
            if j < self.live.len() {
                assert(after.live[j] == self.live[j]);
                assert(block_valid(self.regions, self.live[j].addr, self.live[j].class as nat));
            }
        }
        assert forall|k1: int, i1: int|
            0 <= k1 < NUM_CLASSES && 0 <= i1 < after.free[k1].len() implies block_valid(
            after.regions,
            #[trigger] after.free[k1][i1],
            k1 as nat,
        ) by {
            assert(block_valid(self.regions, self.free[k1][i1], k1 as nat));
        }
        assert forall|k1: int, i1: int, j: int|
            0 <= k1 < NUM_CLASSES && 0 <= i1 < after.free[k1].len() && 0 <= j
                < after.live.len() implies ranges_disjoint(
            (#[trigger] after.free[k1][i1]) as nat,
            pow2(k1 as nat),
            (#[trigger] after.live[j]).addr as nat,
            pow2(after.live[j].class as nat),
        ) by {
            if j < self.live.len() {
                assert(after.live[j] == self.live[j]);
            } else {
                assert(block_valid(self.regions, self.free[k1][i1], k1 as nat));
            }
        }
        assert forall|a: int, b: int|
            0 <= a < after.live.len() && 0 <= b < after.live.len() && a != b implies ranges_disjoint(
            (#[trigger] after.live[a]).addr as nat,
            pow2(after.live[a].class as nat),
            (#[trigger] after.live[b]).addr as nat,
            pow2(after.live[b].class as nat),
        ) by {
            if a < self.live.len() {
                assert(after.live[a] == self.live[a]);
                assert(block_valid(self.regions, self.live[a].addr, self.live[a].class as nat));
            }
            if b < self.live.len() {
                assert(after.live[b] == self.live[b]);
                assert(block_valid(self.regions, self.live[b].addr, self.live[b].class as nat));
            }
        }
        assert forall|a: int, b: int|
            0 <= a < after.regions.len() && 0 <= b < after.regions.len() && a != b implies ranges_disjoint(
            (#[trigger] after.regions[a]).start as nat,
            capacity(after.regions[a]),
            (#[trigger] after.regions[b]).start as nat,
            capacity(after.regions[b]),
        ) by {
            assert(ranges_disjoint(
                self.regions[a].start as nat,
                capacity(self.regions[a]),
                self.regions[b].start as nat,
                capacity(self.regions[b]),
            ));
        }
    }

    /// Taking back a live block keeps the heap well formed.
    proof fn lemma_release_wf(self, i: nat, k: nat)
        requires
            self.wf(),
            i < self.live.len(),
            self.live[i as int].class == k,
        ensures
            k < NUM_CLASSES,
            (HeapModel {
                regions: self.regions,
                free: self.free.update(k as int, self.free[k as int].push(self.live[i as int].addr)),
                live: self.live.remove(i as int),
            }).wf(),
    {
        let b = self.live[i as int];
        let after = HeapModel {
            regions: self.regions,
            free: self.free.update(k as int, self.free[k as int].push(b.addr)),
            live: self.live.remove(i as int),
        };
        assert(block_valid(self.regions, b.addr, k));
        let n = self.free[k as int].len() as int;
        assert forall|j: int| 0 <= j < after.live.len() implies #[trigger] after.live[j] == self.live[if j
            < i {
            j
        } else {
            j + 1
        }] by {}
        assert forall|k1: int, i1: int|
            0 <= k1 < NUM_CLASSES && 0 <= i1 < after.free[k1].len() implies block_valid(
            after.regions,
            #[trigger] after.free[k1][i1],
            k1 as nat,
        ) by {
            if k1 == k && i1 == n {
            } else {
                assert(after.free[k1][i1] == self.free[k1][i1]);
            }
        }
        assert forall|j: int| 0 <= j < after.live.len() implies block_valid(
            after.regions,
            (#[trigger] after.live[j]).addr,
            after.live[j].class as nat,
        ) by {
            let jj = if j < i { j } else { j + 1 };
            assert(after.live[j] == self.live[jj]);
        }
        assert forall|k1: int, i1: int, j: int|
            0 <= k1 < NUM_CLASSES && 0 <= i1 < after.free[k1].len() && 0 <= j
                < after.live.len() implies ranges_disjoint(
            (#[trigger] after.free[k1][i1]) as nat,
            pow2(k1 as nat),
            (#[trigger] after.live[j]).addr as nat,
            pow2(after.live[j].class as nat),
        ) by {
            let jj = if j < i { j } else { j + 1 };
            assert(after.live[j] == self.live[jj]);
            if k1 == k && i1 == n {
                assert(ranges_disjoint(
                    self.live[i as int].addr as nat,
                    pow2(self.live[i as int].class as nat),
                    self.live[jj].addr as nat,
                    pow2(self.live[jj].class as nat),
                ));
            } else {
                assert(after.free[k1][i1] == self.free[k1][i1]);
            }
        }
        assert forall|a: int, c: int|
            0 <= a < after.live.len() && 0 <= c < after.live.len() && a != c implies ranges_disjoint(
            (#[trigger] after.live[a]).addr as nat,
            pow2(after.live[a].class as nat),
            (#[trigger] after.live[c]).addr as nat,
            pow2(after.live[c].class as nat),
        ) by {
            let aa = if a < i { a } else { a + 1 };
            let cc = if c < i { c } else { c + 1 };
            assert(after.live[a] == self.live[aa]);
            assert(after.live[c] == self.live[cc]);
        }
        assert forall|k1: int, i1: int, k2: int, i2: int|
            0 <= k1 < NUM_CLASSES && 0 <= i1 < after.free[k1].len() && 0 <= k2 < NUM_CLASSES && 0
                <= i2 < after.free[k2].len() && (k1 != k2 || i1 != i2) implies ranges_disjoint(
            (#[trigger] after.free[k1][i1]) as nat,
            pow2(k1 as nat),
            (#[trigger] after.free[k2][i2]) as nat,
            pow2(k2 as nat),
        ) by {
            if k1 == k && i1 == n {
                assert(after.free[k2][i2] == self.free[k2][i2]);
                assert(ranges_disjoint(
                    self.free[k2][i2] as nat,
                    pow2(k2 as nat),
                    self.live[i as int].addr as nat,
                    pow2(self.live[i as int].class as nat),
                ));
            } else if k2 == k && i2 == n {
                assert(after.free[k1][i1] == self.free[k1][i1]);
                assert(ranges_disjoint(
                    self.free[k1][i1] as nat,
                    pow2(k1 as nat),
                    self.live[i as int].addr as nat,
                    pow2(self.live[i as int].class as nat),
                ));
            } else {
                assert(after.free[k1][i1] == self.free[k1][i1]);
                assert(after.free[k2][i2] == self.free[k2][i2]);
            }
        }
    }

    /// Taking a region that lies apart from the others keeps the heap well formed.
    proof fn lemma_add_region_wf(self, start: u64, end: u64)
        requires
            self.wf(),
        ensures
            self.add_region(start, end).1.wf(),
    {
        if self.accepts_region(start, end) {
            let after = self.add_region(start, end).1;
            let pos = insert_position(self.regions, (end - start) as nat, 0) as int;
            lemma_insert_position(self.regions, (end - start) as nat, 0);
            let r = Region { start, end, next: start };
            assert forall|j: int| 0 <= j < self.regions.len() implies #[trigger] self.regions[j]
                == after.regions[if j < pos {
                j
            } else {
                j + 1
            }] by {}
            assert forall|addr: u64, kk: nat| block_valid(self.regions, addr, kk) implies block_valid(
                after.regions,
                addr,
                kk,
            ) by {
                let j = choose|j: int|
                    0 <= j < self.regions.len() && #[trigger] block_in_region(self.regions[j], addr, kk);
                let jj = if j < pos { j } else { j + 1 };
                assert(self.regions[j] == after.regions[jj]);
                assert(block_in_region(after.regions[jj], addr, kk));
            }
            assert forall|k1: int, i1: int|
                0 <= k1 < NUM_CLASSES && 0 <= i1 < after.free[k1].len() implies block_valid(
                after.regions,
                #[trigger] after.free[k1][i1],
                k1 as nat,
            ) by {
                assert(block_valid(self.regions, self.free[k1][i1], k1 as nat));
            }
            assert forall|j: int| 0 <= j < after.live.len() implies block_valid(
                after.regions,
                (#[trigger] after.live[j]).addr,
                after.live[j].class as nat,
            ) by {
                assert(block_valid(self.regions, self.live[j].addr, self.live[j].class as nat));
            }
            assert forall|j: int| 0 <= j < after.regions.len() implies (#[trigger] after.regions[j]).start
                <= after.regions[j].next <= after.regions[j].end by {
                if j < pos {
                    assert(after.regions[j] == self.regions[j]);
                } else if j > pos {
                    assert(after.regions[j] == self.regions[j - 1]);
                }
            }
            assert forall|a: int, b: int|
                0 <= a < after.regions.len() && 0 <= b < after.regions.len() && a != b implies ranges_disjoint(
                (#[trigger] after.regions[a]).start as nat,
                capacity(after.regions[a]),
                (#[trigger] after.regions[b]).start as nat,
                capacity(after.regions[b]),
            ) by {
                let aa = if a < pos { a } else { a - 1 };
                let bb = if b < pos { b } else { b - 1 };
                if a != pos {
                    assert(after.regions[a] == self.regions[aa]);
                }
                if b != pos {
                    assert(after.regions[b] == self.regions[bb]);
                }
            }
        }
    }

    /// An allocation keeps the heap well formed. The block it returns is not at
    /// address 0, is aligned as asked, holds the bytes asked for, and overlaps no
    /// block that was handed out
    /// before and has not been released. A failed allocation changes nothing.
    pub proof fn lemma_allocate(self, size: usize, align: usize)
        requires
            self.wf(),
        ensures
            self.allocate(size, align).1.wf(),
            match self.allocate(size, align).0 {
                Ok(p) => {
                    &&& p != 0
                    &&& p as nat % (align as nat) == 0
                    &&& p + size <= u64::MAX
                    &&& self.apart_from_live(p as nat, size as nat)
                    &&& self.allocate(size, align).1.live == self.live.push(
                        Block { addr: p, class: class_of(size, align) as usize },
                    )
                    &&& class_of(size, align) < NUM_CLASSES
                    &&& size <= pow2(class_of(size, align))
                    &&& p as nat % pow2(class_of(size, align)) == 0
                },
                Err(e) => {
                    &&& self.allocate(size, align).1 == self
                    &&& e == Error::Misaligned <==> !is_pow2(align as int)
                    &&& e == Error::Misaligned || e == Error::OutOfMemory
                },
            },
    {
        let k = class_of(size, align);
        lemma_class_from(max_nat(size as nat, align as nat), 0);
        if is_pow2(align as int) && k < NUM_CLASSES {
            let c = pow2(k);
            if self.free[k as int].len() > 0 {
                self.lemma_take_free_wf(k);
                let p = self.free[k as int].last();
                lemma_aligned_to_smaller(p as nat, k, align as nat);
                assert(block_valid(self.regions, p, k));
                let j = choose|j: int|
                    0 <= j < self.regions.len() && #[trigger] block_in_region(self.regions[j], p, k);
                assert(0 < self.regions[j].start <= p);
            } else {
                lemma_first_fit(self.regions, c, 0);
                match first_fit(self.regions, c, 0) {
                    Some(i) => {
                        self.lemma_carve_wf(i, k);
                        let p = align_up(self.regions[i as int].next as nat, c);
                        lemma_aligned_to_smaller(p, k, align as nat);
                        vstd::arithmetic::power2::lemma_pow2_pos(k);
                        lemma_align_up(self.regions[i as int].next as nat, c);
                        assert(0 < self.regions[i as int].start <= self.regions[i as int].next);
                    },
                    None => {},
                }
            }
        }
    }

    /// Releasing keeps the heap well formed. It is accepted exactly when the block is
    /// live under the class of the given size and alignment; a refused release changes nothing.
    pub proof fn lemma_release(self, ptr: u64, size: usize, align: usize)
        requires
            self.wf(),
        ensures
            self.release(ptr, size, align).1.wf(),
            self.release(ptr, size, align).0 <==> is_pow2(align as int) && self.live.contains(
                Block { addr: ptr, class: class_of(size, align) as usize },
            ),
            !self.release(ptr, size, align).0 ==> self.release(ptr, size, align).1 == self,
    {
        let k = class_of(size, align);
        lemma_class_from(max_nat(size as nat, align as nat), 0);
        let b = Block { addr: ptr, class: k as usize };
        lemma_find_live(self.live, b, 0);
        if is_pow2(align as int) && k < NUM_CLASSES {
            match find_live(self.live, b, 0) {
                Some(i) => {
                    self.lemma_release_wf(i, k);
                    assert(self.live[i as int] == b);
                },
                None => {},
            }
        } else if self.live.contains(b) {
            let j = choose|j: int| 0 <= j < self.live.len() && self.live[j] == b;
            assert(block_valid(self.regions, self.live[j].addr, self.live[j].class as nat));
        }
    }

    /// A block that is released at once is the one the same request gets next; and
    /// where the block came from the free list, releasing it restores the heap as it
    /// was before the allocation.
    pub proof fn lemma_release_undoes_allocate(self, size: usize, align: usize)
        requires
            self.wf(),
            self.allocate(size, align).0 is Ok,
        ensures
            ({
                let p = self.allocate(size, align).0->Ok_0;
                let allocated = self.allocate(size, align).1;
                let released = allocated.release(p, size, align);
                &&& released.0
                &&& released.1.allocate(size, align).0 == Ok::<u64, Error>(p)
                &&& released.1.live == self.live
                &&& self.free[class_of(size, align) as int].len() > 0 ==> released.1 == self
            }),
    {
        let k = class_of(size, align);
        let p = self.allocate(size, align).0->Ok_0;
        let allocated = self.allocate(size, align).1;
        self.lemma_allocate(size, align);
        let b = Block { addr: p, class: k as usize };
        let n = self.live.len();
        assert(allocated.live == self.live.push(b));
        lemma_find_live(allocated.live, b, 0);
        vstd::arithmetic::power2::lemma_pow2_pos(k);
        assert(find_live(allocated.live, b, 0) == Some(n)) by {
            let i = find_live(allocated.live, b, 0)->Some_0;
            assert(allocated.live[n as int] == b);
            if i < n {
                assert(allocated.live[i as int] == self.live[i as int]);
                assert(ranges_disjoint(
                    p as nat,
                    pow2(k),
                    self.live[i as int].addr as nat,
                    pow2(self.live[i as int].class as nat),
                )) by {
                    if self.free[k as int].len() > 0 {
                        self.lemma_take_free_wf(k);
                    } else {
                        lemma_first_fit(self.regions, pow2(k), 0);
                        self.lemma_carve_wf(first_fit(self.regions, pow2(k), 0)->Some_0, k);
                    }
                }
            }
        }
        let released = allocated.release(p, size, align).1;
        assert(released.live =~= self.live);
        assert(released.free[k as int].last() == p);
        if self.free[k as int].len() > 0 {
            assert(released.free[k as int] =~= self.free[k as int]);
            assert(released.free =~= self.free);
        }
    }
}


/// Where the next block of an arena goes. The arena lies at `base` and has
/// `capacity` bytes, of which the first `used` are taken; blocks are handed out
/// front to back. The block starts at the first multiple of `align` that is
/// free, and the result is its address and the bytes that are taken after it;
/// `None` if `align` is zero, if the block does not fit, or if the arena does
/// not end within the address space.
pub open spec fn spec_bump(base: usize, used: usize, capacity: usize, size: usize, align: usize) -> Option<
    (usize, usize),
> {
    if align == 0 || used > capacity || base + capacity > usize::MAX {
        None
    } else if align_up((base + used) as nat, align as nat) + size <= base + capacity {
        Some(
            (
                align_up((base + used) as nat, align as nat) as usize,
                (align_up((base + used) as nat, align as nat) + size - base) as usize,
            ),
        )
    } else {
        None
    }
}

/// Places the next block of an arena that is handed out front to back.
pub fn bump(base: usize, used: usize, capacity: usize, size: usize, align: usize) -> (placed: Option<
    (usize, usize),
>)
    ensures
        placed == spec_bump(base, used, capacity, size, align),
        placed matches Some((start, taken)) ==> start as nat % align as nat == 0 && base + used <= start
            && start + size == base + taken && used <= taken <= capacity,
{
    if align == 0 || used > capacity {
        return None;
    }
    let end_of_arena: usize = match base.checked_add(capacity) {
        Some(end) => end,
        None => {
            return None;
        },
    };
    proof {
        lemma_align_up((base + used) as nat, align as nat);
    }
    let free: usize = base + used;
    let rem: usize = free % align;
    let pad: usize = if rem == 0 { 0 } else { align - rem };
    if end_of_arena - free < pad {
        return None;
    }
    let start: usize = free + pad;
    if end_of_arena - start < size {
        return None;
    }
    Some((start, start + size - base))
}

/// The heap allocator.
pub struct Allocator {
    regions: Vec<Region>,
    free: Vec<Vec<u64>>,
    live: Vec<Block>,
}

impl View for Allocator {
    type V = HeapModel;

    closed spec fn view(&self) -> HeapModel {
        HeapModel {
            regions: self.regions@,
            free: Seq::new(self.free@.len(), |k: int| self.free@[k]@),
            live: self.live@,
        }
    }
}

/// Whether `align` is a power of two.
pub fn is_power_of_two(align: usize) -> (r: bool)
    ensures
        r == is_pow2(align as int),
{
    let mut rest: usize = align;
    while rest > 1 && rest % 2 == 0
        invariant
            is_pow2(rest as int) == is_pow2(align as int),
        decreases rest,
    {
        proof {
            reveal(is_pow2);
        }
        rest = rest / 2;
    }
    proof {
        reveal(is_pow2);
    }
    rest == 1
}

/// The size class for `need` bytes, and the size of its blocks.
pub fn size_class(need: usize) -> (r: (usize, u64))
    ensures
        r.0 == class_from(need as nat, 0),
        r.0 <= NUM_CLASSES,
        r.0 < NUM_CLASSES ==> r.1 == pow2(r.0 as nat),
{
    let mut k: usize = 0;
    let mut c: u64 = 1;
    proof {
        vstd::arithmetic::power2::lemma2_to64();
    }
    while k < NUM_CLASSES && c < need as u64
        invariant
            k <= NUM_CLASSES,
            c == pow2(k as nat),
            c <= 0x1_0000_0000_0000,
            class_from(need as nat, 0) == class_from(need as nat, k as nat),
        decreases NUM_CLASSES - k,
    {
        proof {
            vstd::arithmetic::power2::lemma_pow2_unfold((k + 1) as nat);
            if k + 1 < NUM_CLASSES {
                vstd::arithmetic::power2::lemma_pow2_strictly_increases((k + 1) as nat, 48);
            }
            vstd::arithmetic::power2::lemma2_to64_rest();
        }
        c = c * 2;
        k = k + 1;
    }
    (k, c)
}

impl Allocator {
    /// The allocator's invariant.
    pub open spec fn wf(&self) -> bool {
        self@.wf()
    }

    /// An allocator without memory.
    pub fn new() -> (heap: Allocator)
        ensures
            heap.wf(),
            heap@ == HeapModel::empty(),
    {
        let mut free: Vec<Vec<u64>> = Vec::new();
        let mut k: usize = 0;
        while k < NUM_CLASSES
            invariant
                k <= NUM_CLASSES,
                free@.len() == k,
                forall|j: int| 0 <= j < k ==> (#[trigger] free@[j])@ == Seq::<u64>::empty(),
            decreases NUM_CLASSES - k,
        {
            free.push(Vec::new());
            k = k + 1;
        }
        let heap = Allocator { regions: Vec::new(), free, live: Vec::new() };
        assert(heap@.free =~= HeapModel::empty().free);
        assert(heap@.regions =~= HeapModel::empty().regions);
        assert(heap@.live =~= HeapModel::empty().live);
        heap
    }

    /// Takes `[start, end)` as a region to allocate from, unless it is empty,
    /// starts at address 0, which no block may have, or overlaps a region taken
    /// before. Says whether it was taken.
    #[verifier::loop_isolation(false)]
    pub fn add_region(&mut self, start: u64, end: u64) -> (taken: bool)
        requires
            old(self).wf(),
        ensures
            final(self).wf(),
            (taken, final(self)@) == old(self)@.add_region(start, end),
    {
        proof {
            self@.lemma_add_region_wf(start, end);
        }
        if start == 0 || start >= end {
            return false;
        }
        let cap: u64 = end - start;
        let mut i: usize = 0;
        let mut pos: usize = self.regions.len();
        let mut found: bool = false;
        while i < self.regions.len()
            invariant
                i <= self.regions.len(),
                start < end,
                cap == end - start,
                *self == *old(self),
                forall|j: int|
                    0 <= j < i ==> ranges_disjoint(
                        start as nat,
                        (end - start) as nat,
                        (#[trigger] self.regions@[j]).start as nat,
                        capacity(self.regions@[j]),
                    ),
                forall|j: int|
                    0 <= j < self.regions.len() ==> (#[trigger] self.regions@[j]).start
                        <= self.regions@[j].end,
                !found ==> pos == self.regions.len() && insert_position(self.regions@, cap as nat, 0)
                    == insert_position(self.regions@, cap as nat, i as nat),
                found ==> pos == insert_position(self.regions@, cap as nat, 0) && pos < i,
            decreases self.regions.len() - i,
        {
            let r = self.regions[i];
            if !(end <= r.start || r.end <= start) {
                return false;
            }
            if !found && r.end - r.start < cap {
                pos = i;
                found = true;
            }
            i = i + 1;
        }
        self.regions.insert(pos, Region { start, end, next: start });
        assert(self@.free =~= old(self)@.free);
        true
    }

    /// Allocates `size` bytes aligned to `align` and returns the address of the block.
    ///
    /// `Misaligned` if `align` is no power of two; `OutOfMemory` if the request
    /// cannot be served. The block is never at address 0; it is aligned to
    /// `align`, holds `size` bytes and overlaps no other block that is handed out.
    #[verifier::loop_isolation(false)]
    pub fn alloc_with_options(&mut self, size: usize, align: usize) -> (r: Result<u64, Error>)
        requires
            old(self).wf(),
        ensures
            final(self).wf(),
            (r, final(self)@) == old(self)@.allocate(size, align),
            r matches Ok(p) ==> p != 0 && p as nat % (align as nat) == 0 && p + size <= u64::MAX
                && old(self)@.apart_from_live(p as nat, size as nat),
            r is Err ==> final(self)@ == old(self)@,
    {
        proof {
            self@.lemma_allocate(size, align);
            lemma_class_from(max_nat(size as nat, align as nat), 0);
        }
        if !is_power_of_two(align) {
            return Err(Error::Misaligned);
        }
        let need: usize = if size >= align { size } else { align };
        let (k, c) = size_class(need);
        if k >= NUM_CLASSES {
            return Err(Error::OutOfMemory);
        }
        assert(self.free@.len() == NUM_CLASSES) by {
            assert(self@.free.len() == NUM_CLASSES);
        }
        if self.free[k].len() > 0 {
            let p = self.free[k].pop().unwrap();
            self.live.push(Block { addr: p, class: k });
            assert(self@.free =~= old(self)@.take_free(k as nat).free);
            return Ok(p);
        }
        let mut i: usize = 0;
        while i < self.regions.len()
            invariant
                i <= self.regions.len(),
                *self == *old(self),
                self.wf(),
                k < NUM_CLASSES,
                c == pow2(k as nat),
                first_fit(self.regions@, c as nat, 0) == first_fit(self.regions@, c as nat, i as nat),
            decreases self.regions.len() - i,
        {
            let r = self.regions[i];
            proof {
                vstd::arithmetic::power2::lemma_pow2_pos(k as nat);
                lemma_align_up(r.next as nat, c as nat);
                assert(self@.regions[i as int] == r);
                vstd::arithmetic::power2::lemma_pow2_strictly_increases(k as nat, 48);
                vstd::arithmetic::power2::lemma2_to64_rest();
            }
            let rem: u64 = r.next % c;
            let pad: u64 = if rem == 0 { 0 } else { c - rem };
            if r.end - r.next >= pad && r.end - r.next - pad >= c {
                let p: u64 = r.next + pad;
                self.regions.set(i, Region { start: r.start, end: r.end, next: p + c });
                self.live.push(Block { addr: p, class: k });
                proof {
                    lemma_first_fit(old(self)@.regions, c as nat, i as nat);
                    assert(first_fit(old(self)@.regions, c as nat, i as nat) == Some(i as nat));
                    assert(self@.free =~= old(self)@.free);
                    assert(self@.regions =~= old(self)@.carve(i as nat, k as nat).regions);
                    assert(self@.live =~= old(self)@.carve(i as nat, k as nat).live);
                }
                return Ok(p);
            }
            i = i + 1;
        }
        Err(Error::OutOfMemory)
    }

    /// Returns the block at `ptr`, allocated with this size and alignment, to the
    /// free list of its class. Says whether it did: a release that names no block
    /// that is handed out changes nothing.
    #[verifier::loop_isolation(false)]
    pub fn dealloc(&mut self, ptr: u64, size: usize, align: usize) -> (released: bool)
        requires
            old(self).wf(),
        ensures
            final(self).wf(),
            (released, final(self)@) == old(self)@.release(ptr, size, align),
    {
        proof {
            self@.lemma_release(ptr, size, align);
        }
        if !is_power_of_two(align) {
            return false;
        }
        let need: usize = if size >= align { size } else { align };
        let (k, c) = size_class(need);
        if k >= NUM_CLASSES {
            return false;
        }
        let ghost b = Block { addr: ptr, class: k };
        assert(self.free@.len() == NUM_CLASSES) by {
            assert(self@.free.len() == NUM_CLASSES);
        }
        let mut i: usize = 0;
        while i < self.live.len()
            invariant
                i <= self.live.len(),
                *self == *old(self),
                b == (Block { addr: ptr, class: k }),
                find_live(self.live@, b, 0) == find_live(self.live@, b, i as nat),
            decreases self.live.len() - i,
        {
            let candidate = self.live[i];
            if candidate.addr == ptr && candidate.class == k {
                self.live.remove(i);
                self.free[k].push(ptr);
                proof {
                    lemma_find_live(old(self)@.live, b, i as nat);
                    assert(find_live(old(self)@.live, b, i as nat) == Some(i as nat));
                    assert(self@.free =~= old(self)@.release(ptr, size, align).1.free);
                    assert(self@.live =~= old(self)@.release(ptr, size, align).1.live);
                }
                return true;
            }
            i = i + 1;
        }
        false
    }

    /// The number of blocks that are handed out.
    pub fn live_blocks(&self) -> (n: usize)
        ensures
            n == self@.live.len(),
    {
        self.live.len()
    }
}


/// The memory of a descriptor as a range `[start, end)`, if it is conventional
/// memory, not empty, ends within the address space, and has nothing in common
/// with the kernel image `[image_start, image_end)`. Of a region that starts
/// at address 0 the first page is left out, so that no block lies at address 0.
pub open spec fn usable_range(d: EfiMemoryDescriptor, image_start: u64, image_end: u64) -> Option<
    (u64, u64),
> {
    if d.memory_type == EfiMemoryType::CONVENTIONAL_MEMORY && d.number_of_pages > 0 && d.physical_start
        + d.number_of_pages * 4096 <= u64::MAX && (image_start >= image_end || d.physical_start
        + d.number_of_pages * 4096 <= image_start || image_end <= d.physical_start) && (d.physical_start
        > 0 || d.number_of_pages > 1) {
        Some(
            (
                if d.physical_start == 0 {
                    4096
                } else {
                    d.physical_start
                },
                (d.physical_start + d.number_of_pages * 4096) as u64,
            ),
        )
    } else {
        None
    }
}

/// The heap after the first `n` descriptors have been offered to it.
pub open spec fn with_descriptors(
    heap: HeapModel,
    descriptors: Seq<EfiMemoryDescriptor>,
    n: nat,
    image_start: u64,
    image_end: u64,
) -> HeapModel
    decreases n,
{
    if n == 0 {
        heap
    } else {
        let before = with_descriptors(heap, descriptors, (n - 1) as nat, image_start, image_end);
        match usable_range(descriptors[n - 1], image_start, image_end) {
            Some((start, end)) => before.add_region(start, end).1,
            None => before,
        }
    }
}

/// The memory of a descriptor as a range, if the heap may use it.
pub fn usable(d: &EfiMemoryDescriptor, image_start: u64, image_end: u64) -> (range: Option<(u64, u64)>)
    ensures
        range == usable_range(*d, image_start, image_end),
{
    if d.memory_type() != EfiMemoryType::CONVENTIONAL_MEMORY || d.number_of_pages() == 0 {
        return None;
    }
    let size: u64 = match d.number_of_pages().checked_mul(4096) {
        Some(size) => size,
        None => {
            return None;
        },
    };
    let end: u64 = match d.physical_start.checked_add(size) {
        Some(end) => end,
        None => {
            return None;
        },
    };
    if !(image_start >= image_end || end <= image_start || image_end <= d.physical_start) {
        return None;
    }
    if d.physical_start > 0 {
        Some((d.physical_start, end))
    } else if d.number_of_pages() > 1 {
        Some((4096, end))
    } else {
        None
    }
}

impl Allocator {
    /// Gives the heap the conventional memory of a memory map: each region of
    /// conventional memory that has nothing in common with the kernel image
    /// `[image_start, image_end)` becomes a region of the heap, unless it
    /// overlaps a region that the heap has already. Larger regions are used first.
    pub fn init_with_mmap(&mut self, memory_map: &MemoryMapHolder, image_start: u64, image_end: u64)
        requires
            old(self).wf(),
            memory_map.wf(),
        ensures
            final(self).wf(),
            final(self)@ == with_descriptors(
                old(self)@,
                memory_map@.descriptors(),
                memory_map@.count(),
                image_start,
                image_end,
            ),
    {
        let all = memory_map.descriptors();
        let mut i: usize = 0;
        while i < all.len()
            invariant
                i <= all@.len(),
                self.wf(),
                self@ == with_descriptors(old(self)@, all@, i as nat, image_start, image_end),
            decreases all@.len() - i,
        {
            match usable(&all[i], image_start, image_end) {
                Some((start, end)) => {
                    let _ = self.add_region(start, end);
                },
                None => {},
            }
            i = i + 1;
        }
    }
}

} // verus!
