//! Kernel memory allocator: a buddy allocator for page frames, a slab
//! allocator for small objects, a kernel heap combining both, and memory
//! zones.
//!
//! The allocators keep their bookkeeping in ordinary vectors; they hand
//! out and take back physical addresses and never touch the memory they
//! manage.

use vstd::prelude::*;
use vstd::arithmetic::power2::{pow2, lemma_pow2_unfold, lemma_pow2_adds, lemma2_to64, lemma2_to64_rest};
use vstd::bits::lemma_u64_shl_is_mul;

verus! {

/// Maximum order for buddy allocator (2^MAX_ORDER pages)
pub const MAX_ORDER: usize = 11;

/// Page size (4KB for x86_64)
pub const PAGE_SIZE: usize = 4096;

/// Number of free-block records the buddy allocator can ever create.
pub const NODE_CAPACITY: usize = 4096;

/// Number of slab size classes
pub const SLAB_CLASSES: usize = 16;

/// Magic number for heap block validation
pub const HEAP_MAGIC: u32 = 0xDEADBEEF;

/// Bytes of the header in front of each heap block.
pub const HEAP_HEADER_SIZE: usize = 8;

// =============================================================================
// Page arithmetic
// =============================================================================

/// Pages in a block of the given order: 2^order.
pub open spec fn pages(o: nat) -> nat
    decreases o,
{
    if o == 0 {
        1
    } else {
        2 * pages((o - 1) as nat)
    }
}

/// Bytes in a block of the given order.
pub open spec fn block_bytes(o: nat) -> int {
    PAGE_SIZE as int * pages(o) as int
}

/// 2^64: the end of the address space.
pub open spec fn addr_limit() -> int {
    0x1_0000_0000_0000_0000
}

pub proof fn lemma_pages_pos(o: nat)
    ensures
        pages(o) >= 1,
    decreases o,
{
    if o > 0 {
        lemma_pages_pos((o - 1) as nat);
    }
}

pub proof fn lemma_pages_mono(a: nat, b: nat)
    requires
        a <= b,
    ensures
        pages(a) <= pages(b),
    decreases b,
{
    if a < b {
        lemma_pages_mono(a, (b - 1) as nat);
        lemma_pages_pos((b - 1) as nat);
    }
}

proof fn lemma_pages_pow2(o: nat)
    ensures
        pages(o) == pow2(o),
    decreases o,
{
    if o == 0 {
        lemma2_to64();
    } else {
        lemma_pages_pow2((o - 1) as nat);
        lemma_pow2_unfold(o);
    }
}

proof fn lemma_pages_small(o: nat)
    requires
        o < MAX_ORDER,
    ensures
        pages(o) <= 1024,
{
    lemma_pages_mono(o, 10);
    reveal_with_fuel(pages, 11);
    assert(pages(10) == 1024);
}

/// The block size of order `o` is the single bit `12 + o`.
proof fn lemma_block_bit(o: nat)
    requires
        o < MAX_ORDER,
    ensures
        (1u64 << ((12 + o) as u64)) as int == block_bytes(o),
{
    lemma_pages_pow2(o);
    lemma_pow2_adds(12, o);
    lemma2_to64();
    lemma_pages_small(o);
    lemma_u64_shl_is_mul(1, (12 + o) as u64);
}

/// Flipping a single bit moves an address by exactly that bit's value.
proof fn lemma_xor_bit(x: u64, k: u64)
    requires
        k < 64,
    ensures
        (x & (1u64 << k)) == 0 ==> (x ^ (1u64 << k)) as int == x as int + (1u64 << k) as int,
        (x & (1u64 << k)) != 0 ==> (x ^ (1u64 << k)) as int + (1u64 << k) as int == x as int,
{
    assert((x & (1u64 << k)) == 0 ==> (x ^ (1u64 << k)) == x + (1u64 << k)) by (bit_vector)
        requires
            k < 64,
    ;
    assert((x & (1u64 << k)) != 0 ==> (x ^ (1u64 << k)) + (1u64 << k) == x) by (bit_vector)
        requires
            k < 64,
    ;
}

/// Pages of an order, computed.
fn order_pages(o: usize) -> (r: u64)
    requires
        o < MAX_ORDER,
    ensures
        r == pages(o as nat),
        r <= 1024,
{
    proof {
        lemma_pages_small(o as nat);
    }
    let mut r: u64 = 1;
    let mut i: usize = 0;
    while i < o
        invariant
            i <= o,
            o < MAX_ORDER,
            r == pages(i as nat),
            pages(o as nat) <= 1024,
        decreases o - i,
    {
        proof {
            lemma_pages_mono((i + 1) as nat, o as nat);
        }
        r = r * 2;
        i = i + 1;
    }
    r
}

/// Bytes of a block of an order, computed.
fn order_bytes(o: usize) -> (r: u64)
    requires
        o < MAX_ORDER,
    ensures
        r == block_bytes(o as nat),
        4096 <= r <= 4096 * 1024,
{
    proof {
        lemma_pages_pos(o as nat);
    }
    PAGE_SIZE as u64 * order_pages(o)
}

// =============================================================================
// Buddy free-list model
// =============================================================================

/// Pages held by the free lists of orders below `n`.
pub open spec fn sum_pages(ls: Seq<Seq<u64>>, n: int) -> int
    decreases n,
{
    if n <= 0 {
        0
    } else {
        sum_pages(ls, n - 1) + ls[n - 1].len() * pages((n - 1) as nat)
    }
}

/// Free blocks recorded in the lists of orders below `n`.
pub open spec fn entries(ls: Seq<Seq<u64>>, n: int) -> int
    decreases n,
{
    if n <= 0 {
        0
    } else {
        entries(ls, n - 1) + ls[n - 1].len()
    }
}

/// Every free block lies inside the address space.
pub open spec fn lists_fit(ls: Seq<Seq<u64>>) -> bool {
    forall|o: int, i: int|
        0 <= o < ls.len() && 0 <= i < ls[o].len() ==> #[trigger] ls[o][i] as int + block_bytes(
            o as nat,
        ) <= addr_limit()
}

/// Record a free block at the head of its list, if a record is left; `nn`
/// counts the records in use.
pub open spec fn add_block(ls: Seq<Seq<u64>>, nn: nat, addr: u64, o: int) -> (Seq<Seq<u64>>, nat) {
    if nn >= NODE_CAPACITY {
        (ls, nn)
    } else {
        (ls.update(o, ls[o].push(addr)), nn + 1)
    }
}

/// Order of the largest block that starts at `addr`, fits in `size` and is
/// aligned to its own size, searching upward from `o`.
pub open spec fn fit_order(addr: u64, size: u64, o: nat) -> nat
    decreases MAX_ORDER - 1 - o,
{
    if o >= MAX_ORDER - 1 {
        o
    } else if (size as int) < block_bytes(o + 1) || addr as int % block_bytes(o + 1) != 0 {
        o
    } else {
        fit_order(addr, size, o + 1)
    }
}

/// A region cut into the largest aligned blocks, each recorded in turn.
pub open spec fn add_region(ls: Seq<Seq<u64>>, nn: nat, addr: u64, size: u64) -> (Seq<Seq<u64>>, nat)
    decreases size,
{
    if (size as int) < PAGE_SIZE as int {
        (ls, nn)
    } else {
        let o = fit_order(addr, size, 0);
        let (ls2, nn2) = add_block(ls, nn, addr, o as int);
        if block_bytes(o) > size || addr as int + block_bytes(o) >= addr_limit() {
            (ls2, nn2)
        } else {
            proof {
                lemma_pages_pos(o);
            }
            add_region(ls2, nn2, (addr as int + block_bytes(o)) as u64, (size - block_bytes(o)) as u64)
        }
    }
}

/// First order at or above `o` whose free list is not empty.
pub open spec fn first_nonempty(ls: Seq<Seq<u64>>, o: int) -> Option<int>
    decreases MAX_ORDER - o,
{
    if o < 0 || o >= MAX_ORDER {
        None
    } else if ls[o].len() > 0 {
        Some(o)
    } else {
        first_nonempty(ls, o + 1)
    }
}

/// The upper halves left over when a block of order `s` at `addr` is split
/// down to order `lo`, recorded from the largest down.
pub open spec fn split_from(ls: Seq<Seq<u64>>, nn: nat, addr: u64, s: int, lo: int) -> (
    Seq<Seq<u64>>,
    nat,
)
    decreases s - lo,
{
    if s <= lo {
        (ls, nn)
    } else {
        let (ls2, nn2) = add_block(
            ls,
            nn,
            (addr as int + block_bytes((s - 1) as nat)) as u64,
            s - 1,
        );
        split_from(ls2, nn2, addr, s - 1, lo)
    }
}

/// Index of the last occurrence of `a` among the first `n` entries.
pub open spec fn last_index(l: Seq<u64>, a: u64, n: int) -> Option<int>
    decreases n,
{
    if n <= 0 {
        None
    } else if l[n - 1] == a {
        Some(n - 1)
    } else {
        last_index(l, a, n - 1)
    }
}

/// Merging a freed block with its free buddies, order by order.
/// Returns the lists without the merged buddies, the merged block's
/// address and its order.
pub open spec fn merge_spec(ls: Seq<Seq<u64>>, cur: u64, o: int) -> (Seq<Seq<u64>>, u64, int)
    decreases MAX_ORDER - 1 - o,
{
    if o < 0 || o >= MAX_ORDER - 1 {
        (ls, cur, o)
    } else {
        let b = cur ^ (block_bytes(o as nat) as u64);
        match last_index(ls[o], b, ls[o].len() as int) {
            None => (ls, cur, o),
            Some(i) => merge_spec(
                ls.update(o, ls[o].remove(i)),
                if cur < b {
                    cur
                } else {
                    b
                },
                o + 1,
            ),
        }
    }
}

/// What a buddy allocator holds: free lists by order, records used,
/// managed region and statistics.
pub struct BuddyView {
    pub lists: Seq<Seq<u64>>,
    pub nodes_used: nat,
    pub base: u64,
    pub total: u64,
    pub stats: BuddyStats,
}

/// Same allocator state.
pub open spec fn same_buddy(a: BuddyView, b: BuddyView) -> bool {
    a.lists == b.lists && a.nodes_used == b.nodes_used && a.base == b.base && a.total == b.total
        && a.stats == b.stats
}

/// What `BuddyAllocator::allocate(order)` does, from state `o` to state `n`
/// with result `r`.
pub open spec fn alloc_post(o: BuddyView, n: BuddyView, order: usize, r: Option<u64>) -> bool {
    &&& n.base == o.base
    &&& n.total == o.total
    &&& order >= MAX_ORDER ==> r is None && same_buddy(o, n)
    &&& order < MAX_ORDER ==> match first_nonempty(o.lists, order as int) {
        None => r is None && same_buddy(o, n),
        Some(c) => {
            let ls = o.lists;
            let addr = ls[c].last();
            let st = o.stats;
            &&& r == Some(addr)
            &&& addr as int + block_bytes(order as nat) <= addr_limit()
            &&& (n.lists, n.nodes_used) == split_from(
                ls.update(c, ls[c].drop_last()),
                (o.nodes_used - 1) as nat,
                addr,
                c,
                order as int,
            )
            &&& n.stats == (BuddyStats {
                allocations: st.allocations.wrapping_add(1),
                splits: st.splits.wrapping_add((c - order) as u64),
                pages_allocated: (st.pages_allocated + pages(order as nat)) as u64,
                pages_free: (st.pages_free - pages(order as nat)) as u64,
                ..st
            })
        },
    }
}

/// The block `BuddyAllocator::allocate(order)` returns in state `o`.
pub open spec fn alloc_result(o: BuddyView, order: usize) -> Option<u64> {
    if order >= MAX_ORDER {
        None
    } else {
        match first_nonempty(o.lists, order as int) {
            None => None,
            Some(c) => Some(o.lists[c].last()),
        }
    }
}

/// What `BuddyAllocator::free(addr, order)` does, from state `o` to `n`.
pub open spec fn free_post(o: BuddyView, n: BuddyView, addr: u64, order: usize) -> bool {
    &&& n.base == o.base
    &&& n.total == o.total
    &&& order >= MAX_ORDER ==> same_buddy(o, n)
    &&& order < MAX_ORDER ==> ({
        let (ls2, cur, o2) = merge_spec(o.lists, addr, order as int);
        let st = o.stats;
        &&& (n.lists, n.nodes_used) == add_block(ls2, (o.nodes_used - (o2 - order)) as nat, cur, o2)
        &&& n.stats == (BuddyStats {
            frees: st.frees.wrapping_add(1),
            merges: st.merges.wrapping_add((o2 - order) as u64),
            pages_allocated: (st.pages_allocated - pages(order as nat)) as u64,
            pages_free: (st.pages_free + pages(order as nat)) as u64,
            ..st
        })
    })
}

/// Buddy allocator statistics
#[derive(Clone, Copy, Debug)]
pub struct BuddyStats {
    pub allocations: u64,
    pub frees: u64,
    pub splits: u64,
    pub merges: u64,
    pub pages_allocated: u64,
    pub pages_free: u64,
}

/// Buddy allocator for physical page frames
///
/// Blocks are split and merged in powers of two pages.  Each order keeps a
/// stack of free block addresses; the last entry is the head of the list.
/// Every recorded free block uses one of `NODE_CAPACITY` records, handed
/// back when the block leaves its list; while all records are in use, a
/// further free block is not recorded.
///
/// The free blocks of an initialized allocator are aligned to their size,
/// lie in the managed region and do not overlap; `allocate` hands out such
/// a block, apart from every block left free, and keeps this so, as does
/// `free` of an aligned block of the region that overlaps no free block.
pub struct BuddyAllocator {
    free_lists: Vec<Vec<u64>>,
    next_node: usize,
    base_addr: u64,
    total_size: u64,
    stats: BuddyStats,
}

impl BuddyAllocator {
    /// The free lists, order by order.
    pub closed spec fn lists(&self) -> Seq<Seq<u64>> {
        Seq::new(self.free_lists@.len(), |o: int| self.free_lists@[o]@)
    }

    pub closed spec fn view(&self) -> BuddyView {
        BuddyView {
            lists: self.lists(),
            nodes_used: self.nodes_used(),
            base: self.base_addr,
            total: self.total_size,
            stats: self.stats,
        }
    }

    /// Free-block records in use: one for each block in the lists.
    pub closed spec fn nodes_used(&self) -> nat {
        self.next_node as nat
    }

    pub closed spec fn stats_view(&self) -> BuddyStats {
        self.stats
    }

    pub closed spec fn base(&self) -> u64 {
        self.base_addr
    }

    pub closed spec fn total(&self) -> u64 {
        self.total_size
    }

    /// Internal consistency: one list per order, the free pages are
    /// counted in `pages_free`, the page counters cannot overflow, every
    /// free block lies in the address space.
    pub closed spec fn wf(&self) -> bool {
        &&& self.free_lists@.len() == MAX_ORDER
        &&& self.next_node <= NODE_CAPACITY
        &&& self.next_node == entries(self.lists(), MAX_ORDER as int)
        &&& sum_pages(self.lists(), MAX_ORDER as int) <= self.stats.pages_free
        &&& self.stats.pages_allocated as int + self.stats.pages_free as int <= u64::MAX
        &&& lists_fit(self.lists())
    }

    /// Create a new buddy allocator with no memory.
    pub fn new() -> (r: Self)
        ensures
            r.wf(),
            r.lists() =~= Seq::new(MAX_ORDER as nat, |o: int| Seq::<u64>::empty()),
            r.nodes_used() == 0,
            r.base() == 0,
            r.total() == 0,
            r.stats_view() == (BuddyStats {
                allocations: 0,
                frees: 0,
                splits: 0,
                merges: 0,
                pages_allocated: 0,
                pages_free: 0,
            }),
    {
        let mut free_lists: Vec<Vec<u64>> = Vec::new();
        let mut i: usize = 0;
        while i < MAX_ORDER
            invariant
                i <= MAX_ORDER,
                free_lists@.len() == i,
                forall|o: int| 0 <= o < i ==> (#[trigger] free_lists@[o])@.len() == 0,
            decreases MAX_ORDER - i,
        {
            free_lists.push(Vec::new());
            i = i + 1;
        }
        let r = Self {
            free_lists,
            next_node: 0,
            base_addr: 0,
            total_size: 0,
            stats: BuddyStats {
                allocations: 0,
                frees: 0,
                splits: 0,
                merges: 0,
                pages_allocated: 0,
                pages_free: 0,
            },
        };
        proof {
            assert forall|o: int| 0 <= o < MAX_ORDER implies #[trigger] r.lists()[o] =~= Seq::<
                u64,
            >::empty() by {
                assert(r.free_lists@[o]@.len() == 0);
            }
            assert(r.lists() =~= Seq::new(MAX_ORDER as nat, |o: int| Seq::<u64>::empty()));
            lemma_sum_empty(r.lists(), MAX_ORDER as int);
            lemma_entries_empty(r.lists(), MAX_ORDER as int);
        }
        r
    }
}

proof fn lemma_sum_empty(ls: Seq<Seq<u64>>, n: int)
    requires
        0 <= n <= ls.len(),
        forall|o: int| 0 <= o < n ==> (#[trigger] ls[o]).len() == 0,
    ensures
        sum_pages(ls, n) == 0,
    decreases n,
{
    if n > 0 {
        lemma_sum_empty(ls, n - 1);
    }
}

proof fn lemma_sum_nonneg(ls: Seq<Seq<u64>>, n: int)
    ensures
        sum_pages(ls, n) >= 0,
    decreases n,
{
    if n > 0 {
        lemma_sum_nonneg(ls, n - 1);
        lemma_pages_pos((n - 1) as nat);
        assert(ls[n - 1].len() * pages((n - 1) as nat) >= 0) by (nonlinear_arith);
    }
}

/// Replacing the list of order `o` changes the page count by the
/// difference in its length times the pages of that order.
proof fn lemma_sum_update(ls: Seq<Seq<u64>>, n: int, o: int, l2: Seq<u64>)
    requires
        0 <= o < ls.len(),
        n <= ls.len(),
    ensures
        o < n ==> sum_pages(ls.update(o, l2), n) == sum_pages(ls, n) + (l2.len() - ls[o].len())
            * pages(o as nat),
        o >= n ==> sum_pages(ls.update(o, l2), n) == sum_pages(ls, n),
    decreases n,
{
    if n > 0 {
        lemma_sum_update(ls, n - 1, o, l2);
        if o == n - 1 {
            assert(l2.len() * pages(o as nat) - ls[o].len() * pages(o as nat) == (l2.len()
                - ls[o].len()) * pages(o as nat)) by (nonlinear_arith);
        }
    }
}

/// Replacing the list of order `o` changes the record count by the
/// difference in its length.
proof fn lemma_entries_update(ls: Seq<Seq<u64>>, n: int, o: int, l2: Seq<u64>)
    requires
        0 <= o < ls.len(),
        n <= ls.len(),
    ensures
        o < n ==> entries(ls.update(o, l2), n) == entries(ls, n) + l2.len() - ls[o].len(),
        o >= n ==> entries(ls.update(o, l2), n) == entries(ls, n),
    decreases n,
{
    if n > 0 {
        lemma_entries_update(ls, n - 1, o, l2);
    }
}

/// The records count at least the blocks of one list.
proof fn lemma_entries_ge(ls: Seq<Seq<u64>>, n: int, c: int)
    requires
        0 <= c < n <= ls.len(),
    ensures
        entries(ls, n) >= ls[c].len(),
    decreases n,
{
    lemma_entries_nonneg(ls, n - 1);
    if c < n - 1 {
        lemma_entries_ge(ls, n - 1, c);
    }
}

proof fn lemma_entries_nonneg(ls: Seq<Seq<u64>>, n: int)
    ensures
        entries(ls, n) >= 0,
    decreases n,
{
    if n > 0 {
        lemma_entries_nonneg(ls, n - 1);
    }
}

proof fn lemma_entries_empty(ls: Seq<Seq<u64>>, n: int)
    requires
        0 <= n <= ls.len(),
        forall|o: int| 0 <= o < n ==> (#[trigger] ls[o]).len() == 0,
    ensures
        entries(ls, n) == 0,
    decreases n,
{
    if n > 0 {
        lemma_entries_empty(ls, n - 1);
    }
}

/// Recording a block adds at most its pages, and keeps every block inside
/// the address space when the new one is.
proof fn lemma_add_block(ls: Seq<Seq<u64>>, nn: nat, addr: u64, o: int)
    requires
        ls.len() == MAX_ORDER,
        0 <= o < MAX_ORDER,
        lists_fit(ls),
        addr as int + block_bytes(o as nat) <= addr_limit(),
    ensures
        ({
            let (ls2, nn2) = add_block(ls, nn, addr, o);
            &&& ls2.len() == MAX_ORDER
            &&& lists_fit(ls2)
            &&& nn <= nn2 <= nn + 1
            &&& nn2 == nn ==> sum_pages(ls2, MAX_ORDER as int) == sum_pages(ls, MAX_ORDER as int)
            &&& nn2 == nn + 1 ==> sum_pages(ls2, MAX_ORDER as int) == sum_pages(
                ls,
                MAX_ORDER as int,
            ) + pages(o as nat)
            &&& nn == entries(ls, MAX_ORDER as int) ==> nn2 == entries(ls2, MAX_ORDER as int)
        }),
{
    if nn < NODE_CAPACITY {
        lemma_entries_update(ls, MAX_ORDER as int, o, ls[o].push(addr));
        lemma_sum_update(ls, MAX_ORDER as int, o, ls[o].push(addr));
        let ls2 = ls.update(o, ls[o].push(addr));
        assert(add_block(ls, nn, addr, o) == (ls2, nn + 1));
        assert(entries(ls2, MAX_ORDER as int) == entries(ls, MAX_ORDER as int) + 1);
        assert((ls[o].push(addr).len() - ls[o].len()) * pages(o as nat) == pages(o as nat)) by (nonlinear_arith)
            requires
                ls[o].push(addr).len() == ls[o].len() + 1,
        ;
        assert forall|p: int, i: int|
            0 <= p < ls2.len() && 0 <= i < ls2[p].len() implies #[trigger] ls2[p][i] as int
            + block_bytes(p as nat) <= addr_limit() by {
            if p == o && i == ls[o].len() {
            } else {
                assert(ls2[p][i] == ls[p][i]);
            }
        }
    }
}

impl BuddyAllocator {
    /// Add a free block to the free list (dropped when no record is left).
    fn add_free_block(&mut self, addr: u64, order: usize)
        requires
            order < MAX_ORDER,
            old(self).free_lists@.len() == MAX_ORDER,
            old(self).next_node <= NODE_CAPACITY,
        ensures
            old(self).next_node == entries(old(self).lists(), MAX_ORDER as int) ==> final(self).next_node
                == entries(final(self).lists(), MAX_ORDER as int),
            (final(self).lists(), final(self).nodes_used()) == add_block(
                old(self).lists(),
                old(self).nodes_used(),
                addr,
                order as int,
            ),
            final(self).free_lists@.len() == MAX_ORDER,
            final(self).next_node <= NODE_CAPACITY,
            final(self).stats == old(self).stats,
            final(self).base_addr == old(self).base_addr,
            final(self).total_size == old(self).total_size,
    {
        if self.next_node >= NODE_CAPACITY {
            return;
        }
        self.next_node = self.next_node + 1;
        let ghost before = self.lists();
        self.free_lists[order].push(addr);
        proof {
            assert(self.lists() =~= before.update(order as int, before[order as int].push(addr)));
            lemma_entries_update(before, MAX_ORDER as int, order as int, before[order as int].push(addr));
        }
    }
}

proof fn lemma_sum_ge_block(ls: Seq<Seq<u64>>, n: int, c: int)
    requires
        0 <= c < n <= ls.len(),
        ls[c].len() >= 1,
    ensures
        sum_pages(ls, n) >= pages(c as nat),
    decreases n,
{
    lemma_sum_nonneg(ls, n - 1);
    if c < n - 1 {
        lemma_sum_ge_block(ls, n - 1, c);
        assert(ls[n - 1].len() * pages((n - 1) as nat) >= 0) by (nonlinear_arith);
    } else {
        assert(ls[c].len() * pages(c as nat) >= pages(c as nat)) by (nonlinear_arith)
            requires
                ls[c].len() >= 1,
        ;
    }
}

/// Splitting a block records upper halves worth at most the block's pages
/// less the pages kept, all inside the address space.
proof fn lemma_split(ls: Seq<Seq<u64>>, nn: nat, addr: u64, s: int, lo: int)
    requires
        ls.len() == MAX_ORDER,
        0 <= lo <= s < MAX_ORDER,
        lists_fit(ls),
        addr as int + block_bytes(s as nat) <= addr_limit(),
    ensures
        ({
            let (ls2, nn2) = split_from(ls, nn, addr, s, lo);
            &&& ls2.len() == MAX_ORDER
            &&& lists_fit(ls2)
            &&& nn <= NODE_CAPACITY ==> nn2 <= NODE_CAPACITY
            &&& nn == entries(ls, MAX_ORDER as int) ==> nn2 == entries(ls2, MAX_ORDER as int)
            &&& sum_pages(ls2, MAX_ORDER as int) + pages(lo as nat) <= sum_pages(
                ls,
                MAX_ORDER as int,
            ) + pages(s as nat)
        }),
    decreases s - lo,
{
    if s > lo {
        let b = (addr as int + block_bytes((s - 1) as nat)) as u64;
        lemma_add_block(ls, nn, b, s - 1);
        let (ls2, nn2) = add_block(ls, nn, b, s - 1);
        lemma_split(ls2, nn2, addr, s - 1, lo);
    }
}

/// Merging takes the buddies out of the lists: their pages move into the
/// merged block.
proof fn lemma_merge(ls: Seq<Seq<u64>>, cur: u64, o: int)
    requires
        ls.len() == MAX_ORDER,
        lists_fit(ls),
        0 <= o < MAX_ORDER,
        cur as int + block_bytes(o as nat) <= addr_limit(),
    ensures
        ({
            let (ls2, cur2, o2) = merge_spec(ls, cur, o);
            &&& ls2.len() == MAX_ORDER
            &&& lists_fit(ls2)
            &&& o <= o2 < MAX_ORDER
            &&& cur2 as int + block_bytes(o2 as nat) <= addr_limit()
            &&& entries(ls2, MAX_ORDER as int) == entries(ls, MAX_ORDER as int) - (o2 - o)
            &&& sum_pages(ls2, MAX_ORDER as int) + pages(o2 as nat) == sum_pages(
                ls,
                MAX_ORDER as int,
            ) + pages(o as nat)
        }),
    decreases MAX_ORDER - 1 - o,
{
    lemma_pages_small(o as nat);
    if o < MAX_ORDER - 1 {
        let b = cur ^ (block_bytes(o as nat) as u64);
        match last_index(ls[o], b, ls[o].len() as int) {
            None => {},
            Some(i) => {
                lemma_last_index(ls[o], b, ls[o].len() as int);
                let l2 = ls[o].remove(i);
                lemma_entries_update(ls, MAX_ORDER as int, o, l2);
                lemma_sum_update(ls, MAX_ORDER as int, o, l2);
                let ls2 = ls.update(o, l2);
                assert forall|p: int, j: int|
                    0 <= p < ls2.len() && 0 <= j < ls2[p].len() implies #[trigger] ls2[p][j] as int
                    + block_bytes(p as nat) <= addr_limit() by {
                    if p == o {
                        if j < i {
                            assert(ls2[p][j] == ls[o][j]);
                        } else {
                            assert(ls2[p][j] == ls[o][j + 1]);
                        }
                    } else {
                        assert(ls2[p][j] == ls[p][j]);
                    }
                }
                assert(b as int + block_bytes(o as nat) <= addr_limit()) by {
                    assert(ls[o][i] == b);
                }
                lemma_block_bit(o as nat);
                lemma_xor_bit(cur, (12 + o) as u64);
                let nc: u64 = if cur < b {
                    cur
                } else {
                    b
                };
                assert(pages((o + 1) as nat) == 2 * pages(o as nat));
                assert(nc as int + block_bytes((o + 1) as nat) <= addr_limit());
                lemma_merge(ls2, nc, o + 1);
                assert(l2.len() == ls[o].len() - 1);
                assert((l2.len() - ls[o].len()) * pages(o as nat) == -pages(o as nat))
                    by (nonlinear_arith)
                    requires
                        l2.len() == ls[o].len() - 1,
                ;
                assert(sum_pages(ls2, MAX_ORDER as int) == sum_pages(ls, MAX_ORDER as int) - pages(
                    o as nat,
                ));
                assert(merge_spec(ls, cur, o) == merge_spec(ls2, nc, o + 1));
            },
        }
    }
}

proof fn lemma_last_index(l: Seq<u64>, a: u64, n: int)
    requires
        n <= l.len(),
    ensures
        last_index(l, a, n) matches Some(i) ==> 0 <= i < n && l[i] == a,
    decreases n,
{
    if n > 0 {
        lemma_last_index(l, a, n - 1);
    }
}

/// A region cut into blocks adds at most its whole pages, each block
/// inside the region.
proof fn lemma_region(ls: Seq<Seq<u64>>, nn: nat, addr: u64, size: u64)
    requires
        ls.len() == MAX_ORDER,
        lists_fit(ls),
        addr as int + size as int <= addr_limit(),
    ensures
        ({
            let (ls2, nn2) = add_region(ls, nn, addr, size);
            &&& ls2.len() == MAX_ORDER
            &&& lists_fit(ls2)
            &&& nn <= NODE_CAPACITY ==> nn2 <= NODE_CAPACITY
            &&& nn == entries(ls, MAX_ORDER as int) ==> nn2 == entries(ls2, MAX_ORDER as int)
            &&& sum_pages(ls2, MAX_ORDER as int) <= sum_pages(ls, MAX_ORDER as int) + size as int
                / PAGE_SIZE as int
        }),
    decreases size,
{
    if (size as int) >= PAGE_SIZE as int {
        let o = fit_order(addr, size, 0);
        lemma_fit_order(addr, size, 0);
        lemma_add_block(ls, nn, addr, o as int);
        let (ls2, nn2) = add_block(ls, nn, addr, o as int);
        if block_bytes(o) > size || addr as int + block_bytes(o) >= addr_limit() {
        } else {
            let rest = (size - block_bytes(o)) as u64;
            lemma_pages_pos(o);
            lemma_region(ls2, nn2, (addr as int + block_bytes(o)) as u64, rest);
            assert(size as int / PAGE_SIZE as int == rest as int / PAGE_SIZE as int + pages(o))
                by (nonlinear_arith)
                requires
                    rest as int == size as int - PAGE_SIZE as int * pages(o),
                    PAGE_SIZE == 4096,
            ;
        }
    }
}

proof fn lemma_fit_order(addr: u64, size: u64, o: nat)
    requires
        o < MAX_ORDER,
        block_bytes(o) <= size,
    ensures
        o <= fit_order(addr, size, o) < MAX_ORDER,
        block_bytes(fit_order(addr, size, o)) <= size,
    decreases MAX_ORDER - 1 - o,
{
    if o < MAX_ORDER - 1 {
        if (size as int) < block_bytes(o + 1) || addr as int % block_bytes(o + 1) != 0 {
        } else {
            lemma_fit_order(addr, size, o + 1);
        }
    }
}

/// All lists empty.
pub open spec fn all_empty(ls: Seq<Seq<u64>>) -> bool {
    forall|o: int| 0 <= o < ls.len() ==> (#[trigger] ls[o]).len() == 0
}

/// The buddy allocator after `init(base, size)` from state `o`.
pub open spec fn buddy_after_init(o: BuddyView, base: u64, size: u64) -> BuddyView {
    let total = (size - size % 4096) as u64;
    let (ls, nn) = add_region(o.lists, o.nodes_used, base, total);
    BuddyView {
        lists: ls,
        nodes_used: nn,
        base,
        total,
        stats: BuddyStats { pages_free: total / 4096, ..o.stats },
    }
}

impl BuddyAllocator {
    /// Holds no free block and no allocated page: a new allocator.
    pub closed spec fn is_fresh(&self) -> bool {
        &&& self.free_lists@.len() == MAX_ORDER
        &&& self.next_node <= NODE_CAPACITY
        &&& self.next_node == entries(self.lists(), MAX_ORDER as int)
        &&& all_empty(self.lists())
        &&& self.stats.pages_allocated == 0
    }

    /// Whether another region can be given to `init`.
    pub closed spec fn shape_ok(&self) -> bool {
        &&& self.free_lists@.len() == MAX_ORDER
        &&& self.next_node <= NODE_CAPACITY
        &&& self.next_node == entries(self.lists(), MAX_ORDER as int)
        &&& lists_fit(self.lists())
    }

    /// Initialize the buddy allocator with a memory region
    ///
    /// `base` must be page-aligned; `size` is rounded down to a page
    /// boundary, and the region is cut into the largest aligned blocks.
    /// The free page count is set to the pages of the region.
    pub fn init(&mut self, base: u64, size: u64)
        requires
            old(self).shape_ok(),
            base % 4096 == 0,
            (base as int + size as int) < addr_limit(),
        ensures
            final(self).shape_ok(),
            final(self).base() == base,
            final(self).total() as int == size as int - size as int % 4096,
            (final(self).lists(), final(self).nodes_used()) == add_region(
                old(self).lists(),
                old(self).nodes_used(),
                base,
                final(self).total(),
            ),
            final(self).stats_view() == (BuddyStats {
                pages_free: final(self).total() / 4096,
                ..old(self).stats_view()
            }),
            old(self).is_fresh() ==> final(self).wf(),
            final(self).view() == buddy_after_init(old(self).view(), base, size),
            old(self).is_fresh() ==> blocks_aligned(final(self).lists()) && blocks_disjoint(final(self).lists())
                && blocks_within(final(self).lists(), base as int, base + final(self).total()),
    {
        self.base_addr = base;
        let total = size & !0xFFFu64;
        assert(total == size - size % 4096) by (bit_vector)
            requires
                total == size & !0xFFFu64,
        ;
        self.total_size = total;
        let total_pages = total / PAGE_SIZE as u64;
        self.stats.pages_free = total_pages;
        proof {
            lemma_region(self.lists(), self.nodes_used(), base, total);
            if all_empty(self.lists()) {
                lemma_sum_empty(self.lists(), MAX_ORDER as int);
            }
        }
        self.add_free_region(base, total);
        proof {
            if old(self).is_fresh() {
                assert(blocks_aligned(old(self).lists()));
                law_buddy_init_aligned(old(self).view(), base, size);
                law_buddy_init_within(old(self).view(), base, size);
            }
        }
    }

    /// Add a free memory region to the buddy allocator
    fn add_free_region(&mut self, addr: u64, size: u64)
        requires
            old(self).free_lists@.len() == MAX_ORDER,
            old(self).next_node <= NODE_CAPACITY,
            (addr as int + size as int) < addr_limit(),
        ensures
            (final(self).lists(), final(self).nodes_used()) == add_region(
                old(self).lists(),
                old(self).nodes_used(),
                addr,
                size,
            ),
            final(self).free_lists@.len() == MAX_ORDER,
            final(self).next_node <= NODE_CAPACITY,
            old(self).next_node == entries(old(self).lists(), MAX_ORDER as int) ==> final(self).next_node
                == entries(final(self).lists(), MAX_ORDER as int),
            final(self).stats == old(self).stats,
            final(self).base_addr == old(self).base_addr,
            final(self).total_size == old(self).total_size,
    {
        let ghost target = add_region(old(self).lists(), old(self).nodes_used(), addr, size);
        let mut addr = addr;
        let mut size = size;
        while size >= PAGE_SIZE as u64
            invariant
                self.free_lists@.len() == MAX_ORDER,
                self.next_node <= NODE_CAPACITY,
                old(self).next_node == entries(old(self).lists(), MAX_ORDER as int) ==> self.next_node
                    == entries(self.lists(), MAX_ORDER as int),
                self.stats == old(self).stats,
                self.base_addr == old(self).base_addr,
                self.total_size == old(self).total_size,
                (addr as int + size as int) < addr_limit(),
                target == add_region(self.lists(), self.nodes_used(), addr, size),
            decreases size,
        {
            let mut order: usize = 0;
            while order < MAX_ORDER - 1 && Self::grows(addr, size, order)
                invariant
                    order < MAX_ORDER,
                    fit_order(addr, size, 0) == fit_order(addr, size, order as nat),
                decreases MAX_ORDER - order,
            {
                order = order + 1;
            }
            proof {
                lemma_fit_order(addr, size, 0);
            }
            let block_size = order_bytes(order);
            self.add_free_block(addr, order);
            addr = addr + block_size;
            size = size - block_size;
        }
    }

    /// The next larger block still fits the region and its alignment.
    fn grows(addr: u64, size: u64, order: usize) -> (r: bool)
        requires
            order < MAX_ORDER - 1,
        ensures
            r == !((size as int) < block_bytes((order + 1) as nat) || addr as int % block_bytes(
                (order + 1) as nat,
            ) != 0),
    {
        let block_size = order_bytes(order + 1);
        !(size < block_size || addr % block_size != 0)
    }

    /// Allocate physical pages
    ///
    /// Takes the head block of the smallest non-empty order at or above
    /// `order`, splits it down to `order`, and records the upper halves.
    /// Returns `None` if `order` is too large or no block is free.
    pub fn allocate(&mut self, order: usize) -> (r: Option<u64>)
        requires
            old(self).wf(),
        ensures
            final(self).wf(),
            final(self).base() == old(self).base(),
            final(self).total() == old(self).total(),
            alloc_post(old(self).view(), final(self).view(), order, r),
            r matches Some(a) ==> a as int + block_bytes(order as nat) <= addr_limit(),
            blocks_aligned(old(self).lists()) ==> blocks_aligned(final(self).lists()) && (r matches Some(a)
                ==> a as int % block_bytes(order as nat) == 0),
            blocks_disjoint(old(self).lists()) ==> blocks_disjoint(final(self).lists()) && (r matches Some(a)
                ==> free_of(final(self).lists(), a as int, block_bytes(order as nat))),
            blocks_within(old(self).lists(), old(self).base() as int, old(self).base() + old(self).total())
                && old(self).base() + old(self).total() <= addr_limit() ==> blocks_within(
                final(self).lists(),
                old(self).base() as int,
                old(self).base() + old(self).total(),
            ) && (r matches Some(a) ==> old(self).base() <= a && a as int + block_bytes(order as nat)
                <= old(self).base() + old(self).total()),
    {
        if order >= MAX_ORDER {
            return None;
        }
        let mut current_order = order;
        while current_order < MAX_ORDER && self.free_lists[current_order].len() == 0
            invariant
                order <= current_order <= MAX_ORDER,
                self.free_lists@.len() == MAX_ORDER,
                first_nonempty(self.lists(), order as int) == first_nonempty(
                    self.lists(),
                    current_order as int,
                ),
            decreases MAX_ORDER - current_order,
        {
            current_order = current_order + 1;
        }
        if current_order >= MAX_ORDER {
            return None;
        }
        let ghost ls = self.lists();
        let ghost nn0 = self.nodes_used();
        let c = current_order;
        proof {
            lemma_sum_ge_block(ls, MAX_ORDER as int, c as int);
            lemma_pages_mono(order as nat, c as nat);
            assert(ls[c as int].last() == ls[c as int][ls[c as int].len() - 1]);
            assert(ls[c as int].last() as int + block_bytes(c as nat) <= addr_limit());
            lemma_pages_mono(order as nat, c as nat);
        }
        proof {
            lemma_entries_ge(ls, MAX_ORDER as int, c as int);
        }
        let addr = self.free_lists[c].pop().unwrap();
        self.next_node = self.next_node - 1;
        let ghost popped = ls.update(c as int, ls[c as int].drop_last());
        proof {
            assert(self.lists() =~= popped);
            lemma_entries_update(ls, MAX_ORDER as int, c as int, ls[c as int].drop_last());
            lemma_sum_update(ls, MAX_ORDER as int, c as int, ls[c as int].drop_last());
            assert((ls[c as int].drop_last().len() - ls[c as int].len()) * pages(c as nat) == -pages(
                c as nat,
            )) by (nonlinear_arith)
                requires
                    ls[c as int].drop_last().len() == ls[c as int].len() - 1,
            ;
            assert forall|p: int, j: int|
                0 <= p < popped.len() && 0 <= j < popped[p].len() implies #[trigger] popped[p][j] as int
                + block_bytes(p as nat) <= addr_limit() by {
                assert(popped[p][j] == ls[p][j]);
            }
            lemma_split(popped, (nn0 - 1) as nat, addr, c as int, order as int);
        }
        let mut split_order = c;
        while split_order > order
            invariant
                order <= split_order <= c < MAX_ORDER,
                self.free_lists@.len() == MAX_ORDER,
                self.next_node <= NODE_CAPACITY,
                self.next_node == entries(self.lists(), MAX_ORDER as int),
                self.stats == old(self).stats,
                self.base_addr == old(self).base_addr,
                self.total_size == old(self).total_size,
                addr as int + block_bytes(c as nat) <= addr_limit(),
                split_from(popped, (nn0 - 1) as nat, addr, c as int, order as int) == split_from(
                    self.lists(),
                    self.nodes_used(),
                    addr,
                    split_order as int,
                    order as int,
                ),
            decreases split_order - order,
        {
            proof {
                lemma_pages_mono(split_order as nat, c as nat);
            }
            let buddy_addr = addr + order_bytes(split_order - 1);
            self.add_free_block(buddy_addr, split_order - 1);
            split_order = split_order - 1;
        }
        self.stats.splits = self.stats.splits.wrapping_add((c - order) as u64);
        self.stats.allocations = self.stats.allocations.wrapping_add(1);
        let n = order_pages(order);
        self.stats.pages_allocated = self.stats.pages_allocated + n;
        self.stats.pages_free = self.stats.pages_free - n;
        proof {
            assert(alloc_post(old(self).view(), self.view(), order, Some(addr)));
            if blocks_aligned(old(self).lists()) {
                law_buddy_alloc_aligned(old(self).view(), self.view(), order, Some(addr));
            }
            if blocks_disjoint(old(self).lists()) {
                law_buddy_alloc_disjoint(old(self).view(), self.view(), order, Some(addr));
            }
            if blocks_within(old(self).lists(), old(self).base() as int, old(self).base() + old(self).total())
                && old(self).base() + old(self).total() <= addr_limit() {
                law_buddy_alloc_within(old(self).view(), self.view(), order, Some(addr));
            }
        }
        Some(addr)
    }

    /// Free physical pages
    ///
    /// Merges the block with its free buddy as long as there is one, then
    /// records the merged block.  An `order` that is too large is ignored.
    pub fn free(&mut self, addr: u64, order: usize)
        requires
            old(self).wf(),
            order < MAX_ORDER ==> old(self).stats_view().pages_allocated >= pages(order as nat),
            order < MAX_ORDER ==> addr as int + block_bytes(order as nat) <= addr_limit(),
        ensures
            final(self).wf(),
            final(self).base() == old(self).base(),
            final(self).total() == old(self).total(),
            free_post(old(self).view(), final(self).view(), addr, order),
            blocks_aligned(old(self).lists()) && (order < MAX_ORDER ==> addr as int % block_bytes(order as nat)
                == 0) ==> blocks_aligned(final(self).lists()),
            blocks_disjoint(old(self).lists()) && (order < MAX_ORDER ==> free_of(
                old(self).lists(),
                addr as int,
                block_bytes(order as nat),
            )) ==> blocks_disjoint(final(self).lists()),
            blocks_within(old(self).lists(), old(self).base() as int, old(self).base() + old(self).total())
                && old(self).base() + old(self).total() <= addr_limit() && (order < MAX_ORDER ==> old(self).base()
                <= addr && addr as int + block_bytes(order as nat) <= old(self).base() + old(self).total())
                ==> blocks_within(final(self).lists(), old(self).base() as int, old(self).base() + old(self).total()),
    {
        if order >= MAX_ORDER {
            return;
        }
        let ghost ls = self.lists();
        proof {
            lemma_merge(ls, addr, order as int);
        }
        let n = order_pages(order);
        self.stats.frees = self.stats.frees.wrapping_add(1);
        self.stats.pages_allocated = self.stats.pages_allocated - n;
        self.stats.pages_free = self.stats.pages_free + n;
        let ghost st1 = self.stats;
        let mut current_addr = addr;
        let mut current_order = order;
        let mut merging = true;
        while merging && current_order < MAX_ORDER - 1
            invariant
                order <= current_order < MAX_ORDER,
                self.free_lists@.len() == MAX_ORDER,
                self.next_node + (current_order - order) == old(self).next_node,
                self.next_node == entries(self.lists(), MAX_ORDER as int),
                self.next_node <= NODE_CAPACITY,
                self.stats == st1,
                self.base_addr == old(self).base_addr,
                self.total_size == old(self).total_size,
                merge_spec(ls, addr, order as int) == (if merging {
                    merge_spec(self.lists(), current_addr, current_order as int)
                } else {
                    (self.lists(), current_addr, current_order as int)
                }),
            decreases (if merging {
                1int
            } else {
                0int
            }) + 2 * (MAX_ORDER - current_order),
        {
            let block_size = order_bytes(current_order);
            let buddy_addr = current_addr ^ block_size;
            let ghost before = self.lists();
            if self.find_and_remove_buddy(buddy_addr, current_order) {
                proof {
                    let i = last_index(before[current_order as int], buddy_addr, before[current_order as int].len() as int).unwrap();
                    lemma_last_index(before[current_order as int], buddy_addr, before[current_order as int].len() as int);
                    lemma_entries_update(before, MAX_ORDER as int, current_order as int, before[current_order as int].remove(i));
                    lemma_entries_nonneg(self.lists(), MAX_ORDER as int);
                }
                self.next_node = self.next_node - 1;
                current_addr = if current_addr < buddy_addr {
                    current_addr
                } else {
                    buddy_addr
                };
                current_order = current_order + 1;
            } else {
                merging = false;
            }
        }
        self.stats.merges = self.stats.merges.wrapping_add((current_order - order) as u64);
        self.add_free_block(current_addr, current_order);
        proof {
            let (ls2, cur2, o2) = merge_spec(ls, addr, order as int);
            lemma_add_block(ls2, (old(self).nodes_used() - (o2 - order)) as nat, cur2, o2);
            assert(free_post(old(self).view(), self.view(), addr, order));
            if blocks_aligned(old(self).lists()) && addr as int % block_bytes(order as nat) == 0 {
                law_buddy_free_aligned(old(self).view(), self.view(), addr, order);
            }
            if blocks_disjoint(old(self).lists()) && free_of(old(self).lists(), addr as int, block_bytes(order as nat)) {
                law_buddy_free_disjoint(old(self).view(), self.view(), addr, order);
            }
            if blocks_within(old(self).lists(), old(self).base() as int, old(self).base() + old(self).total())
                && old(self).base() + old(self).total() <= addr_limit() && old(self).base() <= addr && addr as int
                + block_bytes(order as nat) <= old(self).base() + old(self).total() {
                law_buddy_free_within(old(self).view(), self.view(), addr, order);
            }
        }
    }

    /// Find and remove a buddy from free list: the entry nearest the head
    /// whose address is `addr`.
    fn find_and_remove_buddy(&mut self, addr: u64, order: usize) -> (found: bool)
        requires
            order < MAX_ORDER,
            old(self).free_lists@.len() == MAX_ORDER,
        ensures
            final(self).free_lists@.len() == MAX_ORDER,
            final(self).next_node == old(self).next_node,
            final(self).stats == old(self).stats,
            final(self).base_addr == old(self).base_addr,
            final(self).total_size == old(self).total_size,
            match last_index(
                old(self).lists()[order as int],
                addr,
                old(self).lists()[order as int].len() as int,
            ) {
                None => !found && final(self).lists() == old(self).lists(),
                Some(i) => found && final(self).lists() == old(self).lists().update(
                    order as int,
                    old(self).lists()[order as int].remove(i),
                ),
            },
    {
        let ghost ls = self.lists();
        let mut i = self.free_lists[order].len();
        while i > 0
            invariant
                ls.len() == MAX_ORDER,
                ls == old(self).lists(),
                order < MAX_ORDER,
                i <= ls[order as int].len(),
                self.lists() == ls,
                self.free_lists@.len() == MAX_ORDER,
                self.next_node == old(self).next_node,
                self.stats == old(self).stats,
                self.base_addr == old(self).base_addr,
                self.total_size == old(self).total_size,
                last_index(ls[order as int], addr, ls[order as int].len() as int) == last_index(
                    ls[order as int],
                    addr,
                    i as int,
                ),
            decreases i,
        {
            assert(self.free_lists@[order as int]@ == ls[order as int]);
            if self.free_lists[order][i - 1] == addr {
                assert(ls[order as int][i - 1] == addr);
                assert(last_index(ls[order as int], addr, i as int) == Some((i - 1) as int));
                self.free_lists[order].remove(i - 1);
                proof {
                    assert(self.lists() =~= ls.update(
                        order as int,
                        ls[order as int].remove(i - 1),
                    ));
                }
                return true;
            }
            i = i - 1;
        }
        false
    }

    /// Get allocator statistics
    pub fn stats(&self) -> (r: BuddyStats)
        ensures
            r == self.stats_view(),
    {
        self.stats
    }
}

// =============================================================================
// Slab Allocator
// =============================================================================

/// Object size of slab class `i`: 16 bytes doubled `i` times.
pub open spec fn slab_size(i: int) -> int {
    16 * pages(i as nat) as int
}

/// Most pages a slab can hold.
pub const SLAB_MAX_PAGES: usize = 64;

/// Objects per page for an object size.
pub open spec fn objects_per_slab_for(size: int) -> int {
    if size < PAGE_SIZE as int {
        PAGE_SIZE as int / size
    } else {
        1
    }
}

/// What `Slab::allocate` does: the head object is handed out, after a
/// new page when no object is free.
pub open spec fn slab_alloc_post(
    v: SlabView,
    n: SlabView,
    ob: BuddyView,
    nb: BuddyView,
    r: Option<u64>,
) -> bool {
    &&& v.free_list.len() > 0 ==> same_buddy(ob, nb) && ({
        let off = v.free_list.last() as int;
        &&& r == Some(object_addr(v, off) as u64)
        &&& n == (SlabView {
            free_list: v.free_list.drop_last(),
            allocated_count: v.allocated_count + 1,
            ..v
        })
    })
    &&& v.free_list.len() == 0 && v.pages.len() >= SLAB_MAX_PAGES ==> r is None && n == v
        && same_buddy(ob, nb)
    &&& v.free_list.len() == 0 && v.pages.len() < SLAB_MAX_PAGES ==> ({
        let p = alloc_result(ob, slab_page_order(v.object_size));
        &&& alloc_post(ob, nb, slab_page_order(v.object_size), p)
        &&& p is None ==> r is None && n == v
        &&& p matches Some(page) ==> r == Some(page) && n == (SlabView {
            free_list: new_page_free_list(
                v.free_list,
                (v.pages.len() * v.objects_per_slab) as int,
                v.objects_per_slab as int,
            ).drop_last(),
            allocated_count: v.allocated_count + 1,
            pages: v.pages.push(page),
            ..v
        })
    })
}

/// What `Slab::free(addr)` does.
pub open spec fn slab_free_post(v: SlabView, n: SlabView, addr: u64) -> bool {
    match page_of(v.pages, addr, v.pages.len() as int) {
        None => n == v,
        Some(p) => n == (SlabView {
            free_list: v.free_list.push(
                (p * v.objects_per_slab as int + (addr - v.pages[p]) / v.object_size as int) as usize,
            ),
            allocated_count: (v.allocated_count - 1) as nat,
            ..v
        }),
    }
}

/// Slab for a specific object size
///
/// Free objects are numbered by page and position in the page; the free
/// list is a stack whose last entry is its head.
struct Slab {
    object_size: usize,
    objects_per_slab: usize,
    free_list: Vec<usize>,
    free_count: usize,
    allocated_count: usize,
    pages: Vec<u64>,
}

/// What a slab holds: object size, objects per page, free list (head
/// last), counts and pages.
pub struct SlabView {
    pub object_size: nat,
    pub objects_per_slab: nat,
    pub free_list: Seq<usize>,
    pub allocated_count: nat,
    pub pages: Seq<u64>,
}

/// The free list after a new page is added: its objects in order, the
/// first one at the head.
pub open spec fn new_page_free_list(old_list: Seq<usize>, base: int, n: int) -> Seq<usize> {
    old_list + Seq::new(n as nat, |j: int| (base + n - 1 - j) as usize)
}

/// Address of free-list entry `off` in a slab.
pub open spec fn object_addr(v: SlabView, off: int) -> int {
    v.pages[off / v.objects_per_slab as int] as int + (off % v.objects_per_slab as int)
        * v.object_size as int
}

/// First page of the slab holding `addr`.
pub open spec fn page_of(pages: Seq<u64>, addr: u64, n: int) -> Option<int>
    decreases n,
{
    if n <= 0 {
        None
    } else {
        match page_of(pages, addr, n - 1) {
            Some(p) => Some(p),
            None => if pages[n - 1] <= addr && (addr as int) < pages[n - 1] as int + PAGE_SIZE {
                Some(n - 1)
            } else {
                None
            },
        }
    }
}

impl Slab {
    spec fn view(&self) -> SlabView {
        SlabView {
            object_size: self.object_size as nat,
            objects_per_slab: self.objects_per_slab as nat,
            free_list: self.free_list@,
            allocated_count: self.allocated_count as nat,
            pages: self.pages@,
        }
    }

    spec fn wf(&self) -> bool {
        &&& self.object_size >= 16
        &&& self.objects_per_slab == objects_per_slab_for(self.object_size as int)
        &&& 1 <= self.objects_per_slab <= 256
        &&& self.object_size < PAGE_SIZE ==> self.object_size * self.objects_per_slab <= PAGE_SIZE
        &&& self.object_size < PAGE_SIZE ==> PAGE_SIZE as int % self.object_size as int == 0
        &&& self.free_count == self.free_list@.len()
        &&& self.free_list@.len() + self.allocated_count == self.pages@.len() * self.objects_per_slab
        &&& self.pages@.len() <= SLAB_MAX_PAGES
        &&& forall|i: int|
            0 <= i < self.free_list@.len() ==> #[trigger] self.free_list@[i] < self.pages@.len()
                * self.objects_per_slab
        &&& forall|i: int|
            0 <= i < self.pages@.len() ==> #[trigger] self.pages@[i] as int + PAGE_SIZE
                <= addr_limit()
    }

    fn new(size: usize) -> (r: Self)
        requires
            size >= 16,
            size < PAGE_SIZE ==> PAGE_SIZE as int % size as int == 0,
        ensures
            r.wf(),
            r.view() == (SlabView {
                object_size: size as nat,
                objects_per_slab: objects_per_slab_for(size as int) as nat,
                free_list: Seq::empty(),
                allocated_count: 0,
                pages: Seq::empty(),
            }),
    {
        let objects_per_slab = if size < PAGE_SIZE {
            PAGE_SIZE / size
        } else {
            1
        };
        proof {
            if size < PAGE_SIZE {
                assert(size * (PAGE_SIZE / size) <= PAGE_SIZE) by (nonlinear_arith)
                    requires
                        size > 0,
                ;
                assert(1 <= PAGE_SIZE / size <= 256) by (nonlinear_arith)
                    requires
                        16 <= size < PAGE_SIZE,
                ;
            }
        }
        Self {
            object_size: size,
            objects_per_slab,
            free_list: Vec::new(),
            free_count: 0,
            allocated_count: 0,
            pages: Vec::new(),
        }
    }

    /// Allocate an object from this slab, adding a page when no object is
    /// free.
    #[verifier::rlimit(60)]
    #[verifier::spinoff_prover]
    fn allocate(&mut self, buddy: &mut BuddyAllocator) -> (r: Option<u64>)
        requires
            old(self).wf(),
            old(buddy).wf(),
        ensures
            final(self).wf(),
            final(buddy).wf(),
            final(buddy).base() == old(buddy).base(),
            final(buddy).total() == old(buddy).total(),
            final(self).object_size == old(self).object_size,
            slab_alloc_post(old(self).view(), final(self).view(), old(buddy).view(), final(buddy).view(), r),
            r matches Some(a) ==> a as int + 16 <= addr_limit(),
    {
        let ghost v0 = self.view();
        if self.free_list.len() == 0 {
            if self.allocate_new_page(buddy).is_none() {
                return None;
            }
            proof {
                let pl = v0.pages.len() as int;
                let n = v0.objects_per_slab as int;
                assert((pl * n) / n == pl && (pl * n) % n == 0) by (nonlinear_arith)
                    requires
                        n >= 1,
                        pl >= 0,
                ;
                assert(self.free_list@.last() == pl * n);
                assert(self.pages@[pl] == alloc_result(old(buddy).view(), slab_page_order(v0.object_size)).unwrap());
            }
        }
        let ghost v = self.view();
        let offset = self.free_list.pop().unwrap();
        let page_idx = offset / self.objects_per_slab;
        let obj_idx = offset % self.objects_per_slab;
        proof {
            assert(v.free_list.last() == v.free_list[v.free_list.len() - 1]);
            assert(offset < self.pages@.len() * self.objects_per_slab);
            assert(page_idx < self.pages@.len()) by (nonlinear_arith)
                requires
                    offset < self.pages@.len() * self.objects_per_slab,
                    page_idx == offset / self.objects_per_slab,
                    self.objects_per_slab > 0,
            ;
            assert(self.pages@.len() * self.objects_per_slab <= 64 * 256) by (nonlinear_arith)
                requires
                    self.pages@.len() <= 64,
                    self.objects_per_slab <= 256,
            ;
            assert(obj_idx * self.object_size + 16 <= PAGE_SIZE) by (nonlinear_arith)
                requires
                    obj_idx < self.objects_per_slab,
                    self.object_size >= 16,
                    self.object_size < PAGE_SIZE ==> self.object_size * self.objects_per_slab
                        <= PAGE_SIZE,
                    self.object_size >= PAGE_SIZE ==> self.objects_per_slab == 1,
            ;
        }
        proof {
            if v0.free_list.len() == 0 {
                let pl = v0.pages.len() as int;
                let n = v0.objects_per_slab as int;
                assert(offset == pl * n);
                assert(page_idx == pl);
                assert(obj_idx == 0);
            }
        }
        let page_addr = self.pages[page_idx];
        let obj_addr = page_addr + (obj_idx * self.object_size) as u64;
        self.free_count = self.free_count - 1;
        self.allocated_count = self.allocated_count + 1;
        proof {
            assert(self.free_list@ =~= v.free_list.drop_last());
            assert(obj_addr as int == object_addr(v, offset as int));
            assert(obj_addr as int + 16 <= addr_limit());
        }
        Some(obj_addr)
    }
}

impl Slab {
    /// Add a page from the buddy allocator, a block large enough for one
    /// object where objects are larger than a page; its objects become the
    /// head of the free list, first object first.
    fn allocate_new_page(&mut self, buddy: &mut BuddyAllocator) -> (r: Option<u64>)
        requires
            old(self).wf(),
            old(buddy).wf(),
        ensures
            final(self).wf(),
            final(buddy).wf(),
            old(self).pages@.len() >= SLAB_MAX_PAGES ==> r is None && final(self).view() == old(
                self,
            ).view() && same_buddy(old(buddy).view(), final(buddy).view()),
            old(self).pages@.len() < SLAB_MAX_PAGES ==> ({
                let v = old(self).view();
                &&& r == alloc_result(old(buddy).view(), slab_page_order(v.object_size))
                &&& alloc_post(old(buddy).view(), final(buddy).view(), slab_page_order(v.object_size), r)
                &&& r is None ==> final(self).view() == v
                &&& r matches Some(page) ==> final(self).view() == (SlabView {
                    free_list: new_page_free_list(
                        v.free_list,
                        (v.pages.len() * v.objects_per_slab) as int,
                        v.objects_per_slab as int,
                    ),
                    pages: v.pages.push(page),
                    ..v
                }) && final(self).free_list@.len() > 0
            }),
    {
        if self.pages.len() >= SLAB_MAX_PAGES {
            return None;
        }
        let order = large_order_of(self.object_size);
        let page_addr = match buddy.allocate(order) {
            Some(a) => a,
            None => return None,
        };
        proof {
            assert(self.pages@.len() * self.objects_per_slab <= 64 * 256) by (nonlinear_arith)
                requires
                    self.pages@.len() <= 64,
                    self.objects_per_slab <= 256,
            ;
            assert((self.pages@.len() + 1) * self.objects_per_slab == self.pages@.len()
                * self.objects_per_slab + self.objects_per_slab) by (nonlinear_arith);
        }
        let base_offset = self.pages.len() * self.objects_per_slab;
        let ghost old_list = self.free_list@;
        let n = self.objects_per_slab;
        let mut i: usize = 0;
        while i < n
            invariant
                i <= n,
                n == self.objects_per_slab,
                n >= 1,
                self.pages@.len() < SLAB_MAX_PAGES,
                base_offset == self.pages@.len() * n,
                base_offset <= 64 * 256,
                self.free_list@ =~= old_list + Seq::new(
                    i as nat,
                    |j: int| (base_offset + n - 1 - j) as usize,
                ),
                n <= PAGE_SIZE,
                self.free_count == old_list.len(),
                old_list.len() <= 64 * 256,
                self.pages@ == old(self).pages@,
                self.object_size == old(self).object_size,
                self.allocated_count == old(self).allocated_count,
            decreases n - i,
        {
            self.free_list.push(base_offset + n - 1 - i);
            i = i + 1;
        }
        self.free_count = self.free_count + n;
        self.pages.push(page_addr);
        proof {
            assert forall|k: int|
                0 <= k < self.free_list@.len() implies #[trigger] self.free_list@[k]
                < self.pages@.len() * self.objects_per_slab by {
                if k < old_list.len() {
                    assert(old_list[k] < (self.pages@.len() - 1) * self.objects_per_slab);
                }
                assert((self.pages@.len() - 1) * n + n == self.pages@.len() * n) by (nonlinear_arith);
            }
            assert forall|k: int|
                0 <= k < self.pages@.len() implies #[trigger] self.pages@[k] as int + PAGE_SIZE
                <= addr_limit() by {
                if k == self.pages@.len() - 1 {
                    lemma_pages_pos(order as nat);
                    assert(block_bytes(order as nat) >= PAGE_SIZE);
                }
            }
        }
        Some(page_addr)
    }

    /// Free an object back to this slab: the object of the first page that
    /// holds `addr` becomes the head of the free list.  An address outside
    /// the slab's pages is ignored.
    fn free(&mut self, addr: u64)
        requires
            old(self).wf(),
            page_of(old(self).pages@, addr, old(self).pages@.len() as int) is Some ==> old(
                self,
            ).allocated_count > 0,
        ensures
            final(self).wf(),
            final(self).object_size == old(self).object_size,
            slab_free_post(old(self).view(), final(self).view(), addr),
    {
        let mut page_idx: usize = 0;
        while page_idx < self.pages.len() && !(self.pages[page_idx] <= addr && addr
            - self.pages[page_idx] < PAGE_SIZE as u64)
            invariant
                self.wf(),
                self.view() == old(self).view(),
                page_idx <= self.pages@.len(),
                page_of(self.pages@, addr, page_idx as int) is None,
            decreases self.pages@.len() - page_idx,
        {
            page_idx = page_idx + 1;
        }
        if page_idx >= self.pages.len() {
            proof {
                assert(page_of(self.pages@, addr, self.pages@.len() as int) is None);
            }
            return;
        }
        let page_addr = self.pages[page_idx];
        proof {
            assert(page_of(self.pages@, addr, page_idx as int + 1) == Some(page_idx as int));
            lemma_page_of_stable(self.pages@, addr, page_idx as int + 1, self.pages@.len() as int);
        }
        let obj_idx = ((addr - page_addr) / self.object_size as u64) as usize;
        proof {
            assert(obj_idx < self.objects_per_slab) by (nonlinear_arith)
                requires
                    obj_idx == (addr - page_addr) as int / self.object_size as int,
                    (addr - page_addr) < PAGE_SIZE,
                    self.object_size >= 16,
                    self.object_size < PAGE_SIZE ==> self.objects_per_slab == PAGE_SIZE as int
                        / self.object_size as int,
                    self.object_size < PAGE_SIZE ==> PAGE_SIZE as int % self.object_size as int
                        == 0,
                    self.object_size >= PAGE_SIZE ==> self.objects_per_slab == 1,
            ;
            assert(self.pages@.len() * self.objects_per_slab <= 64 * 256) by (nonlinear_arith)
                requires
                    self.pages@.len() <= 64,
                    self.objects_per_slab <= 256,
            ;
            assert(page_idx * self.objects_per_slab + obj_idx < self.pages@.len()
                * self.objects_per_slab) by (nonlinear_arith)
                requires
                    page_idx < self.pages@.len(),
                    obj_idx < self.objects_per_slab,
            ;
        }
        let offset = page_idx * self.objects_per_slab + obj_idx;
        self.free_list.push(offset);
        self.free_count = self.free_count + 1;
        self.allocated_count = self.allocated_count - 1;
    }
}

proof fn lemma_page_of_stable(pages: Seq<u64>, addr: u64, n: int, m: int)
    requires
        n <= m,
        page_of(pages, addr, n) is Some,
    ensures
        page_of(pages, addr, m) == page_of(pages, addr, n),
    decreases m - n,
{
    if n < m {
        lemma_page_of_stable(pages, addr, n, m - 1);
    }
}


// =============================================================================
// Slab allocator over all size classes
// =============================================================================

/// The slab class that serves `size`, searching from class `i` on.
pub open spec fn class_from(size: int, i: int) -> Option<int>
    decreases SLAB_CLASSES - i,
{
    if i < 0 || i >= SLAB_CLASSES {
        None
    } else if size <= slab_size(i) {
        Some(i)
    } else {
        class_from(size, i + 1)
    }
}

/// The smallest slab class whose objects hold `size` bytes, if any.
pub open spec fn slab_class(size: int) -> Option<int> {
    class_from(size, 0)
}

/// Pages needed for `size` bytes, rounded up.
pub open spec fn pages_for(size: int) -> int {
    (size + PAGE_SIZE - 1) / PAGE_SIZE as int
}

/// The smallest order whose blocks hold `p` pages: log2 of `p` rounded up.
pub open spec fn ceil_order(p: int) -> nat
    decreases p,
{
    if p <= 1 {
        0
    } else {
        1 + ceil_order((p + 1) / 2)
    }
}

/// The buddy order that serves `size` bytes past the largest slab class.
pub open spec fn large_order(size: int) -> nat {
    ceil_order(pages_for(size))
}

/// The buddy order of the blocks a slab of `object_size` objects takes:
/// one page, or the pages one object needs.
pub open spec fn slab_page_order(object_size: nat) -> usize {
    large_order(object_size as int) as usize
}

/// A block of order `ceil_order(p)` holds `p` pages, and half of it would
/// not.
pub proof fn lemma_ceil_order(p: int)
    requires
        p >= 1,
    ensures
        pages(ceil_order(p)) >= p,
        ceil_order(p) > 0 ==> pages((ceil_order(p) - 1) as nat) < p,
    decreases p,
{
    if p > 1 {
        lemma_ceil_order((p + 1) / 2);
    }
}

/// Slab allocator statistics
#[derive(Clone, Copy, Debug)]
pub struct SlabStats {
    pub allocations: u64,
    pub frees: u64,
    pub cache_hits: u64,
    pub cache_misses: u64,
}

/// What a slab allocator holds: one slab per size class, and statistics.
pub struct SlabAllocView {
    pub slabs: Seq<SlabView>,
    pub stats: SlabStats,
}

/// What `SlabAllocator::allocate(size)` does, from allocator state `o` to
/// `n`, buddy state `ob` to `nb`, with result `r`.
pub open spec fn slab_allocator_alloc_post(
    o: SlabAllocView,
    n: SlabAllocView,
    ob: BuddyView,
    nb: BuddyView,
    size: usize,
    r: Option<u64>,
) -> bool {
    match slab_class(size as int) {
        Some(i) => {
            let v = o.slabs[i];
            let st = o.stats;
            let hit = v.free_list.len() > 0;
            &&& n.slabs == o.slabs.update(i, n.slabs[i])
            &&& slab_alloc_post(v, n.slabs[i], ob, nb, r)
            &&& n.stats == (SlabStats {
                allocations: st.allocations.wrapping_add(1),
                cache_hits: if hit {
                    st.cache_hits.wrapping_add(1)
                } else {
                    st.cache_hits
                },
                cache_misses: if hit {
                    st.cache_misses
                } else {
                    st.cache_misses.wrapping_add(1)
                },
                ..st
            })
        },
        None => {
            &&& n == o
            &&& r == alloc_result(ob, large_order(size as int) as usize)
            &&& alloc_post(ob, nb, large_order(size as int) as usize, r)
        },
    }
}

/// What `SlabAllocator::free(addr, size)` does.
pub open spec fn slab_allocator_free_post(
    o: SlabAllocView,
    n: SlabAllocView,
    ob: BuddyView,
    nb: BuddyView,
    addr: u64,
    size: usize,
) -> bool {
    match slab_class(size as int) {
        Some(i) => {
            &&& n.slabs == o.slabs.update(i, n.slabs[i])
            &&& slab_free_post(o.slabs[i], n.slabs[i], addr)
            &&& n.stats == (SlabStats { frees: o.stats.frees.wrapping_add(1), ..o.stats })
            &&& same_buddy(ob, nb)
        },
        None => {
            &&& n == o
            &&& free_post(ob, nb, addr, large_order(size as int) as usize)
        },
    }
}

/// The inputs on which `SlabAllocator::free(addr, size)` keeps its
/// counters from running below zero.
pub open spec fn slab_free_ok(o: SlabAllocView, ob: BuddyView, addr: u64, size: usize) -> bool {
    match slab_class(size as int) {
        Some(i) => page_of(o.slabs[i].pages, addr, o.slabs[i].pages.len() as int) is Some
            ==> o.slabs[i].allocated_count > 0,
        None => {
            let order = large_order(size as int);
            order < MAX_ORDER ==> ob.stats.pages_allocated >= pages(order) && addr as int
                + block_bytes(order) <= addr_limit()
        },
    }
}

/// Slab allocator managing multiple slab caches
pub struct SlabAllocator {
    slabs: Vec<Slab>,
    stats: SlabStats,
}

/// The class that serves `size`, and the object size of that class.
fn find_class(size: usize) -> (r: (usize, usize))
    ensures
        r.0 <= SLAB_CLASSES,
        slab_class(size as int) == (if r.0 < SLAB_CLASSES {
            Some(r.0 as int)
        } else {
            None::<int>
        }),
        r.0 < SLAB_CLASSES ==> r.1 == slab_size(r.0 as int),
{
    let mut i: usize = 0;
    let mut sz: usize = 16;
    while i < SLAB_CLASSES && size > sz
        invariant
            i <= SLAB_CLASSES,
            sz == slab_size(i as int),
            sz <= 16 * 65536,
            class_from(size as int, 0) == class_from(size as int, i as int),
        decreases SLAB_CLASSES - i,
    {
        proof {
            lemma_pages_mono(i as nat, 15);
            reveal_with_fuel(pages, 16);
            assert(pages(15) == 32768);
            assert(pages((i + 1) as nat) == 2 * pages(i as nat));
        }
        sz = sz * 2;
        i = i + 1;
    }
    (i, sz)
}

/// The buddy order for an allocation past the largest slab class:
/// the pages it needs, rounded up to a power of two.
fn large_order_of(size: usize) -> (r: usize)
    ensures
        r == large_order(size as int),
{
    let mut q: usize = size / PAGE_SIZE;
    if size % PAGE_SIZE != 0 {
        q = q + 1;
    }
    assert(q == pages_for(size as int));
    let mut k: usize = 0;
    proof {
        if q >= 1 {
            lemma_ceil_order_small(q as int);
        }
    }
    while q > 1
        invariant
            k + ceil_order(q as int) == ceil_order(pages_for(size as int)),
            ceil_order(pages_for(size as int)) <= 52,
        decreases q,
    {
        q = q / 2 + q % 2;
        k = k + 1;
    }
    k
}

proof fn lemma_ceil_order_small(q: int)
    requires
        1 <= q <= 0x10_0000_0000_0000,
    ensures
        ceil_order(q) <= 52,
{
    lemma_ceil_order(q);
    if ceil_order(q) > 52 {
        lemma_pages_mono(52, (ceil_order(q) - 1) as nat);
        lemma_pages_pow2(52);
        lemma2_to64_rest();
        assert(pages(52) == 0x10_0000_0000_0000);
    }
}

/// The object sizes below a page divide the page.
proof fn lemma_small_class_divides(i: int)
    requires
        0 <= i < 8,
    ensures
        PAGE_SIZE as int % slab_size(i) == 0,
{
    reveal_with_fuel(pages, 9);
    if i == 0 {
        assert(slab_size(0) == 16);
        assert(4096int % 16int == 0);
    } else if i == 1 {
        assert(slab_size(1) == 32);
        assert(4096int % 32int == 0);
    } else if i == 2 {
        assert(slab_size(2) == 64);
        assert(4096int % 64int == 0);
    } else if i == 3 {
        assert(slab_size(3) == 128);
        assert(4096int % 128int == 0);
    } else if i == 4 {
        assert(slab_size(4) == 256);
        assert(4096int % 256int == 0);
    } else if i == 5 {
        assert(slab_size(5) == 512);
        assert(4096int % 512int == 0);
    } else if i == 6 {
        assert(slab_size(6) == 1024);
        assert(4096int % 1024int == 0);
    } else {
        assert(slab_size(7) == 2048);
        assert(4096int % 2048int == 0);
    }
}

impl SlabAllocator {
    pub closed spec fn view(&self) -> SlabAllocView {
        SlabAllocView {
            slabs: Seq::new(self.slabs@.len(), |i: int| self.slabs@[i].view()),
            stats: self.stats,
        }
    }

    /// One well-formed slab per class, of that class's object size.
    pub closed spec fn wf(&self) -> bool {
        &&& self.slabs@.len() == SLAB_CLASSES
        &&& forall|i: int|
            0 <= i < SLAB_CLASSES ==> (#[trigger] self.slabs@[i]).wf() && self.slabs@[i].object_size
                == slab_size(i)
    }

    /// Create an allocator with an empty slab for each class.
    pub fn new() -> (r: Self)
        ensures
            r.wf(),
            r.view().stats == (SlabStats { allocations: 0, frees: 0, cache_hits: 0, cache_misses: 0 }),
            forall|i: int|
                0 <= i < SLAB_CLASSES ==> (#[trigger] r.view().slabs[i]).free_list.len() == 0
                    && r.view().slabs[i].pages.len() == 0 && r.view().slabs[i].allocated_count == 0,
    {
        let mut slabs: Vec<Slab> = Vec::new();
        let mut i: usize = 0;
        let mut sz: usize = 16;
        while i < SLAB_CLASSES
            invariant
                i <= SLAB_CLASSES,
                sz == slab_size(i as int),
                slabs@.len() == i,
                forall|j: int|
                    0 <= j < i ==> (#[trigger] slabs@[j]).wf() && slabs@[j].object_size == slab_size(j)
                        && slabs@[j].free_list@.len() == 0 && slabs@[j].pages@.len() == 0
                        && slabs@[j].allocated_count == 0,
            decreases SLAB_CLASSES - i,
        {
            proof {
                lemma_pages_pos(i as nat);
                lemma_pages_mono(i as nat, 15);
                reveal_with_fuel(pages, 16);
                assert(pages(15) == 32768);
                assert(pages((i + 1) as nat) == 2 * pages(i as nat));
                if sz < PAGE_SIZE {
                    assert(i < 8) by {
                        if i >= 8 {
                            lemma_pages_mono(8, i as nat);
                        }
                    }
                    lemma_small_class_divides(i as int);
                }
            }
            slabs.push(Slab::new(sz));
            sz = sz * 2;
            i = i + 1;
        }
        SlabAllocator {
            slabs,
            stats: SlabStats { allocations: 0, frees: 0, cache_hits: 0, cache_misses: 0 },
        }
    }

    /// Allocate memory from slab cache
    ///
    /// A size that no class holds goes to the buddy allocator, in a block
    /// of the pages it needs rounded up to a power of two.
    pub fn allocate(&mut self, size: usize, buddy: &mut BuddyAllocator) -> (r: Option<u64>)
        requires
            old(self).wf(),
            old(buddy).wf(),
        ensures
            final(self).wf(),
            final(buddy).wf(),
            final(buddy).base() == old(buddy).base(),
            final(buddy).total() == old(buddy).total(),
            slab_allocator_alloc_post(
                old(self).view(),
                final(self).view(),
                old(buddy).view(),
                final(buddy).view(),
                size,
                r,
            ),
            r matches Some(a) ==> a as int + 16 <= addr_limit(),
    {
        let (i, _sz) = find_class(size);
        if i < SLAB_CLASSES {
            let hit = self.slabs[i].free_count > 0;
            self.stats.allocations = self.stats.allocations.wrapping_add(1);
            if hit {
                self.stats.cache_hits = self.stats.cache_hits.wrapping_add(1);
            } else {
                self.stats.cache_misses = self.stats.cache_misses.wrapping_add(1);
            }
            let ghost before = self.slabs@;
            let r = self.slabs[i].allocate(buddy);
            proof {
                assert forall|j: int| 0 <= j < SLAB_CLASSES implies (#[trigger] self.slabs@[j]).wf()
                    && self.slabs@[j].object_size == slab_size(j) by {
                    if j != i {
                        assert(self.slabs@[j] == before[j]);
                    }
                }
                assert(self.view().slabs =~= old(self).view().slabs.update(
                    i as int,
                    self.view().slabs[i as int],
                ));
            }
            r
        } else {
            let order = large_order_of(size);
            proof {
                lemma_pages_pos(order as nat);
            }
            let r = buddy.allocate(order);
            proof {
                assert(self.view().slabs =~= old(self).view().slabs);
            }
            r
        }
    }

    /// Free memory back to slab cache
    pub fn free(&mut self, addr: u64, size: usize, buddy: &mut BuddyAllocator)
        requires
            old(self).wf(),
            old(buddy).wf(),
            slab_free_ok(old(self).view(), old(buddy).view(), addr, size),
        ensures
            final(self).wf(),
            final(buddy).wf(),
            final(buddy).base() == old(buddy).base(),
            final(buddy).total() == old(buddy).total(),
            slab_allocator_free_post(
                old(self).view(),
                final(self).view(),
                old(buddy).view(),
                final(buddy).view(),
                addr,
                size,
            ),
    {
        let (i, _sz) = find_class(size);
        if i < SLAB_CLASSES {
            self.stats.frees = self.stats.frees.wrapping_add(1);
            let ghost before = self.slabs@;
            self.slabs[i].free(addr);
            proof {
                assert forall|j: int| 0 <= j < SLAB_CLASSES implies (#[trigger] self.slabs@[j]).wf()
                    && self.slabs@[j].object_size == slab_size(j) by {
                    if j != i {
                        assert(self.slabs@[j] == before[j]);
                    }
                }
                assert(self.view().slabs =~= old(self).view().slabs.update(
                    i as int,
                    self.view().slabs[i as int],
                ));
            }
        } else {
            let order = large_order_of(size);
            buddy.free(addr, order);
            proof {
                assert(self.view().slabs =~= old(self).view().slabs);
            }
        }
    }

    /// Get allocator statistics
    pub fn stats(&self) -> (r: SlabStats)
        ensures
            r == self.view().stats,
    {
        self.stats
    }
}


// =============================================================================
// Kernel Heap Allocator
// =============================================================================

/// Heap statistics
#[derive(Clone, Copy, Debug)]
pub struct HeapStats {
    pub total_allocations: u64,
    pub total_frees: u64,
    pub bytes_allocated: u64,
    pub bytes_freed: u64,
    pub peak_usage: u64,
}

/// What a kernel heap holds: its buddy and slab allocators, statistics,
/// and the header of each live block (header address, recorded size).
pub struct HeapView {
    pub buddy: BuddyView,
    pub slab: SlabAllocView,
    pub stats: HeapStats,
    pub blocks: Seq<(u64, u32)>,
}

/// Statistics after a successful allocation of `size` bytes: the usage
/// peak follows the bytes in use.
pub open spec fn heap_alloc_stats(st: HeapStats, size: usize) -> HeapStats {
    let allocated = st.bytes_allocated.wrapping_add(size as u64);
    let current = allocated.wrapping_sub(st.bytes_freed);
    HeapStats {
        total_allocations: st.total_allocations.wrapping_add(1),
        bytes_allocated: allocated,
        peak_usage: if current > st.peak_usage {
            current
        } else {
            st.peak_usage
        },
        ..st
    }
}

/// What `KernelHeap::allocate(size)` does: a block of `size` bytes plus
/// its header comes from the slab allocator, the header is recorded, and
/// the address past the header is returned.
pub open spec fn heap_alloc_post(o: HeapView, n: HeapView, size: usize, r: Option<u64>) -> bool {
    &&& size == 0 ==> r is None && n == o
    &&& size > 0 ==> {
        let rs = match r {
            Some(a) => Some((a - HEAP_HEADER_SIZE) as u64),
            None => None,
        };
        &&& r matches Some(a) ==> a >= HEAP_HEADER_SIZE
        &&& slab_allocator_alloc_post(
            o.slab,
            n.slab,
            o.buddy,
            n.buddy,
            (size + HEAP_HEADER_SIZE) as usize,
            rs,
        )
        &&& r is None ==> n.stats == o.stats && n.blocks == o.blocks
        &&& r matches Some(a) ==> n.stats == heap_alloc_stats(o.stats, size) && n.blocks
            == o.blocks.push(((a - HEAP_HEADER_SIZE) as u64, size as u32))
    }
}

/// The last live block whose header stands at `h`, among the first `n`.
pub open spec fn last_block(blocks: Seq<(u64, u32)>, h: u64, n: int) -> Option<int>
    decreases n,
{
    if n <= 0 {
        None
    } else if blocks[n - 1].0 == h {
        Some(n - 1)
    } else {
        last_block(blocks, h, n - 1)
    }
}

/// The header address of the block handed out at `addr`.
pub open spec fn header_of(addr: u64) -> u64 {
    (addr - HEAP_HEADER_SIZE) as u64
}

/// What `KernelHeap::free(addr)` does: a null address, or one without a
/// live header, is ignored; otherwise the header's block goes back to
/// the slab allocator.
pub open spec fn heap_free_post(o: HeapView, n: HeapView, addr: u64) -> bool {
    if addr == 0 {
        n == o
    } else {
        match last_block(o.blocks, header_of(addr), o.blocks.len() as int) {
            None => n == o,
            Some(i) => {
                let sz = o.blocks[i].1;
                &&& n.blocks == o.blocks.remove(i)
                &&& n.stats == (HeapStats {
                    total_frees: o.stats.total_frees.wrapping_add(1),
                    bytes_freed: o.stats.bytes_freed.wrapping_add(sz as u64),
                    ..o.stats
                })
                &&& slab_allocator_free_post(
                    o.slab,
                    n.slab,
                    o.buddy,
                    n.buddy,
                    header_of(addr),
                    (sz + HEAP_HEADER_SIZE) as usize,
                )
            },
        }
    }
}

/// The inputs `KernelHeap::free` accepts: the address lies past a header,
/// and the block's return keeps the allocators' counters in range.
pub open spec fn heap_free_ok(o: HeapView, addr: u64) -> bool {
    addr != 0 ==> {
        &&& addr >= HEAP_HEADER_SIZE
        &&& last_block(o.blocks, header_of(addr), o.blocks.len() as int) matches Some(i)
            ==> slab_free_ok(
            o.slab,
            o.buddy,
            header_of(addr),
            (o.blocks[i].1 + HEAP_HEADER_SIZE) as usize,
        )
    }
}

/// The heap after `init(base, size)`.
pub open spec fn heap_after_init(o: HeapView, base: u64, size: u64) -> HeapView {
    HeapView { buddy: buddy_after_init(o.buddy, base, size), ..o }
}

proof fn lemma_last_block(blocks: Seq<(u64, u32)>, h: u64, n: int)
    requires
        0 <= n <= blocks.len(),
    ensures
        last_block(blocks, h, n) matches Some(i) ==> 0 <= i < n && blocks[i].0 == h,
        last_block(blocks, h, n) is None ==> forall|j: int| 0 <= j < n ==> blocks[j].0 != h,
    decreases n,
{
    if n > 0 {
        lemma_last_block(blocks, h, n - 1);
    }
}

/// Global kernel heap allocator combining buddy and slab allocators
///
/// Each block carries a header in front of it; the heap keeps the headers
/// of its live blocks, newest last.
pub struct KernelHeap {
    buddy: BuddyAllocator,
    slab: SlabAllocator,
    stats: HeapStats,
    blocks: Vec<(u64, u32)>,
}

impl KernelHeap {
    pub closed spec fn view(&self) -> HeapView {
        HeapView {
            buddy: self.buddy.view(),
            slab: self.slab.view(),
            stats: self.stats,
            blocks: self.blocks@,
        }
    }

    /// Headers record sizes that, with the header, fit in `usize`.
    closed spec fn blocks_ok(&self) -> bool {
        forall|i: int|
            0 <= i < self.blocks@.len() ==> #[trigger] self.blocks@[i].1 as int + HEAP_HEADER_SIZE
                <= usize::MAX
    }

    /// Ready to allocate and free.
    pub closed spec fn wf(&self) -> bool {
        &&& self.buddy.wf()
        &&& self.slab.wf()
        &&& self.blocks_ok()
    }

    /// Ready to take a region with `init`.
    pub closed spec fn can_init(&self) -> bool {
        &&& self.buddy.shape_ok()
        &&& self.slab.wf()
        &&& self.blocks_ok()
    }

    /// No memory given yet and nothing allocated.
    pub closed spec fn is_fresh(&self) -> bool {
        &&& self.buddy.is_fresh()
        &&& self.slab.wf()
        &&& self.blocks@.len() == 0
    }

    /// Create a heap with no memory.
    pub fn new() -> (r: Self)
        ensures
            r.is_fresh(),
            r.can_init(),
            r.view().stats == (HeapStats {
                total_allocations: 0,
                total_frees: 0,
                bytes_allocated: 0,
                bytes_freed: 0,
                peak_usage: 0,
            }),
            r.view().buddy == (BuddyView {
                lists: Seq::new(MAX_ORDER as nat, |o: int| Seq::<u64>::empty()),
                nodes_used: 0,
                base: 0,
                total: 0,
                stats: BuddyStats { allocations: 0, frees: 0, splits: 0, merges: 0, pages_allocated: 0, pages_free: 0 },
            }),
            r.view().slab.stats == (SlabStats { allocations: 0, frees: 0, cache_hits: 0, cache_misses: 0 }),
            forall|i: int|
                0 <= i < SLAB_CLASSES ==> (#[trigger] r.view().slab.slabs[i]).free_list.len() == 0
                    && r.view().slab.slabs[i].pages.len() == 0 && r.view().slab.slabs[i].allocated_count == 0,
            r.view().blocks == Seq::<(u64, u32)>::empty(),
    {
        let r = KernelHeap {
            buddy: BuddyAllocator::new(),
            slab: SlabAllocator::new(),
            stats: HeapStats {
                total_allocations: 0,
                total_frees: 0,
                bytes_allocated: 0,
                bytes_freed: 0,
                peak_usage: 0,
            },
            blocks: Vec::new(),
        };
        r
    }

    /// Initialize the kernel heap
    pub fn init(&mut self, base: u64, size: u64)
        requires
            old(self).can_init(),
            base % 4096 == 0,
            (base as int + size as int) < addr_limit(),
        ensures
            final(self).can_init(),
            final(self).view() == heap_after_init(old(self).view(), base, size),
            old(self).is_fresh() ==> final(self).wf() && final(self).is_initialized(),
    {
        self.buddy.init(base, size);
    }

    /// The heap was fresh and has been given its region.
    pub closed spec fn is_initialized(&self) -> bool {
        self.blocks@.len() == 0
    }

    /// Allocate memory from kernel heap
    ///
    /// Returns the address past the block's header, or `None` for a zero
    /// size or when no memory is left.
    pub fn allocate(&mut self, size: usize) -> (r: Option<u64>)
        requires
            old(self).wf(),
            size + HEAP_HEADER_SIZE <= usize::MAX,
        ensures
            final(self).wf(),
            heap_alloc_post(old(self).view(), final(self).view(), size, r),
    {
        if size == 0 {
            return None;
        }
        let total_size = size + HEAP_HEADER_SIZE;
        let addr = match self.slab.allocate(total_size, &mut self.buddy) {
            Some(a) => a,
            None => return None,
        };
        self.blocks.push((addr, size as u32));
        self.stats.total_allocations = self.stats.total_allocations.wrapping_add(1);
        self.stats.bytes_allocated = self.stats.bytes_allocated.wrapping_add(size as u64);
        let current_usage = self.stats.bytes_allocated.wrapping_sub(self.stats.bytes_freed);
        if current_usage > self.stats.peak_usage {
            self.stats.peak_usage = current_usage;
        }
        proof {
            assert forall|i: int| 0 <= i < self.blocks@.len() implies #[trigger] self.blocks@[i].1
                as int + HEAP_HEADER_SIZE <= usize::MAX by {
                if i < self.blocks@.len() - 1 {
                    assert(self.blocks@[i] == old(self).blocks@[i]);
                } else {
                    assert((size as u32) as int <= size as int) by (bit_vector);
                }
            }
        }
        Some(addr + HEAP_HEADER_SIZE as u64)
    }

    /// Free memory back to kernel heap
    ///
    /// An address without a live header is reported and ignored.
    pub fn free(&mut self, addr: u64)
        requires
            old(self).wf(),
            heap_free_ok(old(self).view(), addr),
        ensures
            final(self).wf(),
            heap_free_post(old(self).view(), final(self).view(), addr),
    {
        if addr == 0 {
            return;
        }
        let header_addr = addr - HEAP_HEADER_SIZE as u64;
        let mut i: usize = self.blocks.len();
        while i > 0 && self.blocks[i - 1].0 != header_addr
            invariant
                i <= self.blocks@.len(),
                last_block(self.blocks@, header_addr, self.blocks@.len() as int) == last_block(
                    self.blocks@,
                    header_addr,
                    i as int,
                ),
            decreases i,
        {
            i = i - 1;
        }
        if i == 0 {
            return;
        }
        let idx = i - 1;
        let (_h, size) = self.blocks.remove(idx);
        let total_size = size as usize + HEAP_HEADER_SIZE;
        self.stats.total_frees = self.stats.total_frees.wrapping_add(1);
        self.stats.bytes_freed = self.stats.bytes_freed.wrapping_add(size as u64);
        self.slab.free(header_addr, total_size, &mut self.buddy);
        proof {
            assert forall|j: int| 0 <= j < self.blocks@.len() implies #[trigger] self.blocks@[j].1
                as int + HEAP_HEADER_SIZE <= usize::MAX by {
                if j < idx {
                    assert(self.blocks@[j] == old(self).blocks@[j]);
                } else {
                    assert(self.blocks@[j] == old(self).blocks@[j + 1]);
                }
            }
        }
    }

    /// Get heap statistics
    pub fn stats(&self) -> (r: (HeapStats, BuddyStats, SlabStats))
        ensures
            r == (self.view().stats, self.view().buddy.stats, self.view().slab.stats),
    {
        (self.stats, self.buddy.stats(), self.slab.stats())
    }
}


// =============================================================================
// Heap entry points
// =============================================================================

/// Initialize the kernel heap
pub fn init_kernel_heap(heap: &mut KernelHeap, base: u64, size: u64)
    requires
        old(heap).can_init(),
        base % 4096 == 0,
        (base as int + size as int) < addr_limit(),
    ensures
        final(heap).can_init(),
        final(heap).view() == heap_after_init(old(heap).view(), base, size),
        old(heap).is_fresh() ==> final(heap).wf(),
{
    heap.init(base, size);
}

/// Allocate memory from kernel heap
pub fn kalloc(heap: &mut KernelHeap, size: usize) -> (r: Option<u64>)
    requires
        old(heap).wf(),
        size + HEAP_HEADER_SIZE <= usize::MAX,
    ensures
        final(heap).wf(),
        heap_alloc_post(old(heap).view(), final(heap).view(), size, r),
{
    heap.allocate(size)
}

/// Free memory back to kernel heap; a null pointer is ignored.
pub fn kfree(heap: &mut KernelHeap, ptr: u64)
    requires
        old(heap).wf(),
        heap_free_ok(old(heap).view(), ptr),
    ensures
        final(heap).wf(),
        heap_free_post(old(heap).view(), final(heap).view(), ptr),
{
    if ptr == 0 {
        return;
    }
    heap.free(ptr);
}

/// The figures of the kernel memory statistics report.
#[derive(Clone, Copy, Debug)]
pub struct MemoryReport {
    pub heap: HeapStats,
    pub buddy: BuddyStats,
    pub slab: SlabStats,
    /// Allocations not yet freed.
    pub active_allocations: u64,
    pub bytes_allocated_kb: u64,
    pub bytes_freed_kb: u64,
    pub current_usage_kb: u64,
    pub peak_usage_kb: u64,
    /// Percentage of slab allocations served from a free object, when
    /// there was any slab allocation.
    pub cache_hit_rate: Option<u64>,
}

/// The report for the given statistics.
pub open spec fn report_of(h: HeapStats, b: BuddyStats, s: SlabStats) -> MemoryReport {
    MemoryReport {
        heap: h,
        buddy: b,
        slab: s,
        active_allocations: h.total_allocations.wrapping_sub(h.total_frees),
        bytes_allocated_kb: h.bytes_allocated / 1024,
        bytes_freed_kb: h.bytes_freed / 1024,
        current_usage_kb: h.bytes_allocated.wrapping_sub(h.bytes_freed) / 1024,
        peak_usage_kb: h.peak_usage / 1024,
        cache_hit_rate: if s.allocations > 0 {
            Some(s.cache_hits.wrapping_mul(100) / s.allocations)
        } else {
            None
        },
    }
}

/// Comprehensive memory statistics of a heap, for printing.
pub fn memory_report(heap: &KernelHeap) -> (r: MemoryReport)
    ensures
        r == report_of(heap.view().stats, heap.view().buddy.stats, heap.view().slab.stats),
{
    let (h, b, s) = heap.stats();
    let rate = if s.allocations > 0 {
        Some(s.cache_hits.wrapping_mul(100) / s.allocations)
    } else {
        None
    };
    MemoryReport {
        heap: h,
        buddy: b,
        slab: s,
        active_allocations: h.total_allocations.wrapping_sub(h.total_frees),
        bytes_allocated_kb: h.bytes_allocated / 1024,
        bytes_freed_kb: h.bytes_freed / 1024,
        current_usage_kb: h.bytes_allocated.wrapping_sub(h.bytes_freed) / 1024,
        peak_usage_kb: h.peak_usage / 1024,
        cache_hit_rate: rate,
    }
}

// =============================================================================
// Memory Zone Management (like Linux zones)
// =============================================================================

/// Memory zones for different types of memory
#[derive(Debug, Clone, Copy, PartialEq, Eq, Structural)]
pub enum MemoryZone {
    /// DMA-capable memory (< 16MB)
    Dma,
    /// Normal kernel memory (16MB - 896MB)
    Normal,
    /// High memory (> 896MB, if applicable)
    High,
}

/// The heap of zone `z` after the first `n` entries of a memory map were
/// given to `init`.
pub open spec fn zone_after(
    v: HeapView,
    memmap: Seq<(u64, u64, MemoryZone)>,
    z: MemoryZone,
    n: int,
) -> HeapView
    decreases n,
{
    if n <= 0 {
        v
    } else {
        let prev = zone_after(v, memmap, z, n - 1);
        let (base, size, zone) = memmap[n - 1];
        if zone == z {
            heap_after_init(prev, base, size)
        } else {
            prev
        }
    }
}

/// Every region of a memory map is page-aligned and ends in the address
/// space.
pub open spec fn memmap_ok(memmap: Seq<(u64, u64, MemoryZone)>) -> bool {
    forall|i: int|
        0 <= i < memmap.len() ==> (#[trigger] memmap[i]).0 % 4096 == 0 && (memmap[i].0 as int
            + memmap[i].1 as int) < addr_limit()
}

/// One kernel heap per memory zone.
pub struct ZoneAllocator {
    dma_heap: KernelHeap,
    normal_heap: KernelHeap,
    high_heap: KernelHeap,
}

impl ZoneAllocator {
    /// The heap of a zone.
    pub closed spec fn zone(&self, z: MemoryZone) -> HeapView {
        match z {
            MemoryZone::Dma => self.dma_heap.view(),
            MemoryZone::Normal => self.normal_heap.view(),
            MemoryZone::High => self.high_heap.view(),
        }
    }

    /// The heap of the zone is ready to allocate.
    pub closed spec fn zone_wf(&self, z: MemoryZone) -> bool {
        match z {
            MemoryZone::Dma => self.dma_heap.wf(),
            MemoryZone::Normal => self.normal_heap.wf(),
            MemoryZone::High => self.high_heap.wf(),
        }
    }

    /// Every heap can take a region.
    pub closed spec fn can_init(&self) -> bool {
        &&& self.dma_heap.can_init()
        &&& self.normal_heap.can_init()
        &&& self.high_heap.can_init()
    }

    /// Create zone heaps with no memory.
    pub fn new() -> (r: Self)
        ensures
            r.can_init(),
    {
        ZoneAllocator {
            dma_heap: KernelHeap::new(),
            normal_heap: KernelHeap::new(),
            high_heap: KernelHeap::new(),
        }
    }

    /// Give each region of the memory map to the heap of its zone.
    pub fn init(&mut self, memmap: &[(u64, u64, MemoryZone)])
        requires
            old(self).can_init(),
            memmap_ok(memmap@),
        ensures
            final(self).can_init(),
            forall|z: MemoryZone|
                #[trigger] final(self).zone(z) == zone_after(
                    old(self).zone(z),
                    memmap@,
                    z,
                    memmap@.len() as int,
                ),
    {
        let mut i: usize = 0;
        while i < memmap.len()
            invariant
                i <= memmap@.len(),
                self.can_init(),
                memmap_ok(memmap@),
                forall|z: MemoryZone|
                    #[trigger] self.zone(z) == zone_after(old(self).zone(z), memmap@, z, i as int),
            decreases memmap@.len() - i,
        {
            let (base, size, zone) = memmap[i];
            assert(memmap_ok(memmap@) ==> memmap@[i as int].0 % 4096 == 0);
            let ghost pre: ZoneAllocator = *self;
            match zone {
                MemoryZone::Dma => self.dma_heap.init(base, size),
                MemoryZone::Normal => self.normal_heap.init(base, size),
                MemoryZone::High => self.high_heap.init(base, size),
            }
            proof {
                assert forall|z: MemoryZone| #[trigger]
                    self.zone(z) == zone_after(old(self).zone(z), memmap@, z, i + 1) by {
                    assert(memmap@[i as int] == (base, size, zone));
                    assert(pre.zone(z) == zone_after(old(self).zone(z), memmap@, z, i as int));
                    if z == zone {
                        assert(self.zone(z) == heap_after_init(pre.zone(z), base, size));
                    } else {
                        assert(self.zone(z) == pre.zone(z));
                    }
                }
            }
            i = i + 1;
        }
    }

    /// Allocate from the heap of a zone.
    pub fn allocate(&mut self, size: usize, zone: MemoryZone) -> (r: Option<u64>)
        requires
            old(self).zone_wf(zone),
            size + HEAP_HEADER_SIZE <= usize::MAX,
        ensures
            final(self).zone_wf(zone),
            heap_alloc_post(old(self).zone(zone), final(self).zone(zone), size, r),
            forall|z: MemoryZone| z != zone ==> #[trigger] final(self).zone(z) == old(self).zone(z),
    {
        match zone {
            MemoryZone::Dma => self.dma_heap.allocate(size),
            MemoryZone::Normal => self.normal_heap.allocate(size),
            MemoryZone::High => self.high_heap.allocate(size),
        }
    }
}

/// Allocate from specific memory zone
pub fn zalloc(zones: &mut ZoneAllocator, size: usize, zone: MemoryZone) -> (r: Option<u64>)
    requires
        old(zones).zone_wf(zone),
        size + HEAP_HEADER_SIZE <= usize::MAX,
    ensures
        final(zones).zone_wf(zone),
        heap_alloc_post(old(zones).zone(zone), final(zones).zone(zone), size, r),
        forall|z: MemoryZone| z != zone ==> #[trigger] final(zones).zone(z) == old(zones).zone(z),
{
    zones.allocate(size, zone)
}

} // verus!

verus! {

// =============================================================================
// Buddy allocator laws: alignment
// =============================================================================

/// Every free block starts at a multiple of its own size.
pub open spec fn blocks_aligned(ls: Seq<Seq<u64>>) -> bool {
    forall|o: int, i: int|
        0 <= o < ls.len() && 0 <= i < ls[o].len() ==> (#[trigger] ls[o][i]) as int % block_bytes(o as nat)
            == 0
}

/// A block size is twice the size of the order below.
proof fn lemma_block_double(o: nat)
    requires
        o > 0,
    ensures
        block_bytes(o) == 2 * block_bytes((o - 1) as nat),
{
    assert(pages(o) == 2 * pages((o - 1) as nat));
    assert(PAGE_SIZE as int * (2 * pages((o - 1) as nat)) == 2 * (PAGE_SIZE as int * pages((o - 1) as nat)))
        by (nonlinear_arith);
}

/// An address aligned to a block size is aligned to every smaller one.
proof fn lemma_aligned_down(x: int, s: nat, lo: nat)
    requires
        lo <= s,
        x % block_bytes(s) == 0,
    ensures
        x % block_bytes(lo) == 0,
    decreases s - lo,
{
    lemma_pages_pos(s);
    if lo < s {
        lemma_block_double(s);
        lemma_pages_pos((s - 1) as nat);
        let b = block_bytes((s - 1) as nat);
        assert(x % b == 0) by {
            vstd::arithmetic::div_mod::lemma_fundamental_div_mod(x, 2 * b);
            let q = x / (2 * b);
            assert(x == (2 * q) * b) by (nonlinear_arith)
                requires
                    x == (2 * b) * q + x % (2 * b),
                    x % (2 * b) == 0,
            ;
            vstd::arithmetic::div_mod::lemma_mod_multiples_basic(2 * q, b);
        }
        lemma_aligned_down(x, (s - 1) as nat, lo);
    }
}

/// The upper half of a block aligned to order `s` is aligned to order
/// `s - 1`.
proof fn lemma_upper_half_aligned(x: int, s: nat)
    requires
        s > 0,
        x % block_bytes(s) == 0,
    ensures
        (x + block_bytes((s - 1) as nat)) % block_bytes((s - 1) as nat) == 0,
{
    lemma_pages_pos((s - 1) as nat);
    lemma_aligned_down(x, s, (s - 1) as nat);
    let b = block_bytes((s - 1) as nat);
    vstd::arithmetic::div_mod::lemma_add_mod_noop(x, b, b);
    vstd::arithmetic::div_mod::lemma_mod_self_0(b);
    vstd::arithmetic::div_mod::lemma_small_mod(0, b as nat);
}

/// Recording an aligned block keeps the lists aligned.
proof fn lemma_add_block_aligned(ls: Seq<Seq<u64>>, nn: nat, addr: u64, o: int)
    requires
        0 <= o < ls.len(),
        blocks_aligned(ls),
        addr as int % block_bytes(o as nat) == 0,
    ensures
        blocks_aligned(add_block(ls, nn, addr, o).0),
{
    if nn < NODE_CAPACITY {
        let ls2 = ls.update(o, ls[o].push(addr));
        assert forall|p: int, i: int| 0 <= p < ls2.len() && 0 <= i < ls2[p].len() implies (
        #[trigger] ls2[p][i]) as int % block_bytes(p as nat) == 0 by {
            if p == o && i == ls[o].len() {
            } else {
                assert(ls2[p][i] == ls[p][i]);
            }
        }
    }
}

/// Splitting an aligned block records aligned upper halves.
proof fn lemma_split_aligned(ls: Seq<Seq<u64>>, nn: nat, addr: u64, s: int, lo: int)
    requires
        0 <= lo <= s < ls.len(),
        blocks_aligned(ls),
        addr as int % block_bytes(s as nat) == 0,
        addr as int + block_bytes(s as nat) <= addr_limit(),
    ensures
        blocks_aligned(split_from(ls, nn, addr, s, lo).0),
    decreases s - lo,
{
    if s > lo {
        lemma_block_double(s as nat);
        lemma_pages_pos((s - 1) as nat);
        let b = (addr as int + block_bytes((s - 1) as nat)) as u64;
        lemma_upper_half_aligned(addr as int, s as nat);
        lemma_add_block_aligned(ls, nn, b, s - 1);
        let (ls2, nn2) = add_block(ls, nn, b, s - 1);
        lemma_aligned_down(addr as int, s as nat, (s - 1) as nat);
        lemma_split_aligned(ls2, nn2, addr, s - 1, lo);
    }
}

/// Of a block aligned to its size and its buddy, the lower one is
/// aligned to twice the size (alignment as clear low bits).
proof fn lemma_buddy_pair_mask(x: u64, k: u64)
    by (bit_vector)
    requires
        k < 63,
        (x & (((1u64 << k) - 1) as u64)) == 0,
    ensures
        (x & (1u64 << k)) == 0 ==> (x & (((1u64 << ((k + 1) as u64)) - 1) as u64)) == 0,
        (x & (1u64 << k)) != 0 ==> ((x ^ (1u64 << k)) & (((1u64 << ((k + 1) as u64)) - 1) as u64)) == 0,
{
}

/// Alignment to a block size is clear low bits.
proof fn lemma_aligned_mask(x: u64, o: nat)
    requires
        o <= MAX_ORDER,
    ensures
        (x as int % block_bytes(o) == 0) == ((x & (((1u64 << ((12 + o) as u64)) - 1) as u64)) == 0),
{
    let k: nat = 12 + o;
    vstd::bits::lemma_u64_low_bits_mask_is_mod(x, k);
    vstd::bits::lemma_u64_pow2_no_overflow(k);
    lemma_u64_shl_is_mul(1, k as u64);
    lemma_pages_pow2(o);
    lemma_pow2_adds(12, o);
    lemma2_to64();
    assert(block_bytes(o) == pow2(k));
}

/// Of a block aligned to order `o` and its buddy, the lower one is
/// aligned to order `o + 1`.
proof fn lemma_buddy_pair_aligned(x: u64, o: nat)
    requires
        o < MAX_ORDER - 1,
        x as int % block_bytes(o) == 0,
    ensures
        ({
            let b = x ^ (block_bytes(o) as u64);
            (if x < b { x } else { b }) as int % block_bytes(o + 1) == 0
        }),
{
    lemma_aligned_mask(x, o);
    lemma_block_bit(o);
    let k = (12 + o) as u64;
    lemma_buddy_pair_mask(x, k);
    lemma_xor_bit(x, k);
    let b = x ^ (1u64 << k);
    assert(b == x ^ (block_bytes(o) as u64));
    assert(k + 1 == (12 + (o + 1)) as u64);
    lemma_aligned_mask(x, o + 1);
    lemma_aligned_mask(b, o + 1);
}

/// Merging an aligned block with its free buddies keeps the lists
/// aligned and gives an aligned block.
proof fn lemma_merge_aligned(ls: Seq<Seq<u64>>, cur: u64, o: int)
    requires
        ls.len() == MAX_ORDER,
        lists_fit(ls),
        blocks_aligned(ls),
        0 <= o < MAX_ORDER,
        cur as int % block_bytes(o as nat) == 0,
        cur as int + block_bytes(o as nat) <= addr_limit(),
    ensures
        ({
            let (ls2, cur2, o2) = merge_spec(ls, cur, o);
            blocks_aligned(ls2) && cur2 as int % block_bytes(o2 as nat) == 0
        }),
    decreases MAX_ORDER - 1 - o,
{
    lemma_pages_small(o as nat);
    if o < MAX_ORDER - 1 {
        let b = cur ^ (block_bytes(o as nat) as u64);
        match last_index(ls[o], b, ls[o].len() as int) {
            None => {},
            Some(i) => {
                lemma_last_index(ls[o], b, ls[o].len() as int);
                let l2 = ls[o].remove(i);
                let ls2 = ls.update(o, l2);
                assert forall|p: int, j: int|
                    0 <= p < ls2.len() && 0 <= j < ls2[p].len() implies #[trigger] ls2[p][j] as int
                    + block_bytes(p as nat) <= addr_limit() && ls2[p][j] as int % block_bytes(p as nat) == 0 by {
                    if p == o {
                        if j < i {
                            assert(ls2[p][j] == ls[o][j]);
                        } else {
                            assert(ls2[p][j] == ls[o][j + 1]);
                        }
                    } else {
                        assert(ls2[p][j] == ls[p][j]);
                    }
                }
                assert(b as int + block_bytes(o as nat) <= addr_limit()) by {
                    assert(ls[o][i] == b);
                }
                lemma_block_bit(o as nat);
                lemma_xor_bit(cur, (12 + o) as u64);
                let nc: u64 = if cur < b {
                    cur
                } else {
                    b
                };
                assert(pages((o + 1) as nat) == 2 * pages(o as nat));
                assert(nc as int + block_bytes((o + 1) as nat) <= addr_limit());
                lemma_buddy_pair_aligned(cur, o as nat);
                lemma_merge_aligned(ls2, nc, o + 1);
                assert(merge_spec(ls, cur, o) == merge_spec(ls2, nc, o + 1));
            },
        }
    }
}

/// The largest fitting order keeps the start aligned.
proof fn lemma_fit_order_aligned(addr: u64, size: u64, o: nat)
    requires
        o < MAX_ORDER,
        addr as int % block_bytes(o) == 0,
    ensures
        addr as int % block_bytes(fit_order(addr, size, o)) == 0,
    decreases MAX_ORDER - 1 - o,
{
    if o < MAX_ORDER - 1 {
        if (size as int) < block_bytes(o + 1) || addr as int % block_bytes(o + 1) != 0 {
        } else {
            lemma_fit_order_aligned(addr, size, o + 1);
        }
    }
}

/// A page-aligned region is cut into aligned blocks.
proof fn lemma_region_aligned(ls: Seq<Seq<u64>>, nn: nat, addr: u64, size: u64)
    requires
        ls.len() == MAX_ORDER,
        blocks_aligned(ls),
        addr as int % PAGE_SIZE as int == 0,
    ensures
        blocks_aligned(add_region(ls, nn, addr, size).0),
    decreases size,
{
    if (size as int) >= PAGE_SIZE as int {
        let o = fit_order(addr, size, 0);
        lemma_fit_order(addr, size, 0);
        assert(block_bytes(0) == PAGE_SIZE);
        lemma_fit_order_aligned(addr, size, 0);
        lemma_add_block_aligned(ls, nn, addr, o as int);
        let (ls2, nn2) = add_block(ls, nn, addr, o as int);
        if block_bytes(o) > size || addr as int + block_bytes(o) >= addr_limit() {
        } else {
            lemma_pages_pos(o);
            let next = addr as int + block_bytes(o);
            vstd::arithmetic::div_mod::lemma_mod_multiples_basic(pages(o) as int, PAGE_SIZE as int);
            assert(block_bytes(o) == pages(o) as int * PAGE_SIZE as int) by (nonlinear_arith);
            vstd::arithmetic::div_mod::lemma_add_mod_noop(addr as int, block_bytes(o), PAGE_SIZE as int);
            assert(next % PAGE_SIZE as int == 0);
            lemma_region_aligned(ls2, nn2, next as u64, (size - block_bytes(o)) as u64);
        }
    }
}

/// The first non-empty order found is a non-empty order at or above `o`.
proof fn lemma_first_nonempty(ls: Seq<Seq<u64>>, o: int)
    ensures
        first_nonempty(ls, o) matches Some(c) ==> o <= c < MAX_ORDER && 0 <= c && ls[c].len() > 0,
    decreases MAX_ORDER - o,
{
    if 0 <= o < MAX_ORDER && ls[o].len() == 0 {
        lemma_first_nonempty(ls, o + 1);
    }
}

/// Law: the buddy allocator hands out aligned blocks.  When every free
/// block starts at a multiple of its size, a block returned for `order`
/// starts at a multiple of `block_bytes(order)`, and the free blocks stay
/// aligned.
pub proof fn law_buddy_alloc_aligned(o: BuddyView, n: BuddyView, order: usize, r: Option<u64>)
    requires
        o.lists.len() == MAX_ORDER,
        lists_fit(o.lists),
        blocks_aligned(o.lists),
        alloc_post(o, n, order, r),
    ensures
        r matches Some(a) ==> a as int % block_bytes(order as nat) == 0,
        blocks_aligned(n.lists),
{
    if order < MAX_ORDER {
        match first_nonempty(o.lists, order as int) {
            None => {},
            Some(c) => {
                lemma_first_nonempty(o.lists, order as int);
                let ls = o.lists;
                let addr = ls[c].last();
                assert(addr == ls[c][ls[c].len() - 1]);
                let popped = ls.update(c, ls[c].drop_last());
                assert forall|p: int, j: int| 0 <= p < popped.len() && 0 <= j < popped[p].len() implies (
                #[trigger] popped[p][j]) as int % block_bytes(p as nat) == 0 by {
                    assert(popped[p][j] == ls[p][j]);
                }
                lemma_split_aligned(popped, (o.nodes_used - 1) as nat, addr, c, order as int);
                lemma_aligned_down(addr as int, c as nat, order as nat);
            },
        }
    }
}

/// Law: freeing an aligned block keeps the free blocks aligned.
pub proof fn law_buddy_free_aligned(o: BuddyView, n: BuddyView, addr: u64, order: usize)
    requires
        o.lists.len() == MAX_ORDER,
        lists_fit(o.lists),
        blocks_aligned(o.lists),
        order < MAX_ORDER ==> addr as int % block_bytes(order as nat) == 0 && addr as int
            + block_bytes(order as nat) <= addr_limit(),
        free_post(o, n, addr, order),
    ensures
        blocks_aligned(n.lists),
{
    if order < MAX_ORDER {
        lemma_merge_aligned(o.lists, addr, order as int);
        lemma_merge(o.lists, addr, order as int);
        let (ls2, cur, o2) = merge_spec(o.lists, addr, order as int);
        lemma_add_block_aligned(ls2, (o.nodes_used - (o2 - order)) as nat, cur, o2);
    }
}

/// Law: initializing a buddy allocator with aligned free blocks at a page
/// boundary leaves every free block aligned.
pub proof fn law_buddy_init_aligned(o: BuddyView, base: u64, size: u64)
    requires
        o.lists.len() == MAX_ORDER,
        blocks_aligned(o.lists),
        base % 4096 == 0,
    ensures
        blocks_aligned(buddy_after_init(o, base, size).lists),
{
    lemma_region_aligned(o.lists, o.nodes_used, base, (size - size % 4096) as u64);
}

// =============================================================================
// Buddy allocator laws: free blocks do not overlap
// =============================================================================

/// The byte ranges `[a, a + sa)` and `[b, b + sb)` do not overlap.
pub open spec fn apart(a: int, sa: int, b: int, sb: int) -> bool {
    a + sa <= b || b + sb <= a
}

/// No two recorded free blocks overlap.
pub open spec fn blocks_disjoint(ls: Seq<Seq<u64>>) -> bool {
    forall|o1: int, i1: int, o2: int, i2: int|
        0 <= o1 < ls.len() && 0 <= i1 < ls[o1].len() && 0 <= o2 < ls.len() && 0 <= i2 < ls[o2].len()
            && (o1 != o2 || i1 != i2) ==> apart(
            #[trigger] ls[o1][i1] as int,
            block_bytes(o1 as nat),
            #[trigger] ls[o2][i2] as int,
            block_bytes(o2 as nat),
        )
}

/// No recorded free block overlaps `[a, a + sa)`.
pub open spec fn free_of(ls: Seq<Seq<u64>>, a: int, sa: int) -> bool {
    forall|o: int, i: int|
        0 <= o < ls.len() && 0 <= i < ls[o].len() ==> apart(#[trigger] ls[o][i] as int, block_bytes(o as nat), a, sa)
}

/// Recording a block that overlaps no free block keeps the blocks apart,
/// and keeps any range apart from them that is apart from the new block.
proof fn lemma_add_block_disjoint(ls: Seq<Seq<u64>>, nn: nat, addr: u64, o: int, a: int, sa: int)
    requires
        0 <= o < ls.len(),
        blocks_disjoint(ls),
        free_of(ls, addr as int, block_bytes(o as nat)),
        free_of(ls, a, sa),
        apart(addr as int, block_bytes(o as nat), a, sa),
    ensures
        blocks_disjoint(add_block(ls, nn, addr, o).0),
        free_of(add_block(ls, nn, addr, o).0, a, sa),
{
    if nn < NODE_CAPACITY {
        let ls2 = ls.update(o, ls[o].push(addr));
        let n = ls[o].len() as int;
        assert forall|p: int, j: int| 0 <= p < ls2.len() && 0 <= j < ls2[p].len() implies #[trigger] ls2[p][j]
            == (if p == o && j == n { addr } else { ls[p][j] }) by {}
        assert forall|o1: int, i1: int, o2: int, i2: int|
            0 <= o1 < ls2.len() && 0 <= i1 < ls2[o1].len() && 0 <= o2 < ls2.len() && 0 <= i2 < ls2[o2].len()
                && (o1 != o2 || i1 != i2) implies apart(
            #[trigger] ls2[o1][i1] as int,
            block_bytes(o1 as nat),
            #[trigger] ls2[o2][i2] as int,
            block_bytes(o2 as nat),
        ) by {
            if o1 == o && i1 == n {
                assert(apart(ls[o2][i2] as int, block_bytes(o2 as nat), addr as int, block_bytes(o as nat)));
            } else if o2 == o && i2 == n {
                assert(apart(ls[o1][i1] as int, block_bytes(o1 as nat), addr as int, block_bytes(o as nat)));
            } else {
                assert(apart(ls[o1][i1] as int, block_bytes(o1 as nat), ls[o2][i2] as int, block_bytes(o2 as nat)));
            }
        }
        assert forall|p: int, j: int| 0 <= p < ls2.len() && 0 <= j < ls2[p].len() implies apart(
            #[trigger] ls2[p][j] as int,
            block_bytes(p as nat),
            a,
            sa,
        ) by {
            if !(p == o && j == n) {
                assert(apart(ls[p][j] as int, block_bytes(p as nat), a, sa));
            }
        }
    }
}

/// Splitting a block that overlaps no free block records upper halves
/// that overlap nothing, and the block kept overlaps none of them.
proof fn lemma_split_disjoint(ls: Seq<Seq<u64>>, nn: nat, addr: u64, s: int, lo: int)
    requires
        0 <= lo <= s < ls.len(),
        blocks_disjoint(ls),
        free_of(ls, addr as int, block_bytes(s as nat)),
        addr as int + block_bytes(s as nat) <= addr_limit(),
    ensures
        blocks_disjoint(split_from(ls, nn, addr, s, lo).0),
        free_of(split_from(ls, nn, addr, s, lo).0, addr as int, block_bytes(lo as nat)),
    decreases s - lo,
{
    if s > lo {
        lemma_block_double(s as nat);
        lemma_pages_pos((s - 1) as nat);
        let h = block_bytes((s - 1) as nat);
        let u = (addr as int + h) as u64;
        assert(u as int == addr as int + h);
        assert forall|p: int, j: int| 0 <= p < ls.len() && 0 <= j < ls[p].len() implies apart(
            #[trigger] ls[p][j] as int,
            block_bytes(p as nat),
            u as int,
            h,
        ) && apart(ls[p][j] as int, block_bytes(p as nat), addr as int, h) by {
            assert(apart(ls[p][j] as int, block_bytes(p as nat), addr as int, block_bytes(s as nat)));
        }
        lemma_add_block_disjoint(ls, nn, u, s - 1, addr as int, h);
        let (ls2, nn2) = add_block(ls, nn, u, s - 1);
        lemma_split_disjoint(ls2, nn2, addr, s - 1, lo);
    }
}

/// Taking entry `i` of order `o` out keeps the blocks apart and apart
/// from any range they were apart from; the block taken out is apart from
/// all that remain.
proof fn lemma_remove_disjoint(ls: Seq<Seq<u64>>, o: int, i: int, l2: Seq<u64>, a: int, sa: int)
    requires
        0 <= o < ls.len(),
        0 <= i < ls[o].len(),
        l2.len() == ls[o].len() - 1,
        forall|j: int| 0 <= j < l2.len() ==> #[trigger] l2[j] == if j < i { ls[o][j] } else { ls[o][j + 1] },
        blocks_disjoint(ls),
        free_of(ls, a, sa),
    ensures
        blocks_disjoint(ls.update(o, l2)),
        free_of(ls.update(o, l2), a, sa),
        free_of(ls.update(o, l2), ls[o][i] as int, block_bytes(o as nat)),
{
    let ls2 = ls.update(o, l2);
    let idx = |p: int, j: int| if p == o && j >= i { j + 1 } else { j };
    assert forall|p: int, j: int| 0 <= p < ls2.len() && 0 <= j < ls2[p].len() implies #[trigger] ls2[p][j]
        == ls[p][idx(p, j)] && 0 <= idx(p, j) < ls[p].len() by {}
    assert forall|o1: int, i1: int, o2: int, i2: int|
        0 <= o1 < ls2.len() && 0 <= i1 < ls2[o1].len() && 0 <= o2 < ls2.len() && 0 <= i2 < ls2[o2].len()
            && (o1 != o2 || i1 != i2) implies apart(
        #[trigger] ls2[o1][i1] as int,
        block_bytes(o1 as nat),
        #[trigger] ls2[o2][i2] as int,
        block_bytes(o2 as nat),
    ) by {
        assert(apart(
            ls[o1][idx(o1, i1)] as int,
            block_bytes(o1 as nat),
            ls[o2][idx(o2, i2)] as int,
            block_bytes(o2 as nat),
        ));
    }
    assert forall|p: int, j: int| 0 <= p < ls2.len() && 0 <= j < ls2[p].len() implies apart(
        #[trigger] ls2[p][j] as int,
        block_bytes(p as nat),
        a,
        sa,
    ) && apart(ls2[p][j] as int, block_bytes(p as nat), ls[o][i] as int, block_bytes(o as nat)) by {
        assert(apart(ls[p][idx(p, j)] as int, block_bytes(p as nat), a, sa));
        assert(apart(ls[p][idx(p, j)] as int, block_bytes(p as nat), ls[o][i] as int, block_bytes(o as nat)));
    }
}

/// Merging a block that overlaps no free block with its free buddies
/// keeps the blocks apart, and the merged block overlaps none of those
/// left.
proof fn lemma_merge_disjoint(ls: Seq<Seq<u64>>, cur: u64, o: int)
    requires
        ls.len() == MAX_ORDER,
        lists_fit(ls),
        blocks_disjoint(ls),
        0 <= o < MAX_ORDER,
        free_of(ls, cur as int, block_bytes(o as nat)),
        cur as int + block_bytes(o as nat) <= addr_limit(),
    ensures
        ({
            let (ls2, cur2, o2) = merge_spec(ls, cur, o);
            blocks_disjoint(ls2) && free_of(ls2, cur2 as int, block_bytes(o2 as nat))
        }),
    decreases MAX_ORDER - 1 - o,
{
    lemma_pages_small(o as nat);
    if o < MAX_ORDER - 1 {
        let b = cur ^ (block_bytes(o as nat) as u64);
        match last_index(ls[o], b, ls[o].len() as int) {
            None => {},
            Some(i) => {
                lemma_last_index(ls[o], b, ls[o].len() as int);
                let l2 = ls[o].remove(i);
                let ls2 = ls.update(o, l2);
                assert forall|j: int| 0 <= j < l2.len() implies #[trigger] l2[j] == if j < i {
                    ls[o][j]
                } else {
                    ls[o][j + 1]
                } by {}
                lemma_remove_disjoint(ls, o, i, l2, cur as int, block_bytes(o as nat));
                assert forall|p: int, j: int|
                    0 <= p < ls2.len() && 0 <= j < ls2[p].len() implies #[trigger] ls2[p][j] as int
                    + block_bytes(p as nat) <= addr_limit() by {
                    if p == o {
                        if j < i {
                            assert(ls2[p][j] == ls[o][j]);
                        } else {
                            assert(ls2[p][j] == ls[o][j + 1]);
                        }
                    } else {
                        assert(ls2[p][j] == ls[p][j]);
                    }
                }
                assert(ls[o][i] == b);
                assert(b as int + block_bytes(o as nat) <= addr_limit());
                lemma_block_bit(o as nat);
                lemma_xor_bit(cur, (12 + o) as u64);
                let nc: u64 = if cur < b {
                    cur
                } else {
                    b
                };
                assert(pages((o + 1) as nat) == 2 * pages(o as nat));
                assert(block_bytes((o + 1) as nat) == 2 * block_bytes(o as nat));
                assert(nc as int + block_bytes((o + 1) as nat) <= addr_limit());
                let bb = block_bytes(o as nat);
                assert((1u64 << ((12 + o) as u64)) as int == bb);
                assert(b == cur ^ (1u64 << ((12 + o) as u64)));
                assert((b as int == cur as int + bb && nc == cur) || (b as int + bb == cur as int && nc == b));
                assert forall|p: int, j: int| 0 <= p < ls2.len() && 0 <= j < ls2[p].len() implies apart(
                    #[trigger] ls2[p][j] as int,
                    block_bytes(p as nat),
                    nc as int,
                    block_bytes((o + 1) as nat),
                ) by {
                    lemma_pages_pos(p as nat);
                    assert(apart(ls2[p][j] as int, block_bytes(p as nat), cur as int, block_bytes(o as nat)));
                    assert(apart(ls2[p][j] as int, block_bytes(p as nat), b as int, block_bytes(o as nat)));
                }
                lemma_merge_disjoint(ls2, nc, o + 1);
                assert(merge_spec(ls, cur, o) == merge_spec(ls2, nc, o + 1));
            },
        }
    }
}

/// Law: the buddy allocator hands out a block that overlaps no block
/// still free.  When no two free blocks overlap, a block returned for
/// `order` overlaps none of the free blocks after the call, and these
/// still do not overlap each other.
pub proof fn law_buddy_alloc_disjoint(o: BuddyView, n: BuddyView, order: usize, r: Option<u64>)
    requires
        o.lists.len() == MAX_ORDER,
        lists_fit(o.lists),
        blocks_disjoint(o.lists),
        alloc_post(o, n, order, r),
    ensures
        r matches Some(a) ==> free_of(n.lists, a as int, block_bytes(order as nat)),
        blocks_disjoint(n.lists),
{
    if order < MAX_ORDER {
        match first_nonempty(o.lists, order as int) {
            None => {},
            Some(c) => {
                lemma_first_nonempty(o.lists, order as int);
                let ls = o.lists;
                let k = ls[c].len() - 1;
                let addr = ls[c].last();
                assert(addr == ls[c][k]);
                let l2 = ls[c].drop_last();
                assert forall|j: int| 0 <= j < l2.len() implies #[trigger] l2[j] == if j < k {
                    ls[c][j]
                } else {
                    ls[c][j + 1]
                } by {}
                lemma_remove_disjoint(ls, c, k, l2, 0, 0);
                let popped = ls.update(c, l2);
                assert(addr as int + block_bytes(c as nat) <= addr_limit());
                lemma_split_disjoint(popped, (o.nodes_used - 1) as nat, addr, c, order as int);
            },
        }
    }
}

/// Law: freeing a block that overlaps no free block keeps the free
/// blocks from overlapping.
pub proof fn law_buddy_free_disjoint(o: BuddyView, n: BuddyView, addr: u64, order: usize)
    requires
        o.lists.len() == MAX_ORDER,
        lists_fit(o.lists),
        blocks_disjoint(o.lists),
        order < MAX_ORDER ==> free_of(o.lists, addr as int, block_bytes(order as nat)) && addr as int
            + block_bytes(order as nat) <= addr_limit(),
        free_post(o, n, addr, order),
    ensures
        blocks_disjoint(n.lists),
{
    if order < MAX_ORDER {
        lemma_merge_disjoint(o.lists, addr, order as int);
        lemma_merge(o.lists, addr, order as int);
        let (ls2, cur, o2) = merge_spec(o.lists, addr, order as int);
        lemma_add_block_disjoint(ls2, (o.nodes_used - (o2 - order)) as nat, cur, o2, 0, 0);
    }
}

// =============================================================================
// Buddy allocator laws: blocks stay in the managed region
// =============================================================================

/// Every free block lies in `[lo, hi)`.
pub open spec fn blocks_within(ls: Seq<Seq<u64>>, lo: int, hi: int) -> bool {
    forall|o: int, i: int|
        0 <= o < ls.len() && 0 <= i < ls[o].len() ==> lo <= #[trigger] ls[o][i] as int && ls[o][i] as int
            + block_bytes(o as nat) <= hi
}

proof fn lemma_add_block_within(ls: Seq<Seq<u64>>, nn: nat, addr: u64, o: int, lo: int, hi: int)
    requires
        0 <= o < ls.len(),
        blocks_within(ls, lo, hi),
        lo <= addr as int && addr as int + block_bytes(o as nat) <= hi,
    ensures
        blocks_within(add_block(ls, nn, addr, o).0, lo, hi),
{
    if nn < NODE_CAPACITY {
        let ls2 = ls.update(o, ls[o].push(addr));
        assert forall|p: int, j: int| 0 <= p < ls2.len() && 0 <= j < ls2[p].len() implies lo <= #[trigger] ls2[p][j] as int
            && ls2[p][j] as int + block_bytes(p as nat) <= hi by {
            if !(p == o && j == ls[o].len()) {
                assert(ls2[p][j] == ls[p][j]);
            }
        }
    }
}

proof fn lemma_split_within(ls: Seq<Seq<u64>>, nn: nat, addr: u64, s: int, lo_o: int, lo: int, hi: int)
    requires
        0 <= lo_o <= s < ls.len(),
        blocks_within(ls, lo, hi),
        lo <= addr as int && addr as int + block_bytes(s as nat) <= hi,
        hi <= addr_limit(),
    ensures
        blocks_within(split_from(ls, nn, addr, s, lo_o).0, lo, hi),
    decreases s - lo_o,
{
    if s > lo_o {
        lemma_block_double(s as nat);
        lemma_pages_pos((s - 1) as nat);
        let u = (addr as int + block_bytes((s - 1) as nat)) as u64;
        lemma_add_block_within(ls, nn, u, s - 1, lo, hi);
        let (ls2, nn2) = add_block(ls, nn, u, s - 1);
        lemma_split_within(ls2, nn2, addr, s - 1, lo_o, lo, hi);
    }
}

proof fn lemma_merge_within(ls: Seq<Seq<u64>>, cur: u64, o: int, lo: int, hi: int)
    requires
        ls.len() == MAX_ORDER,
        blocks_within(ls, lo, hi),
        0 <= o < MAX_ORDER,
        lo <= cur as int && cur as int + block_bytes(o as nat) <= hi,
        hi <= addr_limit(),
    ensures
        ({
            let (ls2, cur2, o2) = merge_spec(ls, cur, o);
            blocks_within(ls2, lo, hi) && lo <= cur2 as int && cur2 as int + block_bytes(o2 as nat) <= hi
        }),
    decreases MAX_ORDER - 1 - o,
{
    lemma_pages_small(o as nat);
    if o < MAX_ORDER - 1 {
        let b = cur ^ (block_bytes(o as nat) as u64);
        match last_index(ls[o], b, ls[o].len() as int) {
            None => {},
            Some(i) => {
                lemma_last_index(ls[o], b, ls[o].len() as int);
                let l2 = ls[o].remove(i);
                let ls2 = ls.update(o, l2);
                assert forall|p: int, j: int| 0 <= p < ls2.len() && 0 <= j < ls2[p].len() implies lo <= #[trigger] ls2[p][j] as int
                    && ls2[p][j] as int + block_bytes(p as nat) <= hi by {
                    if p == o {
                        if j < i {
                            assert(ls2[p][j] == ls[o][j]);
                        } else {
                            assert(ls2[p][j] == ls[o][j + 1]);
                        }
                    } else {
                        assert(ls2[p][j] == ls[p][j]);
                    }
                }
                assert(ls[o][i] == b);
                lemma_block_bit(o as nat);
                lemma_xor_bit(cur, (12 + o) as u64);
                let nc: u64 = if cur < b {
                    cur
                } else {
                    b
                };
                assert(pages((o + 1) as nat) == 2 * pages(o as nat));
                let bb = block_bytes(o as nat);
                assert((1u64 << ((12 + o) as u64)) as int == bb);
                assert(b == cur ^ (1u64 << ((12 + o) as u64)));
                assert((b as int == cur as int + bb && nc == cur) || (b as int + bb == cur as int && nc == b));
                lemma_merge_within(ls2, nc, o + 1, lo, hi);
                assert(merge_spec(ls, cur, o) == merge_spec(ls2, nc, o + 1));
            },
        }
    }
}

proof fn lemma_region_within(ls: Seq<Seq<u64>>, nn: nat, addr: u64, size: u64, lo: int, hi: int)
    requires
        ls.len() == MAX_ORDER,
        blocks_within(ls, lo, hi),
        lo <= addr as int,
        addr as int + size as int <= hi,
    ensures
        blocks_within(add_region(ls, nn, addr, size).0, lo, hi),
    decreases size,
{
    if (size as int) >= PAGE_SIZE as int {
        let o = fit_order(addr, size, 0);
        lemma_fit_order(addr, size, 0);
        assert(block_bytes(0) == PAGE_SIZE);
        lemma_add_block_within(ls, nn, addr, o as int, lo, hi);
        let (ls2, nn2) = add_block(ls, nn, addr, o as int);
        if block_bytes(o) > size || addr as int + block_bytes(o) >= addr_limit() {
        } else {
            lemma_pages_pos(o);
            lemma_region_within(ls2, nn2, (addr as int + block_bytes(o)) as u64, (size - block_bytes(o)) as u64, lo, hi);
        }
    }
}

/// Law: the buddy allocator hands out blocks of its region.  When every
/// free block lies in the managed region `[base, base + total)`, so does
/// a block returned, and the free blocks stay there.
pub proof fn law_buddy_alloc_within(o: BuddyView, n: BuddyView, order: usize, r: Option<u64>)
    requires
        o.lists.len() == MAX_ORDER,
        blocks_within(o.lists, o.base as int, o.base + o.total),
        o.base + o.total <= addr_limit(),
        alloc_post(o, n, order, r),
    ensures
        r matches Some(a) ==> o.base <= a && a as int + block_bytes(order as nat) <= o.base + o.total,
        blocks_within(n.lists, n.base as int, n.base + n.total),
{
    if order < MAX_ORDER {
        match first_nonempty(o.lists, order as int) {
            None => {},
            Some(c) => {
                lemma_first_nonempty(o.lists, order as int);
                let ls = o.lists;
                let addr = ls[c].last();
                assert(addr == ls[c][ls[c].len() - 1]);
                let popped = ls.update(c, ls[c].drop_last());
                assert forall|p: int, j: int| 0 <= p < popped.len() && 0 <= j < popped[p].len() implies o.base
                    <= #[trigger] popped[p][j] as int && popped[p][j] as int + block_bytes(p as nat) <= o.base + o.total by {
                    assert(popped[p][j] == ls[p][j]);
                }
                lemma_split_within(popped, (o.nodes_used - 1) as nat, addr, c, order as int, o.base as int, o.base + o.total);
                lemma_pages_mono(order as nat, c as nat);
            },
        }
    }
}

/// Law: freeing a block of the managed region keeps every free block in
/// it.
pub proof fn law_buddy_free_within(o: BuddyView, n: BuddyView, addr: u64, order: usize)
    requires
        o.lists.len() == MAX_ORDER,
        blocks_within(o.lists, o.base as int, o.base + o.total),
        o.base + o.total <= addr_limit(),
        order < MAX_ORDER ==> o.base <= addr && addr as int + block_bytes(order as nat) <= o.base + o.total,
        free_post(o, n, addr, order),
    ensures
        blocks_within(n.lists, n.base as int, n.base + n.total),
{
    if order < MAX_ORDER {
        lemma_merge_within(o.lists, addr, order as int, o.base as int, o.base + o.total);
        let (ls2, cur, o2) = merge_spec(o.lists, addr, order as int);
        lemma_merge(o.lists, addr, order as int);
        lemma_add_block_within(ls2, (o.nodes_used - (o2 - order)) as nat, cur, o2, o.base as int, o.base + o.total);
    }
}

/// A region apart from every free block is cut into blocks that overlap
/// neither each other nor the blocks already free.
proof fn lemma_region_disjoint(ls: Seq<Seq<u64>>, nn: nat, addr: u64, size: u64)
    requires
        ls.len() == MAX_ORDER,
        blocks_disjoint(ls),
        free_of(ls, addr as int, size as int),
    ensures
        blocks_disjoint(add_region(ls, nn, addr, size).0),
    decreases size,
{
    if (size as int) >= PAGE_SIZE as int {
        let o = fit_order(addr, size, 0);
        lemma_fit_order(addr, size, 0);
        assert(block_bytes(0) == PAGE_SIZE);
        lemma_pages_pos(o);
        let bb = block_bytes(o);
        let rest_a = addr as int + bb;
        let rest_s = size as int - bb;
        assert forall|p: int, j: int| 0 <= p < ls.len() && 0 <= j < ls[p].len() implies apart(
            #[trigger] ls[p][j] as int,
            block_bytes(p as nat),
            addr as int,
            bb,
        ) && apart(ls[p][j] as int, block_bytes(p as nat), rest_a, rest_s) by {
            assert(apart(ls[p][j] as int, block_bytes(p as nat), addr as int, size as int));
        }
        lemma_add_block_disjoint(ls, nn, addr, o as int, rest_a, rest_s);
        let (ls2, nn2) = add_block(ls, nn, addr, o as int);
        if block_bytes(o) > size || addr as int + block_bytes(o) >= addr_limit() {
        } else {
            lemma_region_disjoint(ls2, nn2, rest_a as u64, rest_s as u64);
        }
    }
}

/// Law: a freshly initialized buddy allocator's free blocks lie in its
/// region and do not overlap.
pub proof fn law_buddy_init_within(o: BuddyView, base: u64, size: u64)
    requires
        o.lists.len() == MAX_ORDER,
        all_empty(o.lists),
        (base as int + size as int) < addr_limit(),
    ensures
        ({
            let n = buddy_after_init(o, base, size);
            &&& blocks_within(n.lists, n.base as int, n.base + n.total)
            &&& blocks_disjoint(n.lists)
        }),
{
    let total = (size - size % 4096) as u64;
    assert(blocks_within(o.lists, base as int, base + total));
    lemma_region_within(o.lists, o.nodes_used, base, total, base as int, base + total);
    assert(blocks_disjoint(o.lists));
    assert(free_of(o.lists, base as int, total as int));
    lemma_region_disjoint(o.lists, o.nodes_used, base, total);
}

// =============================================================================
// Buddy allocator laws: a block freed after its allocation
// =============================================================================

/// A non-empty list at or above `o` is found by `first_nonempty`.
proof fn lemma_first_nonempty_finds(ls: Seq<Seq<u64>>, o: int, k: int)
    requires
        0 <= o <= k < MAX_ORDER,
        ls[k].len() > 0,
    ensures
        first_nonempty(ls, o) is Some,
    decreases k - o,
{
    if o < k && ls[o].len() == 0 {
        lemma_first_nonempty_finds(ls, o + 1, k);
    }
}

/// Law: freeing a block right after allocating it gives the pages back.
/// The free and allocated page counts return to what they were, and,
/// while a free-block record was left after the allocation, a block of
/// that order can be allocated again.
pub proof fn law_buddy_round_trip(a: BuddyAllocator, b: BuddyView, c: BuddyView, order: usize, p: u64)
    requires
        a.wf(),
        alloc_post(a.view(), b, order, Some(p)),
        free_post(b, c, p, order),
    ensures
        c.stats.pages_free == a.stats_view().pages_free,
        c.stats.pages_allocated == a.stats_view().pages_allocated,
        b.nodes_used < NODE_CAPACITY ==> first_nonempty(c.lists, order as int) is Some,
{
    let o = a.view();
    let ls = o.lists;
    let cc = first_nonempty(ls, order as int).unwrap();
    lemma_first_nonempty(ls, order as int);
    lemma_sum_ge_block(ls, MAX_ORDER as int, cc);
    lemma_pages_mono(order as nat, cc as nat);
    lemma_pages_small(order as nat);
    let popped = ls.update(cc, ls[cc].drop_last());
    assert forall|q: int, j: int| 0 <= q < popped.len() && 0 <= j < popped[q].len() implies #[trigger] popped[q][j] as int
        + block_bytes(q as nat) <= addr_limit() by {
        assert(popped[q][j] == ls[q][j]);
    }
    assert(ls[cc].last() == ls[cc][ls[cc].len() - 1]);
    lemma_entries_ge(ls, MAX_ORDER as int, cc);
    lemma_entries_update(ls, MAX_ORDER as int, cc, ls[cc].drop_last());
    lemma_split(popped, (o.nodes_used - 1) as nat, p, cc, order as int);
    assert(b.nodes_used == entries(b.lists, MAX_ORDER as int));
    lemma_merge(b.lists, p, order as int);
    let (ls2, cur, o2) = merge_spec(b.lists, p, order as int);
    lemma_entries_nonneg(ls2, MAX_ORDER as int);
    if b.nodes_used < NODE_CAPACITY {
        let nn = (b.nodes_used - (o2 - order)) as nat;
        assert(nn < NODE_CAPACITY);
        assert(c.lists == ls2.update(o2, ls2[o2].push(cur)));
        assert(c.lists[o2].len() > 0);
        lemma_first_nonempty_finds(c.lists, order as int, o2);
    }
}

} // verus!
