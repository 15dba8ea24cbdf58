use vstd::prelude::*;

verus! {

/// A block of the guest heap: `[offset, offset + size)`, live when `used`.
#[derive(Debug, Clone, Copy, PartialEq, Eq, Structural)]
pub struct Block {
    pub offset: u32,
    pub size: u32,
    pub used: bool,
}

/// First-fit allocator over the guest heap `[base, base + size)`.
pub struct Allocator {
    pub base: u32,
    pub size: u32,
    pub blocks: Vec<Block>,
}

/// The two blocks share at least one byte.
pub open spec fn overlap(a: Block, b: Block) -> bool {
    a.offset < b.offset + b.size && b.offset < a.offset + a.size
}

/// `b` lies inside the heap `[base, base + size)`.
pub open spec fn inside(b: Block, base: u32, size: u32) -> bool {
    base <= b.offset && b.offset + b.size <= base + size
}

/// Bytes actually reserved for a request of `size` bytes: rounded up to a
/// whole number of words, and never nothing.
pub open spec fn round_up(size: u32) -> int {
    if size == 0 {
        4
    } else {
        ((size + 3) / 4) * 4
    }
}

/// A free block of at least `need` bytes.
pub open spec fn fits(b: Block, need: int) -> bool {
    !b.used && b.size >= need
}

/// Among the blocks from index `i` on, the free one of at least `need` bytes
/// with the lowest address (the earliest such entry on a tie).
pub open spec fn first_fit_from(bs: Seq<Block>, need: int, i: int) -> Option<int>
    decreases bs.len() - i,
{
    if i < 0 || i >= bs.len() {
        None
    } else {
        let rest = first_fit_from(bs, need, i + 1);
        if fits(bs[i], need) && (rest is None || bs[i].offset <= bs[rest.unwrap()].offset) {
            Some(i)
        } else {
            rest
        }
    }
}

/// The blocks after reserving `need` bytes from the block at index `i`: its
/// head becomes live and the rest, if any, stays free.
pub open spec fn split(bs: Seq<Block>, i: int, need: int) -> Seq<Block> {
    let b = bs[i];
    if b.size > need {
        bs.update(i, Block { offset: b.offset, size: need as u32, used: true }).push(
            Block { offset: (b.offset + need) as u32, size: (b.size - need) as u32, used: false },
        )
    } else {
        bs.update(i, Block { offset: b.offset, size: b.size, used: true })
    }
}

/// Index of the first live block that starts at `addr`, from `i` on.
pub open spec fn live_at_from(bs: Seq<Block>, addr: u32, i: int) -> Option<int>
    decreases bs.len() - i,
{
    if i < 0 || i >= bs.len() {
        None
    } else if bs[i].used && bs[i].offset == addr {
        Some(i)
    } else {
        live_at_from(bs, addr, i + 1)
    }
}

pub proof fn lemma_first_fit(bs: Seq<Block>, need: int, i: int)
    requires
        0 <= i,
    ensures
        match first_fit_from(bs, need, i) {
            Some(k) => i <= k < bs.len() && fits(bs[k], need) && forall|j: int|
                i <= j < bs.len() && fits(bs[j], need) ==> bs[k].offset <= bs[j].offset,
            None => forall|j: int| i <= j < bs.len() ==> !fits(bs[j], need),
        },
    decreases bs.len() - i,
{
    if i < bs.len() {
        lemma_first_fit(bs, need, i + 1);
    }
}

proof fn lemma_live_at(bs: Seq<Block>, addr: u32, i: int)
    requires
        0 <= i,
    ensures
        match live_at_from(bs, addr, i) {
            Some(k) => i <= k < bs.len() && bs[k].used && bs[k].offset == addr,
            None => forall|j: int| i <= j < bs.len() ==> !(bs[j].used && bs[j].offset == addr),
        },
    decreases bs.len() - i,
{
    if i < bs.len() {
        lemma_live_at(bs, addr, i + 1);
    }
}

impl Allocator {
    /// Every block is non-empty and inside the heap, and no two blocks share
    /// a byte.
    pub open spec fn wf(&self) -> bool {
        &&& self.base + self.size <= 0x1_0000_0000int
        &&& forall|i: int| 0 <= i < self.blocks@.len() ==> (#[trigger] self.blocks@[i]).size > 0 && inside(self.blocks@[i], self.base, self.size)
            && self.blocks@[i].offset % 4 == 0
        &&& forall|i: int, j: int|
            0 <= i < self.blocks@.len() && 0 <= j < self.blocks@.len() && i != j ==> !overlap(#[trigger] self.blocks@[i], #[trigger] self.blocks@[j])
    }

    /// A heap over `[base, base + size)` with nothing allocated.
    pub fn new(base: u32, size: u32) -> (r: Allocator)
        requires
            base + size <= 0x1_0000_0000int,
            base % 4 == 0,
        ensures
            r.wf(),
            r.base == base,
            r.size == size,
            forall|i: int| 0 <= i < r.blocks@.len() ==> !r.blocks@[i].used,
            size > 0 ==> r.blocks@ == seq![Block { offset: base, size, used: false }],
            size == 0 ==> r.blocks@.len() == 0,
    {
        let mut blocks: Vec<Block> = Vec::new();
        if size > 0 {
            blocks.push(Block { offset: base, size, used: false });
        }
        assert(size > 0 ==> blocks@ =~= seq![Block { offset: base, size, used: false }]);
        Allocator { base, size, blocks }
    }

    /// Reserves at least `size` bytes, word-aligned in length, from the free
    /// block with the lowest address that is large enough. `None` when no
    /// free block is large enough.
    pub fn allocate(&mut self, size: u32) -> (r: Option<u32>)
        requires
            old(self).wf(),
        ensures
            final(self).wf(),
            final(self).base == old(self).base,
            final(self).size == old(self).size,
            match first_fit_from(old(self).blocks@, round_up(size), 0) {
                Some(i) => r == Some(old(self).blocks@[i].offset)
                    && final(self).blocks@ == split(old(self).blocks@, i, round_up(size)) && r->Some_0 % 4 == 0,
                None => r is None && final(self).blocks@ == old(self).blocks@,
            },
    {
        let need: u64 = if size == 0 {
            4
        } else {
            ((size as u64 + 3) / 4) * 4
        };
        assert(need % 4 == 0) by {
            if size != 0 {
                let q = (size as u64 + 3) / 4;
                assert((q * 4) % 4 == 0) by (nonlinear_arith);
            }
        }
        let n = self.blocks.len();
        let mut best: Option<usize> = None;
        let mut i: usize = n;
        while i > 0
            invariant
                i <= n,
                n == self.blocks@.len(),
                need % 4 == 0,
                self.wf(),
                self.blocks@ == old(self).blocks@,
                self.base == old(self).base,
                self.size == old(self).size,
                need == round_up(size),
                match best {
                    Some(k) => k < n,
                    None => true,
                },
                match best {
                    Some(k) => first_fit_from(self.blocks@, need as int, i as int) == Some(k as int),
                    None => first_fit_from(self.blocks@, need as int, i as int) is None,
                },
            decreases i,
        {
            i = i - 1;
            let b = self.blocks[i];
            let better = match best {
                None => true,
                Some(k) => b.offset <= self.blocks[k].offset,
            };
            if !b.used && b.size as u64 >= need && better {
                best = Some(i);
            }
        }
        match best {
            None => None,
            Some(k) => {
                proof {
                    lemma_first_fit(self.blocks@, need as int, 0);
                }
                let b = self.blocks[k];
                let ghost old_blocks = self.blocks@;
                assert(inside(self.blocks@[k as int], self.base, self.size));
                if b.size as u64 > need {
                    let need32 = need as u32;
                    self.blocks.set(k, Block { offset: b.offset, size: need32, used: true });
                    self.blocks.push(Block { offset: b.offset + need32, size: b.size - need32, used: false });
                } else {
                    self.blocks.set(k, Block { offset: b.offset, size: b.size, used: true });
                }
                assert(self.blocks@ =~= split(old_blocks, k as int, need as int));
                Some(b.offset)
            },
        }
    }

    /// Returns the live block that starts at `addr` to the free list; `false`
    /// when no live block starts there.
    pub fn free(&mut self, addr: u32) -> (r: bool)
        requires
            old(self).wf(),
        ensures
            final(self).wf(),
            final(self).base == old(self).base,
            final(self).size == old(self).size,
            match live_at_from(old(self).blocks@, addr, 0) {
                Some(i) => r && final(self).blocks@ == old(self).blocks@.update(
                    i,
                    Block { offset: addr, size: old(self).blocks@[i].size, used: false },
                ),
                None => !r && final(self).blocks@ == old(self).blocks@,
            },
    {
        let mut i: usize = 0;
        while i < self.blocks.len()
            invariant
                0 <= i <= self.blocks@.len(),
                self.wf(),
                self.blocks@ == old(self).blocks@,
                self.base == old(self).base,
                self.size == old(self).size,
                live_at_from(self.blocks@, addr, 0) == live_at_from(self.blocks@, addr, i as int),
            decreases self.blocks@.len() - i,
        {
            let b = self.blocks[i];
            if b.used && b.offset == addr {
                proof {
                    lemma_live_at(self.blocks@, addr, i as int);
                }
                self.blocks.set(i, Block { offset: addr, size: b.size, used: false });
                return true;
            }
            i = i + 1;
        }
        false
    }
}

/// Some free block holds at least `total` bytes (or nothing is needed).
pub open spec fn has_room(bs: Seq<Block>, total: int) -> bool {
    total <= 0 || exists|i: int| 0 <= i < bs.len() && fits(bs[i], total)
}

/// A block large enough for `need + rest` bytes makes `need` bytes
/// available, and leaves room for `rest` bytes afterwards.
pub proof fn lemma_room(bs: Seq<Block>, need: int, rest: int)
    requires
        has_room(bs, need + rest),
        need > 0,
        rest >= 0,
        need <= u32::MAX,
    ensures
        first_fit_from(bs, need, 0) is Some,
        has_room(split(bs, first_fit_from(bs, need, 0).unwrap(), need), rest),
{
    let i0 = choose|i: int| 0 <= i < bs.len() && fits(bs[i], need + rest);
    lemma_first_fit(bs, need, 0);
    let i = first_fit_from(bs, need, 0).unwrap();
    let s2 = split(bs, i, need);
    if rest > 0 {
        if i == i0 {
            assert(bs[i].size > need);
            assert(s2[bs.len() as int] == Block { offset: (bs[i].offset + need) as u32, size: (bs[i].size - need) as u32, used: false });
            assert(fits(s2[bs.len() as int], rest));
        } else {
            assert(s2[i0] == bs[i0]);
            assert(fits(s2[i0], rest));
        }
    }
}

/// A request's reserved size is a positive multiple of four at least as
/// large as the request.
pub proof fn lemma_round_up(x: u32)
    ensures
        round_up(x) >= x,
        round_up(x) > 0,
        round_up(x) % 4 == 0,
        round_up(x) <= x + 4,
{
    if x != 0 {
        let q = (x + 3) / 4;
        assert(q * 4 >= x && q * 4 <= x + 3 && (q * 4) % 4 == 0) by (nonlinear_arith)
            requires q == (x + 3) / 4;
    }
}

/// A fresh allocation comes from a free block, so it never overlaps a live
/// block, which stays where it was.
pub proof fn lemma_fresh_disjoint(a: &Allocator, k: int, need: int)
    requires
        a.wf(),
        0 <= k < a.blocks@.len(),
        a.blocks@[k].used,
        need > 0,
        first_fit_from(a.blocks@, need, 0) is Some,
    ensures
        ({
            let i = first_fit_from(a.blocks@, need, 0).unwrap();
            let bs = a.blocks@;
            &&& i != k
            &&& split(bs, i, need)[k] == bs[k]
            &&& k < split(bs, i, need).len()
            &&& bs[i].offset + need <= bs[k].offset || bs[k].offset + bs[k].size <= bs[i].offset
        }),
{
    lemma_first_fit(a.blocks@, need, 0);
    let i = first_fit_from(a.blocks@, need, 0).unwrap();
    assert(!overlap(a.blocks@[i], a.blocks@[k]));
}

/// Whatever sequence of allocations and frees produced a well-formed heap,
/// no two live allocations share a byte and each lies inside the heap.
pub proof fn lemma_live_allocations_disjoint(a: &Allocator)
    requires
        a.wf(),
    ensures
        forall|i: int| 0 <= i < a.blocks@.len() && a.blocks@[i].used ==> inside(a.blocks@[i], a.base, a.size),
        forall|i: int, j: int|
            0 <= i < a.blocks@.len() && 0 <= j < a.blocks@.len() && i != j && a.blocks@[i].used && a.blocks@[j].used
                ==> !overlap(a.blocks@[i], a.blocks@[j]),
{
}

} // verus!
