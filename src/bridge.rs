use vstd::prelude::*;
use crate::allocator::{Allocator, Block, first_fit_from, has_room, inside, lemma_first_fit, lemma_fresh_disjoint, lemma_round_up, lemma_room, round_up, split, live_at_from};
use crate::arm::{ArmCore, ArmError, MAX_FUNCTIONS, StepEvent, call_mem, call_ok, call_regs, function_address, guest_run, words_le};
use crate::thumb::with_thumb;
use crate::kernel::{CMethod, get_kernel_method_table};
use crate::memory::{MemoryError, covers, lemma_write_elsewhere, le_bytes, lemma_inside_region, lemma_write_keeps_shape, read_spec, same_shape, word_of, write_spec, zeros, lemma_write_then_read};
use crate::scheduler::{Scheduler, wake_time, Task};

verus! {

/// `s` without its first `start` elements.
fn slice_from(s: &[u8], start: usize) -> (r: &[u8])
    requires
        start <= s@.len(),
    ensures
        r@ == s@.subrange(start as int, s@.len() as int),
{
    let (_, tail) = s.split_at(start);
    tail
}

/// The guest's timer record, as `MC_knlDefTimer` lays it out in guest
/// memory: eight little-endian words, 32 bytes, with no padding.
#[derive(Debug, Clone, Copy, PartialEq, Eq, Structural)]
pub struct WIPICTimer {
    pub unk1: u32,
    pub unk2: u32,
    pub unk3: u32,
    pub time: u64,
    pub param: u32,
    pub unk4: u32,
    pub fn_callback: u32,
}

/// Size of a `WIPICTimer` in guest memory.
pub const TIMER_SIZE: usize = 32;

impl WIPICTimer {
    /// The record's words in memory order (`time` low word first).
    pub open spec fn words(self) -> Seq<u32> {
        seq![
            self.unk1,
            self.unk2,
            self.unk3,
            (self.time % 0x1_0000_0000) as u32,
            (self.time / 0x1_0000_0000) as u32,
            self.param,
            self.unk4,
            self.fn_callback,
        ]
    }

    /// The record's bytes in guest memory.
    pub fn to_bytes(&self) -> (r: Vec<u8>)
        ensures
            r@ == words_le(self.words()),
    {
        let words: [u32; 8] = [
            self.unk1,
            self.unk2,
            self.unk3,
            (self.time % 0x1_0000_0000) as u32,
            (self.time / 0x1_0000_0000) as u32,
            self.param,
            self.unk4,
            self.fn_callback,
        ];
        let mut out: Vec<u8> = Vec::new();
        let mut k: usize = 0;
        while k < 8
            invariant
                k <= 8,
                words@ == self.words(),
                out@ == words_le(words@.subrange(0, k as int)),
            decreases 8 - k,
        {
            let v = words[k];
            out.push((v & 0xff) as u8);
            out.push(((v >> 8u32) & 0xff) as u8);
            out.push(((v >> 16u32) & 0xff) as u8);
            out.push(((v >> 24u32) & 0xff) as u8);
            proof {
                assert(words@.subrange(0, k + 1).drop_last() =~= words@.subrange(0, k as int));
            }
            k = k + 1;
            assert(out@ =~= words_le(words@.subrange(0, k as int)));
        }
        assert(words@.subrange(0, 8) =~= words@);
        out
    }
}

/// A timer armed by `MC_knlSetTimer`: when scheduler task `task` comes out
/// of the ready queue, the guest's `callback` is to be called with `param`.
#[derive(Debug, Clone, Copy, PartialEq, Eq, Structural)]
pub struct TimerTask {
    pub task: u64,
    pub callback: u32,
    pub param: u32,
}

/// A named resource of the application archive.
pub struct Resource {
    pub name: Vec<u8>,
    pub data: Vec<u8>,
}

/// Why a C-bridge call failed.
#[derive(Debug, Clone, Copy, PartialEq, Eq, Structural)]
pub enum CError {
    /// The guest called a slot that has no implementation.
    Unimplemented { interface: u32, index: u32 },
    /// No host function is registered under this callback number.
    NoSuchFunction { callback: u32 },
    Arm(ArmError),
    OutOfMemory,
    /// The guest ran for more steps than it was allowed.
    StepLimit,
    /// The scheduler ran out of task ids.
    TaskLimit,
    /// A guest string had no terminating NUL within the allowed length.
    StringTooLong { address: u32 },
    /// The application's `init` returned this nonzero code.
    InitFailed { code: u32 },
}

/// The value a slot returns for "failed", as a guest word.
pub const C_ERROR: u32 = 0xffff_ffff;

/// Longest guest string the bridge reads.
pub const MAX_CSTRING: u32 = 0x1000;

/// Words of the `WIPIInterface` record that points the guest at the
/// graphics, database and media tables.
pub open spec fn interface_words(graphics: u32, database: u32, media: u32) -> Seq<u32> {
    seq![0, 0, graphics, 0, 0, 0, database, 0, 0, media, 0, 0, 0]
}

/// The heap's blocks and the result after `MC_knlAlloc(size)`: the address
/// of the new block, or null when none is free.
pub open spec fn alloc_spec(blocks: Seq<Block>, size: u32) -> (Seq<Block>, u32) {
    match first_fit_from(blocks, round_up(size), 0) {
        Some(i) => (split(blocks, i, round_up(size)), blocks[i].offset),
        None => (blocks, 0),
    }
}

/// The heap's blocks after `MC_knlFree(addr)`.
pub open spec fn free_spec(blocks: Seq<Block>, addr: u32) -> Seq<Block> {
    match live_at_from(blocks, addr, 0) {
        Some(i) => blocks.update(i, Block { offset: addr, size: blocks[i].size, used: false }),
        None => blocks,
    }
}

/// A string of fewer than `MAX_CSTRING` characters, NUL-terminated below
/// the end of the address space, is readable at `addr`.
pub open spec fn readable_cstring(mem: Seq<(int, Seq<u8>)>, addr: u32) -> bool {
    exists|v: Seq<u8>| #[trigger] cstring_at(mem, addr as int, v) && v.len() < MAX_CSTRING && addr + v.len() <= 0xffff_ffff
}

/// `v` is the NUL-terminated string at `addr` of the guest memory `mem`.
pub open spec fn cstring_at(mem: Seq<(int, Seq<u8>)>, addr: int, v: Seq<u8>) -> bool {
    &&& forall|i: int| 0 <= i < v.len() ==> v[i] != 0 && read_spec(mem, addr + i, 1) == Some(seq![#[trigger] v[i]])
    &&& read_spec(mem, addr + v.len(), 1) == Some(seq![0u8])
}

/// A resource name with one leading `/` taken off.
pub open spec fn normalized(v: Seq<u8>) -> Seq<u8> {
    if v.len() > 0 && v[0] == 0x2f {
        v.subrange(1, v.len() as int)
    } else {
        v
    }
}

/// Index of the first resource, from `i` on, whose name is `name`.
pub open spec fn find_resource(names: Seq<Seq<u8>>, name: Seq<u8>, i: int) -> Option<int>
    decreases names.len() - i,
{
    if i < 0 || i >= names.len() {
        None
    } else if names[i] == name {
        Some(i)
    } else {
        find_resource(names, name, i + 1)
    }
}

proof fn lemma_find_resource(names: Seq<Seq<u8>>, name: Seq<u8>, i: int)
    requires
        0 <= i,
    ensures
        match find_resource(names, name, i) {
            Some(k) => i <= k < names.len() && names[k] == name,
            None => forall|j: int| i <= j < names.len() ==> names[j] != name,
        },
    decreases names.len() - i,
{
    if i < names.len() {
        lemma_find_resource(names, name, i + 1);
    }
}

/// A region that covers the heap in `a` still covers it in `b` when the
/// layout is the same.
proof fn lemma_still_mapped(a: Seq<(int, Seq<u8>)>, b: Seq<(int, Seq<u8>)>, base: int, size: int)
    requires
        same_shape(a, b),
        exists|j: int| 0 <= j < a.len() && covers(a[j], base, size),
    ensures
        exists|j: int| 0 <= j < b.len() && covers(b[j], base, size),
{
    let j = choose|j: int| 0 <= j < a.len() && covers(a[j], base, size);
    assert(covers(b[j], base, size));
}

/// A guest `bl` to the address that `register_function` handed out for the
/// `k`-th method traps with callback `k`, so `call_method` runs that very
/// method, on the guest's `r0..r3`; once it returns `ret`, the guest goes on
/// after the `bl` with `ret` in `r0`.
pub proof fn lemma_registered_trap(b: &KtfCBridge, k: int, ret: u32)
    requires
        b.wf(),
        0 <= k < b.methods@.len(),
        b.core.regs@[15] != crate::arm::RETURN_SENTINEL,
        b.core.cpsr & 0x20 == 0,
        crate::arm::host_index(b.core.functions@.len() as int, b.core.regs@[15]) is None,
        read_spec(b.core.memory@, b.core.regs@[15] as int, 4) is Some,
        word_of(read_spec(b.core.memory@, b.core.regs@[15] as int, 4).unwrap()) >> 28u32 == 0xe,
        crate::arm::decode_spec(word_of(read_spec(b.core.memory@, b.core.regs@[15] as int, 4).unwrap())) matches crate::arm::Instr::Branch {
            link: true,
            offset,
        } && b.core.regs@[15].wrapping_add(8).wrapping_add(offset) == function_address(k),
    ensures
        ({
            let regs = b.core.regs@;
            let (e1, regs1, mem1, cpsr1) = crate::arm::step_spec(regs, b.core.memory@, b.core.functions@, b.core.cpsr);
            let (e2, regs2, mem2, cpsr2) = crate::arm::step_spec(regs1, mem1, b.core.functions@, cpsr1);
            let regs3 = crate::arm::return_regs(regs2, ret);
            &&& e2 == Ok::<StepEvent, ArmError>(
                StepEvent::HostCall { callback: k as u32, a0: regs[0], a1: regs[1], a2: regs[2], a3: regs[3] },
            )
            &&& b.methods@[k] == b.methods@[(k as u32) as int]
            &&& regs3[0] == ret
            &&& regs3[15] == regs[15].wrapping_add(4) & 0xffff_fffe
        }),
{
    crate::arm::lemma_host_trap(b.core.regs@, b.core.memory@, b.core.functions@, b.core.cpsr, k, ret);
}

/// The WIPI-C bridge of a KTF-style runtime: the ARM core, the guest heap,
/// the scheduler, and the host methods behind the synthetic addresses.
pub struct KtfCBridge {
    pub core: ArmCore,
    pub heap: Allocator,
    pub scheduler: Scheduler,
    /// Host method of each callback number; callback `k` is the `k`-th
    /// registered function.
    pub methods: Vec<CMethod>,
    pub timers: Vec<TimerTask>,
    pub resources: Vec<Resource>,
    pub graphics: Vec<CMethod>,
    pub database: Vec<CMethod>,
    pub media: Vec<CMethod>,
}

impl KtfCBridge {
    /// The whole guest heap lies inside one mapped region.
    pub open spec fn heap_mapped(&self) -> bool {
        exists|j: int| 0 <= j < self.core.memory@.len() && covers(self.core.memory@[j], self.heap.base as int, self.heap.size as int)
    }

    pub open spec fn wf(&self) -> bool {
        &&& self.core.wf()
        &&& self.heap.wf()
        &&& self.scheduler.wf()
        &&& self.core.functions@.len() == self.methods@.len()
        &&& forall|k: int| 0 <= k < self.methods@.len() ==> self.core.functions@[k] == k
        &&& self.graphics@.len() < 0x1000_0000
        &&& self.database@.len() < 0x1000_0000
        &&& self.media@.len() < 0x1000_0000
    }

    /// A bridge over `core` whose guest heap is `heap`.
    pub fn new(core: ArmCore, heap: Allocator) -> (r: KtfCBridge)
        requires
            core.wf(),
            heap.wf(),
            core.functions@.len() == 0,
        ensures
            r.wf(),
            r.core == core,
            r.heap == heap,
            r.methods@.len() == 0,
            r.timers@.len() == 0,
            r.resources@.len() == 0,
            r.graphics@.len() == 0,
            r.database@.len() == 0,
            r.media@.len() == 0,
            r.scheduler.now == 0,
            r.scheduler.ready@.len() == 0,
            r.scheduler.delayed@.len() == 0,
    {
        KtfCBridge {
            core,
            heap,
            scheduler: Scheduler::new(),
            methods: Vec::new(),
            timers: Vec::new(),
            resources: Vec::new(),
            graphics: Vec::new(),
            database: Vec::new(),
            media: Vec::new(),
        }
    }

    /// Reserves `size` bytes of guest heap.
    pub fn allocate(&mut self, size: u32) -> (r: Result<u32, CError>)
        requires
            old(self).wf(),
        ensures
            final(self).wf(),
            final(self).core == old(self).core,
            final(self).methods@ == old(self).methods@,
            final(self).scheduler == old(self).scheduler,
            final(self).timers@ == old(self).timers@,
            final(self).heap.blocks@ == alloc_spec(old(self).heap.blocks@, size).0,
            final(self).heap.base == old(self).heap.base,
            final(self).heap.size == old(self).heap.size,
            match first_fit_from(old(self).heap.blocks@, round_up(size), 0) {
                Some(i) => r == Ok::<u32, CError>(old(self).heap.blocks@[i].offset),
                None => r == Err::<u32, CError>(CError::OutOfMemory),
            },
    {
        match self.heap.allocate(size) {
            Some(a) => Ok(a),
            None => Err(CError::OutOfMemory),
        }
    }

    /// Copies `data` into guest memory at `address`.
    pub fn write_raw(&mut self, address: u32, data: &[u8]) -> (r: Result<(), CError>)
        requires
            old(self).wf(),
        ensures
            final(self).wf(),
            final(self).heap == old(self).heap,
            final(self).methods@ == old(self).methods@,
            final(self).core.regs@ == old(self).core.regs@,
            final(self).core.functions@ == old(self).core.functions@,
            final(self).scheduler == old(self).scheduler,
            final(self).timers@ == old(self).timers@,
            match write_spec(old(self).core.memory@, address as int, data@) {
                Some(m) => r is Ok && final(self).core.memory@ == m,
                None => final(self).core.memory@ == old(self).core.memory@ && r == Err::<(), CError>(
                    CError::Arm(ArmError::Memory(MemoryError::Unmapped { address, length: data@.len() as usize })),
                ),
            },
    {
        match self.core.memory.write(address, data) {
            Ok(()) => Ok(()),
            Err(e) => Err(CError::Arm(ArmError::Memory(e))),
        }
    }

    /// Puts `method` behind a new synthetic address and returns it.
    pub fn register_function(&mut self, method: CMethod) -> (r: Result<u32, CError>)
        requires
            old(self).wf(),
        ensures
            final(self).wf(),
            final(self).heap == old(self).heap,
            final(self).core.memory == old(self).core.memory,
            final(self).core.regs@ == old(self).core.regs@,
            final(self).scheduler == old(self).scheduler,
            final(self).timers@ == old(self).timers@,
            match r {
                Ok(a) => a == function_address(old(self).methods@.len() as int)
                    && final(self).methods@ == old(self).methods@.push(method),
                Err(e) => e == CError::Arm(ArmError::TooManyFunctions) && final(self).methods@ == old(self).methods@,
            },
            r is Ok <==> old(self).methods@.len() < MAX_FUNCTIONS,
    {
        let k = self.methods.len();
        match self.core.register_function(k as u32) {
            Err(e) => Err(CError::Arm(e)),
            Ok(a) => {
                self.methods.push(method);
                Ok(a)
            },
        }
    }

    /// Lays out an interface table: registers each method at a new synthetic
    /// address and writes those addresses, one word per slot in slot order,
    /// into freshly allocated guest memory, whose address is returned.
    pub fn write_methods(&mut self, methods: &Vec<CMethod>) -> (r: Result<u32, CError>)
        requires
            old(self).wf(),
            methods@.len() < 0x1000_0000,
        ensures
            final(self).wf(),
            final(self).scheduler == old(self).scheduler,
            final(self).timers@ == old(self).timers@,
            r is Ok ==> ({
                let base = old(self).methods@.len() as int;
                let table = Seq::new(methods@.len(), |i: int| function_address(base + i) as u32);
                &&& final(self).methods@ == old(self).methods@ + methods@
                &&& read_spec(final(self).core.memory@, r->Ok_0 as int, 4 * methods@.len() as int) == Some(words_le(table))
            }),
            final(self).heap.base == old(self).heap.base,
            final(self).heap.size == old(self).heap.size,
            same_shape(old(self).core.memory@, final(self).core.memory@),
            r is Ok ==> forall|a: int, la: int|
                la >= 0 && (a + la <= r->Ok_0 || r->Ok_0 + 4 * methods@.len() <= a) ==> #[trigger] read_spec(final(self).core.memory@, a, la)
                    == read_spec(old(self).core.memory@, a, la),
            r is Ok ==> first_fit_from(old(self).heap.blocks@, round_up((4 * methods@.len()) as u32), 0) is Some,
            r is Ok ==> r->Ok_0 == alloc_spec(old(self).heap.blocks@, (4 * methods@.len()) as u32).1 && final(self).heap.blocks@
                == alloc_spec(old(self).heap.blocks@, (4 * methods@.len()) as u32).0,
            r is Ok ==> forall|rest: int|
                rest >= 0 && #[trigger] has_room(old(self).heap.blocks@, round_up((4 * methods@.len()) as u32) + rest) ==> has_room(
                    final(self).heap.blocks@,
                    rest,
                ),
            old(self).heap_mapped() && has_room(old(self).heap.blocks@, round_up((4 * methods@.len()) as u32))
                && old(self).methods@.len() + methods@.len() <= MAX_FUNCTIONS ==> r is Ok,
    {
        let n = methods.len();
        let ghost blocks0 = self.heap.blocks@;
        let ghost mem0 = self.core.memory@;
        let ghost need = round_up((4 * n) as u32);
        proof {
            let sz = (4 * n) as u32;
            if sz != 0 {
                let q = (sz + 3) / 4;
                assert(q * 4 >= sz) by (nonlinear_arith)
                    requires q == (sz + 3) / 4;
            }
            assert(need >= 4 * n && need > 0);
            assert(forall|a: Seq<(int, Seq<u8>)>| same_shape(a, a));
            if has_room(blocks0, need) {
                lemma_room(blocks0, need, 0);
            }
        }
        let address = self.allocate((4 * n) as u32)?;
        proof {
            lemma_first_fit(blocks0, need, 0);
            let i = first_fit_from(blocks0, need, 0).unwrap();
            assert(inside(blocks0[i], self.heap.base, self.heap.size));
            assert forall|rest: int| rest >= 0 && #[trigger] has_room(blocks0, need + rest) implies has_room(self.heap.blocks@, rest) by {
                lemma_room(blocks0, need, rest);
            }
            if has_room(blocks0, need) {
                lemma_room(blocks0, need, 0);
            }
        }
        let ghost base = self.methods@.len() as int;
        let ghost methods0 = self.methods@;
        let mut table: Vec<u32> = Vec::new();
        let mut bytes: Vec<u8> = Vec::new();
        let mut i: usize = 0;
        while i < n
            invariant
                i <= n,
                n == methods@.len(),
                self.wf(),
                self.scheduler == old(self).scheduler,
                self.timers@ == old(self).timers@,
                self.methods@ == methods0 + methods@.subrange(0, i as int),
                base == methods0.len(),
                base == old(self).methods@.len(),
                self.core.memory == old(self).core.memory,
                self.heap.base == old(self).heap.base,
                self.heap.size == old(self).heap.size,
                self.heap.blocks@ == alloc_spec(blocks0, (4 * n) as u32).0,
                table@ == Seq::new(i as nat, |j: int| function_address(base + j) as u32),
                bytes@ == words_le(table@),
            decreases n - i,
        {
            let a = self.register_function(methods[i])?;
            table.push(a);
            bytes.push((a & 0xff) as u8);
            bytes.push(((a >> 8u32) & 0xff) as u8);
            bytes.push(((a >> 16u32) & 0xff) as u8);
            bytes.push(((a >> 24u32) & 0xff) as u8);
            proof {
                assert(table@.drop_last() =~= Seq::new(i as nat, |j: int| function_address(base + j) as u32));
            }
            i = i + 1;
            assert(table@ =~= Seq::new(i as nat, |j: int| function_address(base + j) as u32));
            assert(self.methods@ =~= methods0 + methods@.subrange(0, i as int));
            assert(bytes@ =~= words_le(table@));
        }
        assert(methods@.subrange(0, n as int) =~= methods@);
        proof {
            crate::arm::lemma_words_len(table@);
        }
        let ghost mem = self.core.memory@;
        proof {
            if old(self).heap_mapped() && has_room(blocks0, need) {
                let j = choose|j: int| 0 <= j < mem0.len() && covers(mem0[j], self.heap.base as int, self.heap.size as int);
                lemma_first_fit(blocks0, need, 0);
                let bi = first_fit_from(blocks0, need, 0).unwrap();
                assert(inside(blocks0[bi], self.heap.base, self.heap.size));
                lemma_inside_region(mem, j, self.heap.base as int, self.heap.size as int, address as int, bytes@.len() as int);
            }
        }
        self.write_raw(address, bytes.as_slice())?;
        proof {
            lemma_write_then_read(mem, address as int, bytes@);
            lemma_write_keeps_shape(mem, address as int, bytes@);
            assert(mem == old(self).core.memory@);
            assert forall|a: int, la: int|
                la >= 0 && (a + la <= address || address + 4 * methods@.len() <= a) implies #[trigger] read_spec(self.core.memory@, a, la)
                    == read_spec(old(self).core.memory@, a, la) by {
                lemma_write_elsewhere(mem, address as int, bytes@, a, la);
            }
        }
        Ok(address)
    }

    /// Publishes the kernel table and returns its guest address.
    pub fn get_wipic_knl_interface(&mut self) -> (r: Result<u32, CError>)
        requires
            old(self).wf(),
        ensures
            final(self).wf(),
            final(self).scheduler == old(self).scheduler,
            final(self).timers@ == old(self).timers@,
            r is Ok ==> ({
                let base = old(self).methods@.len() as int;
                &&& final(self).methods@.len() == base + 34
                &&& forall|i: int| 0 <= i < 34 ==> final(self).methods@[base + i] == #[trigger] crate::kernel::kernel_method_spec(i as u32)
                &&& read_spec(final(self).core.memory@, r->Ok_0 as int, 136) == Some(
                    words_le(Seq::new(34, |i: int| function_address(base + i) as u32)),
                )
            }),
            old(self).heap_mapped() && has_room(old(self).heap.blocks@, 136) && old(self).methods@.len() + 34 <= MAX_FUNCTIONS ==> r is Ok,
    {
        let table = get_kernel_method_table();
        let r = self.write_methods(&table);
        proof {
            if r is Ok {
                let base = old(self).methods@.len() as int;
                assert forall|i: int| 0 <= i < 34 implies self.methods@[base + i] == #[trigger] crate::kernel::kernel_method_spec(i as u32) by {
                    assert(self.methods@[base + i] == table@[i]);
                }
            }
        }
        r
    }

    /// Materialises the graphics, database and media tables and writes the
    /// `WIPIInterface` record (13 words, the three tables at words 2, 6 and
    /// 9, the others zero) to guest memory; returns the record's address.
    pub fn get_wipic_interfaces(&mut self) -> (r: Result<u32, CError>)
        requires
            old(self).wf(),
        ensures
            final(self).wf(),
            final(self).scheduler == old(self).scheduler,
            final(self).timers@ == old(self).timers@,
            r is Ok ==> exists|g: u32, d: u32, m: u32|
                read_spec(final(self).core.memory@, r->Ok_0 as int, 52) == Some(
                    #[trigger] words_le(interface_words(g, d, m)),
                ),
            r is Ok ==> final(self).methods@ == old(self).methods@ + old(self).graphics@ + old(self).database@ + old(self).media@,
            r is Ok ==> ({
                let base = old(self).methods@.len() as int;
                let ng = old(self).graphics@.len() as int;
                let nd = old(self).database@.len() as int;
                let nm = old(self).media@.len() as int;
                let (b1, g) = alloc_spec(old(self).heap.blocks@, (4 * ng) as u32);
                let (b2, d) = alloc_spec(b1, (4 * nd) as u32);
                let (b3, m) = alloc_spec(b2, (4 * nm) as u32);
                &&& read_spec(final(self).core.memory@, g as int, 4 * ng) == Some(
                    words_le(Seq::new(ng as nat, |i: int| function_address(base + i) as u32)),
                )
                &&& read_spec(final(self).core.memory@, d as int, 4 * nd) == Some(
                    words_le(Seq::new(nd as nat, |i: int| function_address(base + ng + i) as u32)),
                )
                &&& read_spec(final(self).core.memory@, m as int, 4 * nm) == Some(
                    words_le(Seq::new(nm as nat, |i: int| function_address(base + ng + nd + i) as u32)),
                )
            }),
            r is Ok ==> ({
                let (b1, g) = alloc_spec(old(self).heap.blocks@, (4 * old(self).graphics@.len()) as u32);
                let (b2, d) = alloc_spec(b1, (4 * old(self).database@.len()) as u32);
                let (b3, m) = alloc_spec(b2, (4 * old(self).media@.len()) as u32);
                let (b4, a) = alloc_spec(b3, 52);
                &&& r->Ok_0 == a
                &&& final(self).heap.blocks@ == b4
                &&& read_spec(final(self).core.memory@, a as int, 52) == Some(words_le(interface_words(g, d, m)))
            }),
            old(self).heap_mapped() && has_room(
                old(self).heap.blocks@,
                round_up((4 * old(self).graphics@.len()) as u32) + (round_up((4 * old(self).database@.len()) as u32) + (round_up(
                    (4 * old(self).media@.len()) as u32,
                ) + 52)),
            ) && old(self).methods@.len() + old(self).graphics@.len() + old(self).database@.len() + old(self).media@.len()
                <= MAX_FUNCTIONS ==> r is Ok,
    {
        let graphics = self.graphics.clone();
        let database = self.database.clone();
        let media = self.media.clone();
        let ghost rd = round_up((4 * database@.len()) as u32);
        let ghost rm = round_up((4 * media@.len()) as u32);
        proof {
            assert(rd >= 0 && rm >= 0) by {
                let a = (4 * database@.len()) as u32;
                let b = (4 * media@.len()) as u32;
                if a != 0 {
                    let q = (a + 3) / 4;
                    assert(q * 4 >= 0) by (nonlinear_arith) requires q >= 0;
                }
                if b != 0 {
                    let q = (b + 3) / 4;
                    assert(q * 4 >= 0) by (nonlinear_arith) requires q >= 0;
                }
            }
        }
        let ghost s0 = *self;
        let g = self.write_methods(&graphics)?;
        let ghost s1 = *self;
        proof {
            if s0.heap_mapped() {
                lemma_still_mapped(s0.core.memory@, s1.core.memory@, s0.heap.base as int, s0.heap.size as int);
            }
        }
        let d = self.write_methods(&database)?;
        let ghost s2 = *self;
        proof {
            if s1.heap_mapped() {
                lemma_still_mapped(s1.core.memory@, s2.core.memory@, s0.heap.base as int, s0.heap.size as int);
            }
        }
        let m = self.write_methods(&media)?;
        let ghost s3 = *self;
        proof {
            if s2.heap_mapped() {
                lemma_still_mapped(s2.core.memory@, s3.core.memory@, s0.heap.base as int, s0.heap.size as int);
            }
            if has_room(s2.heap.blocks@, rm + 52) {
                assert(has_room(s3.heap.blocks@, 52));
                lemma_room(s3.heap.blocks@, 52, 0);
            }
        }
        let words: [u32; 13] = [0, 0, g, 0, 0, 0, d, 0, 0, m, 0, 0, 0];
        let mut bytes: Vec<u8> = Vec::new();
        let mut k: usize = 0;
        while k < 13
            invariant
                k <= 13,
                words@ == interface_words(g, d, m),
                bytes@ == words_le(words@.subrange(0, k as int)),
            decreases 13 - k,
        {
            let v = words[k];
            bytes.push((v & 0xff) as u8);
            bytes.push(((v >> 8u32) & 0xff) as u8);
            bytes.push(((v >> 16u32) & 0xff) as u8);
            bytes.push(((v >> 24u32) & 0xff) as u8);
            proof {
                assert(words@.subrange(0, k + 1).drop_last() =~= words@.subrange(0, k as int));
            }
            k = k + 1;
            assert(bytes@ =~= words_le(words@.subrange(0, k as int)));
        }
        assert(words@.subrange(0, 13) =~= words@);
        proof {
            crate::arm::lemma_words_len(words@);
        }
        let ghost b3 = self.heap.blocks@;
        let address = self.allocate(52)?;
        proof {
            lemma_first_fit(b3, 52, 0);
        }
        let ghost mem = self.core.memory@;
        proof {
            if s3.heap_mapped() {
                let j = choose|j: int| 0 <= j < mem.len() && covers(mem[j], self.heap.base as int, self.heap.size as int);
                lemma_first_fit(b3, 52, 0);
                let bi = first_fit_from(b3, 52, 0).unwrap();
                assert(inside(b3[bi], self.heap.base, self.heap.size));
                lemma_inside_region(mem, j, self.heap.base as int, self.heap.size as int, address as int, 52);
            }
        }
        self.write_raw(address, bytes.as_slice())?;
        proof {
            lemma_write_then_read(mem, address as int, bytes@);
            let ng = graphics@.len() as int;
            let nd = database@.len() as int;
            let nm = media@.len() as int;
            let r0 = round_up((4 * ng) as u32);
            let r1 = round_up((4 * nd) as u32);
            let r2 = round_up((4 * nm) as u32);
            lemma_round_up((4 * ng) as u32);
            lemma_round_up((4 * nd) as u32);
            lemma_round_up((4 * nm) as u32);
            lemma_round_up(52);
            let b0 = s0.heap.blocks@;
            let b1 = s1.heap.blocks@;
            let b2 = s2.heap.blocks@;
            let i0 = first_fit_from(b0, r0, 0).unwrap();
            let i1 = first_fit_from(b1, r1, 0).unwrap();
            let i2 = first_fit_from(b2, r2, 0).unwrap();
            lemma_first_fit(b0, r0, 0);
            lemma_first_fit(b1, r1, 0);
            lemma_first_fit(b2, r2, 0);
            lemma_first_fit(b3, 52, 0);
            // the three table blocks are live and hold the tables' lengths
            assert(b1[i0].used && b1[i0].offset == g && b1[i0].size >= 4 * ng);
            lemma_fresh_disjoint(&s1.heap, i0, r1);
            assert(b2[i1].used && b2[i1].offset == d && b2[i1].size >= 4 * nd);
            assert(b2[i0] == b1[i0]);
            lemma_fresh_disjoint(&s2.heap, i0, r2);
            lemma_fresh_disjoint(&s2.heap, i1, r2);
            assert(b3[i2].used && b3[i2].offset == m && b3[i2].size >= 4 * nm);
            assert(b3[i0] == b1[i0]);
            assert(b3[i1] == b2[i1]);
            lemma_fresh_disjoint(&s3.heap, i0, 52);
            lemma_fresh_disjoint(&s3.heap, i1, 52);
            lemma_fresh_disjoint(&s3.heap, i2, 52);
            // reads of the tables survive every later write
            assert(read_spec(s2.core.memory@, g as int, 4 * ng) == read_spec(s1.core.memory@, g as int, 4 * ng));
            assert(read_spec(s3.core.memory@, g as int, 4 * ng) == read_spec(s2.core.memory@, g as int, 4 * ng));
            assert(read_spec(s3.core.memory@, d as int, 4 * nd) == read_spec(s2.core.memory@, d as int, 4 * nd));
            assert(mem == s3.core.memory@);
            lemma_write_elsewhere(mem, address as int, bytes@, g as int, 4 * ng);
            lemma_write_elsewhere(mem, address as int, bytes@, d as int, 4 * nd);
            lemma_write_elsewhere(mem, address as int, bytes@, m as int, 4 * nm);
        }
        Ok(address)
    }

    /// `MC_knlAlloc`: the new block's address, or null when the heap is full.
    pub fn knl_alloc(&mut self, size: u32) -> (r: u32)
        requires
            old(self).wf(),
        ensures
            final(self).wf(),
            final(self).core == old(self).core,
            final(self).methods@ == old(self).methods@,
            final(self).scheduler == old(self).scheduler,
            final(self).timers@ == old(self).timers@,
            (final(self).heap.blocks@, r) == alloc_spec(old(self).heap.blocks@, size),
    {
        match self.heap.allocate(size) {
            Some(a) => a,
            None => 0,
        }
    }

    /// `MC_knlCalloc`: like `MC_knlAlloc`, and the `size` requested bytes are
    /// zeroed in guest memory.
    pub fn knl_calloc(&mut self, size: u32) -> (r: Result<u32, CError>)
        requires
            old(self).wf(),
        ensures
            final(self).wf(),
            final(self).core.regs@ == old(self).core.regs@,
            final(self).core.functions@ == old(self).core.functions@,
            final(self).methods@ == old(self).methods@,
            final(self).scheduler == old(self).scheduler,
            final(self).timers@ == old(self).timers@,
            final(self).heap.blocks@ == alloc_spec(old(self).heap.blocks@, size).0,
            ({
                let a = alloc_spec(old(self).heap.blocks@, size).1;
                if first_fit_from(old(self).heap.blocks@, round_up(size), 0) is None {
                    r == Ok::<u32, CError>(0) && final(self).core.memory@ == old(self).core.memory@
                } else {
                    match write_spec(old(self).core.memory@, a as int, zeros(size as int)) {
                        Some(m) => r == Ok::<u32, CError>(a) && final(self).core.memory@ == m,
                        None => r is Err && final(self).core.memory@ == old(self).core.memory@,
                    }
                }
            }),
    {
        let a = match self.heap.allocate(size) {
            None => return Ok(0),
            Some(a) => a,
        };
        let mut z: Vec<u8> = Vec::new();
        let mut k: u32 = 0;
        while k < size
            invariant
                k <= size,
                z@ == zeros(k as int),
            decreases size - k,
        {
            z.push(0u8);
            k = k + 1;
            assert(z@ =~= zeros(k as int));
        }
        self.write_raw(a, z.as_slice())?;
        Ok(a)
    }

    /// `MC_knlFree`: returns the block at `addr` to the heap, and `addr`.
    pub fn knl_free(&mut self, addr: u32) -> (r: u32)
        requires
            old(self).wf(),
        ensures
            final(self).wf(),
            final(self).core == old(self).core,
            final(self).methods@ == old(self).methods@,
            final(self).scheduler == old(self).scheduler,
            final(self).timers@ == old(self).timers@,
            final(self).heap.blocks@ == free_spec(old(self).heap.blocks@, addr),
            r == addr,
    {
        self.heap.free(addr);
        addr
    }

    /// `MC_knlDefTimer`: writes a timer record holding `fn_callback`, every
    /// other field zero, at `ptr_timer`.
    pub fn knl_def_timer(&mut self, ptr_timer: u32, fn_callback: u32) -> (r: Result<u32, CError>)
        requires
            old(self).wf(),
        ensures
            final(self).wf(),
            final(self).heap == old(self).heap,
            final(self).methods@ == old(self).methods@,
            final(self).scheduler == old(self).scheduler,
            final(self).timers@ == old(self).timers@,
            ({
                let t = WIPICTimer { unk1: 0, unk2: 0, unk3: 0, time: 0, param: 0, unk4: 0, fn_callback };
                match write_spec(old(self).core.memory@, ptr_timer as int, words_le(t.words())) {
                    Some(m) => r == Ok::<u32, CError>(0) && final(self).core.memory@ == m,
                    None => r is Err && final(self).core.memory@ == old(self).core.memory@,
                }
            }),
    {
        let timer = WIPICTimer { unk1: 0, unk2: 0, unk3: 0, time: 0, param: 0, unk4: 0, fn_callback };
        let bytes = timer.to_bytes();
        self.write_raw(ptr_timer, bytes.as_slice())?;
        Ok(0)
    }

    /// `MC_knlSetTimer`: reads the callback out of the timer record at
    /// `ptr_timer` and schedules a task that may run once the 64-bit timeout
    /// `timeout_high:timeout_low` has passed on the scheduler's clock; the
    /// task then calls the callback with `param`.
    pub fn knl_set_timer(&mut self, ptr_timer: u32, timeout_low: u32, timeout_high: u32, param: u32) -> (r: Result<u32, CError>)
        requires
            old(self).wf(),
        ensures
            final(self).wf(),
            final(self).heap == old(self).heap,
            final(self).core == old(self).core,
            final(self).methods@ == old(self).methods@,
            final(self).scheduler.now == old(self).scheduler.now,
            final(self).scheduler.ready@ == old(self).scheduler.ready@,
            r is Ok ==> ({
                let timeout = timeout_high * 0x1_0000_0000 + timeout_low;
                let record = read_spec(old(self).core.memory@, ptr_timer as int, 32).unwrap();
                let id = old(self).scheduler.next_id;
                &&& read_spec(old(self).core.memory@, ptr_timer as int, 32) is Some
                &&& r == Ok::<u32, CError>(0)
                &&& final(self).scheduler.delayed@ == old(self).scheduler.delayed@.push(
                    Task { id, wake: wake_time(old(self).scheduler.now, timeout as u64) },
                )
                &&& final(self).timers@ == old(self).timers@.push(
                    TimerTask { task: id, callback: word_of(record.subrange(28, 32)), param },
                )
            }),
            read_spec(old(self).core.memory@, ptr_timer as int, 32) is None ==> r == Err::<u32, CError>(
                CError::Arm(ArmError::Memory(MemoryError::Unmapped { address: ptr_timer, length: 32 })),
            ),
            read_spec(old(self).core.memory@, ptr_timer as int, 32) is Some ==> (r == Err::<u32, CError>(CError::TaskLimit)
                <==> old(self).scheduler.next_id == u64::MAX),
            read_spec(old(self).core.memory@, ptr_timer as int, 32) is Some && old(self).scheduler.next_id < u64::MAX ==> r
                == Ok::<u32, CError>(0),
    {
        let record = match self.core.memory.read(ptr_timer, TIMER_SIZE) {
            Err(e) => return Err(CError::Arm(ArmError::Memory(e))),
            Ok(b) => b,
        };
        let callback = (record[28] as u32) | ((record[29] as u32) << 8u32) | ((record[30] as u32) << 16u32) | ((record[31] as u32) << 24u32);
        assert(word_of(record@.subrange(28, 32)) == callback);
        if self.scheduler.next_id == u64::MAX {
            return Err(CError::TaskLimit);
        }
        let timeout: u64 = (timeout_high as u64) * 0x1_0000_0000 + (timeout_low as u64);
        let task = self.scheduler.spawn_after(timeout);
        self.timers.push(TimerTask { task, callback, param });
        Ok(0)
    }

    /// Removes and returns the timer that scheduler task `task` stands for.
    pub fn take_timer(&mut self, task: u64) -> (r: Option<TimerTask>)
        requires
            old(self).wf(),
        ensures
            final(self).wf(),
            final(self).core == old(self).core,
            final(self).heap == old(self).heap,
            final(self).scheduler == old(self).scheduler,
            final(self).methods@ == old(self).methods@,
            match r {
                Some(t) => t.task == task && exists|k: int|
                    0 <= k < old(self).timers@.len() && old(self).timers@[k] == t && final(self).timers@
                        == old(self).timers@.remove(k) && forall|j: int| 0 <= j < k ==> (#[trigger] old(self).timers@[j]).task != task,
                None => final(self).timers@ == old(self).timers@ && forall|k: int|
                    0 <= k < old(self).timers@.len() ==> (#[trigger] old(self).timers@[k]).task != task,
            },
    {
        let mut k: usize = 0;
        while k < self.timers.len()
            invariant
                k <= self.timers@.len(),
                self.timers@ == old(self).timers@,
                self.core == old(self).core,
                self.heap == old(self).heap,
                self.scheduler == old(self).scheduler,
                self.methods@ == old(self).methods@,
                self.graphics@ == old(self).graphics@,
                self.database@ == old(self).database@,
                self.media@ == old(self).media@,
                old(self).wf(),
                forall|j: int| 0 <= j < k ==> (#[trigger] old(self).timers@[j]).task != task,
            decreases self.timers@.len() - k,
        {
            if self.timers[k].task == task {
                let t = self.timers.remove(k);
                return Some(t);
            }
            k = k + 1;
        }
        None
    }

    pub open spec fn resource_names(&self) -> Seq<Seq<u8>> {
        self.resources@.map_values(|r: Resource| r.name@)
    }

    /// Reads the NUL-terminated string at `addr`.
    pub fn read_cstring(&self, addr: u32) -> (r: Result<Vec<u8>, CError>)
        requires
            self.wf(),
        ensures
            r is Ok ==> cstring_at(self.core.memory@, addr as int, r->Ok_0@),
            readable_cstring(self.core.memory@, addr) ==> r is Ok,
    {
        let ghost owed = readable_cstring(self.core.memory@, addr);
        let ghost v0: Seq<u8> = if owed {
            choose|v: Seq<u8>| #[trigger] cstring_at(self.core.memory@, addr as int, v) && v.len() < MAX_CSTRING && addr + v.len() <= 0xffff_ffff
        } else {
            Seq::empty()
        };
        let mut out: Vec<u8> = Vec::new();
        let mut k: u32 = 0;
        while k < MAX_CSTRING
            invariant
                k <= MAX_CSTRING,
                out@.len() == k,
                owed == readable_cstring(self.core.memory@, addr),
                owed ==> cstring_at(self.core.memory@, addr as int, v0) && v0.len() < MAX_CSTRING && addr + v0.len() <= 0xffff_ffff,
                owed ==> k <= v0.len() && out@ == v0.subrange(0, k as int),
                forall|i: int| 0 <= i < k ==> out@[i] != 0 && read_spec(self.core.memory@, addr + i, 1) == Some(seq![#[trigger] out@[i]]),
            decreases MAX_CSTRING - k,
        {
            if addr as u64 + k as u64 > 0xffff_ffff {
                return Err(CError::StringTooLong { address: addr });
            }
            proof {
                if owed {
                    if k < v0.len() {
                        let x = v0[k as int];
                        assert(read_spec(self.core.memory@, addr + k, 1) == Some(seq![x]));
                    } else {
                        assert(k as int == v0.len());
                        assert(read_spec(self.core.memory@, addr + v0.len(), 1) == Some(seq![0u8]));
                    }
                }
            }
            let b = match self.core.memory.read(addr + k, 1) {
                Err(e) => return Err(CError::Arm(ArmError::Memory(e))),
                Ok(b) => b,
            };
            assert(b@ =~= seq![b@[0]]);
            proof {
                if owed && k < v0.len() {
                    assert(read_spec(self.core.memory@, addr + k, 1) == Some(seq![v0[k as int]]));
                    assert(b@[0] == v0[k as int]);
                }
            }
            if b[0] == 0 {
                proof {
                    if owed {
                        assert(k as int == v0.len());
                        assert(out@ =~= v0);
                    }
                }
                return Ok(out);
            }
            out.push(b[0]);
            k = k + 1;
            proof {
                if owed {
                    assert(out@ =~= v0.subrange(0, k as int));
                }
            }
        }
        Err(CError::StringTooLong { address: addr })
    }

    fn find_resource(&self, name: &[u8]) -> (r: Option<usize>)
        ensures
            match r {
                Some(k) => find_resource(self.resource_names(), name@, 0) == Some(k as int),
                None => find_resource(self.resource_names(), name@, 0) is None,
            },
    {
        let mut k: usize = 0;
        while k < self.resources.len()
            invariant
                k <= self.resources@.len(),
                find_resource(self.resource_names(), name@, 0) == find_resource(self.resource_names(), name@, k as int),
            decreases self.resources@.len() - k,
        {
            let cand = &self.resources[k].name;
            let mut same = cand.len() == name.len();
            let mut i: usize = 0;
            while same && i < name.len()
                invariant
                    i <= name@.len(),
                    same ==> cand@.len() == name@.len(),
                    same ==> forall|j: int| 0 <= j < i ==> cand@[j] == name@[j],
                    !same ==> cand@.len() != name@.len() || exists|j: int| 0 <= j < i && cand@[j] != name@[j],
                decreases name@.len() - i,
            {
                if cand[i] != name[i] {
                    same = false;
                }
                i = i + 1;
            }
            assert(self.resource_names()[k as int] == cand@);
            if same {
                assert(cand@ =~= name@);
                return Some(k);
            }
            assert(cand@ != name@);
            k = k + 1;
        }
        None
    }

    /// `MC_knlGetResourceID`: looks up the resource named by the string at
    /// `name_ptr` (a leading `/` is ignored); writes its size as a word at
    /// `ptr_size` and returns its id, or returns -1 when there is none.
    pub fn knl_get_resource_id(&mut self, name_ptr: u32, ptr_size: u32) -> (r: Result<u32, CError>)
        requires
            old(self).wf(),
        ensures
            final(self).wf(),
            final(self).heap == old(self).heap,
            final(self).methods@ == old(self).methods@,
            final(self).scheduler == old(self).scheduler,
            final(self).timers@ == old(self).timers@,
            r is Ok ==> exists|v: Seq<u8>|
                #[trigger] cstring_at(old(self).core.memory@, name_ptr as int, v) && match find_resource(
                    old(self).resource_names(),
                    normalized(v),
                    0,
                ) {
                    None => r == Ok::<u32, CError>(C_ERROR) && final(self).core.memory@ == old(self).core.memory@,
                    Some(k) => r == Ok::<u32, CError>(k as u32) && Some(final(self).core.memory@) == write_spec(
                        old(self).core.memory@,
                        ptr_size as int,
                        le_bytes(old(self).resources@[k].data@.len() as u32),
                    ),
                },
            readable_cstring(old(self).core.memory@, name_ptr) && read_spec(old(self).core.memory@, ptr_size as int, 4) is Some ==> r is Ok,
    {
        let name = self.read_cstring(name_ptr)?;
        let n = name.len();
        let stripped: &[u8] = if n > 0 && name[0] == 0x2f {
            slice_from(name.as_slice(), 1)
        } else {
            name.as_slice()
        };
        assert(stripped@ == normalized(name@));
        match self.find_resource(stripped) {
            None => Ok(C_ERROR),
            Some(k) => {
                proof {
                    lemma_find_resource(self.resource_names(), stripped@, 0);
                }
                let size = self.resources[k].data.len() as u32;
                if let Err(e) = self.core.memory.write_u32(ptr_size, size) {
                    return Err(CError::Arm(ArmError::Memory(e)));
                }
                Ok(k as u32)
            },
        }
    }

    /// `MC_knlGetResource`: copies resource `id` into the guest buffer `buf`
    /// and returns 0; returns -1 when there is no such resource or it does
    /// not fit in `buf_size` bytes.
    pub fn knl_get_resource(&mut self, id: u32, buf: u32, buf_size: u32) -> (r: Result<u32, CError>)
        requires
            old(self).wf(),
        ensures
            final(self).wf(),
            final(self).heap == old(self).heap,
            final(self).methods@ == old(self).methods@,
            final(self).scheduler == old(self).scheduler,
            final(self).timers@ == old(self).timers@,
            id >= old(self).resources@.len() || old(self).resources@[id as int].data@.len() > buf_size ==> r == Ok::<
                u32,
                CError,
            >(C_ERROR) && final(self).core.memory@ == old(self).core.memory@,
            id < old(self).resources@.len() && old(self).resources@[id as int].data@.len() <= buf_size ==> match write_spec(
                old(self).core.memory@,
                buf as int,
                old(self).resources@[id as int].data@,
            ) {
                Some(m) => r == Ok::<u32, CError>(0) && final(self).core.memory@ == m,
                None => r is Err && final(self).core.memory@ == old(self).core.memory@,
            },
    {
        if id as usize >= self.resources.len() {
            return Ok(C_ERROR);
        }
        if self.resources[id as usize].data.len() > buf_size as usize {
            return Ok(C_ERROR);
        }
        match self.core.memory.write(buf, self.resources[id as usize].data.as_slice()) {
            Ok(()) => Ok(0),
            Err(e) => Err(CError::Arm(ArmError::Memory(e))),
        }
    }

    /// Runs the host method behind `callback` with the guest arguments
    /// `a0..a3` and returns its result word.
    pub fn call_method(&mut self, callback: u32, a0: u32, a1: u32, a2: u32, a3: u32) -> (r: Result<u32, CError>)
        requires
            old(self).wf(),
        ensures
            final(self).wf(),
            callback >= old(self).methods@.len() ==> r == Err::<u32, CError>(CError::NoSuchFunction { callback })
                && final(self).core == old(self).core && final(self).heap == old(self).heap,
            callback < old(self).methods@.len() ==> match old(self).methods@[callback as int] {
                CMethod::Unimplemented { interface, index } => r == Err::<u32, CError>(
                    CError::Unimplemented { interface, index },
                ) && final(self).core == old(self).core && final(self).heap == old(self).heap,
                CMethod::Printk | CMethod::UnsetTimer | CMethod::GetSystemProperty => r == Ok::<u32, CError>(0)
                    && final(self).core == old(self).core && final(self).heap == old(self).heap,
                CMethod::CurrentTime => r == Ok::<u32, CError>((old(self).scheduler.now % 0x1_0000_0000) as u32)
                    && final(self).core == old(self).core && final(self).heap == old(self).heap,
                CMethod::Alloc => (final(self).heap.blocks@, r->Ok_0) == alloc_spec(old(self).heap.blocks@, a0)
                    && r is Ok && final(self).core == old(self).core,
                CMethod::Free => final(self).heap.blocks@ == free_spec(old(self).heap.blocks@, a0)
                    && r == Ok::<u32, CError>(a0) && final(self).core == old(self).core,
                CMethod::Calloc => final(self).heap.blocks@ == alloc_spec(old(self).heap.blocks@, a0).0 && ({
                    let a = alloc_spec(old(self).heap.blocks@, a0).1;
                    if first_fit_from(old(self).heap.blocks@, round_up(a0), 0) is None {
                        r == Ok::<u32, CError>(0) && final(self).core.memory@ == old(self).core.memory@
                    } else {
                        match write_spec(old(self).core.memory@, a as int, zeros(a0 as int)) {
                            Some(m) => r == Ok::<u32, CError>(a) && final(self).core.memory@ == m,
                            None => r is Err && final(self).core.memory@ == old(self).core.memory@,
                        }
                    }
                }),
                CMethod::DefTimer => final(self).heap == old(self).heap && ({
                    let t = WIPICTimer { unk1: 0, unk2: 0, unk3: 0, time: 0, param: 0, unk4: 0, fn_callback: a1 };
                    match write_spec(old(self).core.memory@, a0 as int, words_le(t.words())) {
                        Some(m) => r == Ok::<u32, CError>(0) && final(self).core.memory@ == m,
                        None => r is Err && final(self).core.memory@ == old(self).core.memory@,
                    }
                }),
                CMethod::SetTimer => final(self).core == old(self).core && final(self).heap == old(self).heap && (read_spec(
                    old(self).core.memory@,
                    a0 as int,
                    32,
                ) is Some && old(self).scheduler.next_id < u64::MAX ==> ({
                    let record = read_spec(old(self).core.memory@, a0 as int, 32).unwrap();
                    let id = old(self).scheduler.next_id;
                    &&& r == Ok::<u32, CError>(0)
                    &&& final(self).scheduler.delayed@ == old(self).scheduler.delayed@.push(
                        Task { id, wake: wake_time(old(self).scheduler.now, (a2 * 0x1_0000_0000 + a1) as u64) },
                    )
                    &&& final(self).timers@ == old(self).timers@.push(
                        TimerTask { task: id, callback: word_of(record.subrange(28, 32)), param: a3 },
                    )
                })) && (read_spec(old(self).core.memory@, a0 as int, 32) is None ==> r is Err),
                CMethod::GetResourceId => final(self).heap == old(self).heap && (readable_cstring(old(self).core.memory@, a0) && read_spec(
                    old(self).core.memory@,
                    a1 as int,
                    4,
                ) is Some ==> r is Ok) && (r is Ok ==> exists|v: Seq<u8>|
                    #[trigger] cstring_at(old(self).core.memory@, a0 as int, v) && match find_resource(
                        old(self).resource_names(),
                        normalized(v),
                        0,
                    ) {
                        None => r == Ok::<u32, CError>(C_ERROR) && final(self).core.memory@ == old(self).core.memory@,
                        Some(k) => r == Ok::<u32, CError>(k as u32) && Some(final(self).core.memory@) == write_spec(
                            old(self).core.memory@,
                            a1 as int,
                            le_bytes(old(self).resources@[k].data@.len() as u32),
                        ),
                    }),
                CMethod::GetResource => final(self).heap == old(self).heap && (a0 >= old(self).resources@.len()
                    || old(self).resources@[a0 as int].data@.len() > a2 ==> r == Ok::<u32, CError>(C_ERROR)
                    && final(self).core.memory@ == old(self).core.memory@) && (a0 < old(self).resources@.len()
                    && old(self).resources@[a0 as int].data@.len() <= a2 ==> match write_spec(
                    old(self).core.memory@,
                    a1 as int,
                    old(self).resources@[a0 as int].data@,
                ) {
                    Some(m) => r == Ok::<u32, CError>(0) && final(self).core.memory@ == m,
                    None => r is Err && final(self).core.memory@ == old(self).core.memory@,
                }),
                CMethod::GetInterfaces => (r is Ok ==> exists|g: u32, d: u32, m: u32|
                    read_spec(final(self).core.memory@, r->Ok_0 as int, 52) == Some(
                        #[trigger] words_le(interface_words(g, d, m)),
                    )) && (old(self).heap_mapped() && has_room(
                    old(self).heap.blocks@,
                    round_up((4 * old(self).graphics@.len()) as u32) + (round_up((4 * old(self).database@.len()) as u32) + (round_up(
                        (4 * old(self).media@.len()) as u32,
                    ) + 52)),
                ) && old(self).methods@.len() + old(self).graphics@.len() + old(self).database@.len() + old(self).media@.len()
                    <= MAX_FUNCTIONS ==> r is Ok),
            },
    {
        if callback as usize >= self.methods.len() {
            return Err(CError::NoSuchFunction { callback });
        }
        match self.methods[callback as usize] {
            CMethod::Unimplemented { interface, index } => Err(CError::Unimplemented { interface, index }),
            CMethod::Printk => Ok(0),
            CMethod::UnsetTimer => Ok(0),
            CMethod::GetSystemProperty => Ok(0),
            CMethod::CurrentTime => Ok((self.scheduler.now % 0x1_0000_0000) as u32),
            CMethod::Alloc => Ok(self.knl_alloc(a0)),
            CMethod::Calloc => self.knl_calloc(a0),
            CMethod::Free => Ok(self.knl_free(a0)),
            CMethod::DefTimer => self.knl_def_timer(a0, a1),
            CMethod::SetTimer => self.knl_set_timer(a0, a1, a2, a3),
            CMethod::GetResourceId => self.knl_get_resource_id(a0, a1),
            CMethod::GetResource => self.knl_get_resource(a0, a1, a2),
            CMethod::GetInterfaces => self.get_wipic_interfaces(),
        }
    }

    /// Calls guest function `entry` with `args` and runs the core, serving
    /// host calls on the way, until it returns (its `r0` is the result) or
    /// `max_steps` steps have passed. The caller's registers and status
    /// register are restored after a return.
    pub fn run_function(&mut self, entry: u32, args: &[u32], max_steps: u64) -> (r: Result<u32, CError>)
        requires
            old(self).wf(),
            args@.len() <= 0x1000,
        ensures
            final(self).wf(),
            r is Ok ==> final(self).core.regs@ == old(self).core.regs@ && final(self).core.cpsr == old(self).core.cpsr,
            max_steps == 0 ==> r is Err,
            !call_ok(old(self).core.regs@, old(self).core.memory@, args@) ==> r is Err,
            ({
                let run = guest_run(
                    call_regs(old(self).core.regs@, entry, args@),
                    call_mem(old(self).core.memory@, old(self).core.regs@, args@),
                    old(self).core.functions@,
                    with_thumb(old(self).core.cpsr, entry & 1 == 1),
                    max_steps as nat,
                );
                call_ok(old(self).core.regs@, old(self).core.memory@, args@) && run is Some ==> r == Ok::<u32, CError>(run.unwrap())
            }),
    {
        let ghost start = guest_run(
            call_regs(self.core.regs@, entry, args@),
            call_mem(self.core.memory@, self.core.regs@, args@),
            self.core.functions@,
            with_thumb(self.core.cpsr, entry & 1 == 1),
            max_steps as nat,
        );
        let ghost f0 = self.core.functions@;
        let mut saved: Vec<u32> = Vec::new();
        let mut i: usize = 0;
        while i < 16
            invariant
                i <= 16,
                self.wf(),
                *self == *old(self),
                saved@ == old(self).core.regs@.subrange(0, i as int),
            decreases 16 - i,
        {
            saved.push(self.core.regs[i]);
            i = i + 1;
            assert(saved@ =~= old(self).core.regs@.subrange(0, i as int));
        }
        assert(saved@ =~= old(self).core.regs@);
        let saved_cpsr = self.core.cpsr;
        if let Err(e) = self.core.prepare_call(entry, args) {
            return Err(CError::Arm(e));
        }
        let mut n: u64 = 0;
        while n < max_steps
            invariant
                self.wf(),
                saved@ == old(self).core.regs@,
                saved_cpsr == old(self).core.cpsr,
                old(self).core.regs@.len() == 16,
                n <= max_steps,
                call_ok(old(self).core.regs@, old(self).core.memory@, args@),
                start == guest_run(
                    call_regs(old(self).core.regs@, entry, args@),
                    call_mem(old(self).core.memory@, old(self).core.regs@, args@),
                    old(self).core.functions@,
                    with_thumb(old(self).core.cpsr, entry & 1 == 1),
                    max_steps as nat,
                ),
                start is Some ==> self.core.functions@ == f0 && guest_run(
                    self.core.regs@,
                    self.core.memory@,
                    f0,
                    self.core.cpsr,
                    (max_steps - n) as nat,
                ) == start,
                f0 == old(self).core.functions@,
            decreases max_steps - n,
        {
            match self.core.step() {
                Err(e) => {
                    return Err(CError::Arm(e));
                },
                Ok(StepEvent::Executed) => {},
                Ok(StepEvent::HostCall { callback, a0, a1, a2, a3 }) => {
                    let v = self.call_method(callback, a0, a1, a2, a3)?;
                    self.core.return_from_host(v);
                },
                Ok(StepEvent::Returned { r0, r1 }) => {
                    self.core.regs = saved;
                    self.core.cpsr = saved_cpsr;
                    return Ok(r0);
                },
            }
            n = n + 1;
        }
        Err(CError::StepLimit)
    }

    /// Runs the application's `init` function at `fn_init`, which must
    /// return zero.
    pub fn run_init(&mut self, fn_init: u32, max_steps: u64) -> (r: Result<(), CError>)
        requires
            old(self).wf(),
        ensures
            final(self).wf(),
            ({
                let run = guest_run(
                    call_regs(old(self).core.regs@, fn_init, Seq::empty()),
                    old(self).core.memory@,
                    old(self).core.functions@,
                    with_thumb(old(self).core.cpsr, fn_init & 1 == 1),
                    max_steps as nat,
                );
                &&& run == Some(0u32) ==> r is Ok
                &&& run is Some && run.unwrap() != 0 ==> r == Err::<(), CError>(CError::InitFailed { code: run.unwrap() })
            }),
    {
        let args: [u32; 0] = [];
        proof {
            assert(args@ =~= Seq::<u32>::empty());
            assert(call_mem(self.core.memory@, self.core.regs@, args@) == self.core.memory@);
        }
        let code = self.run_function(fn_init, &args, max_steps)?;
        if code != 0 {
            return Err(CError::InitFailed { code });
        }
        Ok(())
    }

    /// Runs the timer behind scheduler task `task`, if there is one: calls
    /// its guest callback with its parameter. `Ok(false)` when `task` is no
    /// timer's.
    pub fn run_timer(&mut self, task: u64, max_steps: u64) -> (r: Result<bool, CError>)
        requires
            old(self).wf(),
        ensures
            final(self).wf(),
            r == Ok::<bool, CError>(false) <==> forall|k: int|
                0 <= k < old(self).timers@.len() ==> (#[trigger] old(self).timers@[k]).task != task,
            forall|k: int|
                0 <= k < old(self).timers@.len() && (#[trigger] old(self).timers@[k]).task == task && (forall|j: int|
                    0 <= j < k ==> (#[trigger] old(self).timers@[j]).task != task) && guest_run(
                    call_regs(old(self).core.regs@, old(self).timers@[k].callback, seq![old(self).timers@[k].param]),
                    old(self).core.memory@,
                    old(self).core.functions@,
                    with_thumb(old(self).core.cpsr, old(self).timers@[k].callback & 1 == 1),
                    max_steps as nat,
                ) is Some ==> r == Ok::<bool, CError>(true),
    {
        match self.take_timer(task) {
            None => Ok(false),
            Some(t) => {
                let args: [u32; 1] = [t.param];
                proof {
                    assert(args@ =~= seq![t.param]);
                    assert forall|k: int|
                        0 <= k < old(self).timers@.len() && (#[trigger] old(self).timers@[k]).task == task && (forall|j: int|
                            0 <= j < k ==> (#[trigger] old(self).timers@[j]).task != task) implies old(self).timers@[k] == t by {
                        let k2 = choose|k2: int|
                            0 <= k2 < old(self).timers@.len() && old(self).timers@[k2] == t && self.timers@ == old(self).timers@.remove(k2)
                                && forall|j: int| 0 <= j < k2 ==> (#[trigger] old(self).timers@[j]).task != task;
                        if k < k2 {
                            assert(old(self).timers@[k].task != task);
                        } else if k > k2 {
                            assert(old(self).timers@[k2].task != task);
                        }
                    }
                    assert(call_mem(self.core.memory@, self.core.regs@, args@) == self.core.memory@);
                }
                match self.run_function(t.callback, &args, max_steps) {
                    Ok(_) => Ok(true),
                    Err(e) => Err(e),
                }
            },
        }
    }
}

} // verus!
