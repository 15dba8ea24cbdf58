use vstd::prelude::*;
use crate::thumb::{in_thumb, thumb_step_spec, with_thumb};
use crate::memory::{GuestMemory, MemoryError, le_bytes, read_spec, word_of, write_spec, lemma_word_round_trip};

verus! {

/// First synthetic address; host functions are laid out one word apart
/// from here, in the order in which they were registered.
pub const FUNCTIONS_BASE: u32 = 0x7100_0000;

/// Most host functions that can be registered.
pub const MAX_FUNCTIONS: u32 = 0x10_0000;

/// Return address planted by `prepare_call`: reaching it ends the call.
pub const RETURN_SENTINEL: u32 = 0x7f00_0000;

/// The operation of a data-processing instruction.
#[derive(Debug, Clone, Copy, PartialEq, Eq, Structural)]
pub enum AluOp {
    Mov,
    Add,
    Sub,
    /// `cmp`: sets the flags from `rn - operand` and writes no register.
    Cmp,
}

/// A decoded ARM instruction of the supported subset.
#[derive(Debug, Clone, Copy, PartialEq, Eq, Structural)]
pub enum Instr {
    /// `b` / `bl`: `offset` is already shifted and sign-extended.
    Branch { link: bool, offset: u32 },
    /// `bx rm` / `blx rm`: bit 0 of the target selects Thumb state.
    BranchExchange { link: bool, rm: u32 },
    /// Data processing with a (rotated) immediate operand.
    DataImm { op: AluOp, rd: u32, rn: u32, imm: u32 },
    /// Data processing with an unshifted register operand.
    DataReg { op: AluOp, rd: u32, rn: u32, rm: u32 },
    /// `ldr` / `str` of a word at `[rn, #+/-offset]`.
    Transfer { load: bool, rd: u32, rn: u32, offset: u32, up: bool },
    /// `push {list}` (`stmdb sp!, {list}`).
    Push { list: u32 },
    /// `pop {list}` (`ldmia sp!, {list}`); `sp` itself is not in the list.
    Pop { list: u32 },
    Undefined,
}

/// What a step of the core came to.
#[derive(Debug, Clone, Copy, PartialEq, Eq, Structural)]
pub enum StepEvent {
    /// An instruction was executed.
    Executed,
    /// `pc` reached a synthetic address: the host must run `callback` with
    /// the arguments `a0..a3` (r0..r3) and hand its result to `return_from_host`.
    HostCall { callback: u32, a0: u32, a1: u32, a2: u32, a3: u32 },
    /// `pc` reached the return sentinel: the call is over, its result is `r0`
    /// (and `r1` for a 64-bit one).
    Returned { r0: u32, r1: u32 },
}

/// A fault that ends the current task.
#[derive(Debug, Clone, Copy, PartialEq, Eq, Structural)]
pub enum ArmError {
    Memory(MemoryError),
    InvalidInstruction { pc: u32, word: u32 },
    TooManyFunctions,
    /// The stack pointer is too low to hold a call's stacked arguments.
    StackOverflow,
}

/// CPU state, guest memory and the table of host functions.
pub struct ArmCore {
    pub regs: Vec<u32>,
    pub cpsr: u32,
    pub memory: GuestMemory,
    pub functions: Vec<u32>,
}

/// The immediate of a data-processing instruction: `imm8` rotated right by
/// twice the rotate field.
pub open spec fn rotated_imm(w: u32) -> u32 {
    let imm = w & 0xff;
    let rot: u32 = (((w >> 8u32) & 0xf) * 2) as u32;
    if rot == 0 {
        imm
    } else {
        (imm >> rot) | (imm << ((32 - rot) as u32))
    }
}

/// The 24-bit branch field, sign-extended and multiplied by four.
pub open spec fn branch_offset(w: u32) -> u32 {
    let imm = w & 0x00ff_ffff;
    if imm & 0x0080_0000 != 0 {
        (imm | 0xff00_0000).wrapping_shl(2)
    } else {
        imm << 2u32
    }
}

/// The supported data-processing operations: `mov`, `add` and `sub`
/// without flag setting, and `cmp`, which always sets them.
pub open spec fn alu_op(opcode: u32, s: u32) -> Option<AluOp> {
    if opcode == 0xd && s == 0 {
        Some(AluOp::Mov)
    } else if opcode == 0x4 && s == 0 {
        Some(AluOp::Add)
    } else if opcode == 0x2 && s == 0 {
        Some(AluOp::Sub)
    } else if opcode == 0xa && s == 1 {
        Some(AluOp::Cmp)
    } else {
        None
    }
}

/// Decoding of one ARM word, condition field aside; everything outside the
/// subset, and the unconditional space (condition `0xf`), is `Undefined`.
pub open spec fn decode_spec(w: u32) -> Instr {
    if w >> 28u32 == 0xf {
        Instr::Undefined
    } else if w & 0x0fff_fff0 == 0x012f_ff10 {
        Instr::BranchExchange { link: false, rm: w & 0xf }
    } else if w & 0x0fff_fff0 == 0x012f_ff30 {
        Instr::BranchExchange { link: true, rm: w & 0xf }
    } else if w & 0x0e00_0000 == 0x0a00_0000 {
        Instr::Branch { link: w & 0x0100_0000 != 0, offset: branch_offset(w) }
    } else if w & 0x0fff_0000 == 0x092d_0000 && w & 0xffff != 0 {
        Instr::Push { list: w & 0xffff }
    } else if w & 0x0fff_0000 == 0x08bd_0000 && w & 0xffff != 0 && w & 0x2000 == 0 {
        Instr::Pop { list: w & 0xffff }
    } else if w & 0x0c00_0000 == 0 {
        let op = alu_op((w >> 21u32) & 0xf, (w >> 20u32) & 1);
        if op is None {
            Instr::Undefined
        } else if (w >> 25u32) & 1 != 0 {
            Instr::DataImm { op: op.unwrap(), rd: (w >> 12u32) & 0xf, rn: (w >> 16u32) & 0xf, imm: rotated_imm(w) }
        } else if (w >> 4u32) & 0xff != 0 {
            Instr::Undefined
        } else {
            Instr::DataReg { op: op.unwrap(), rd: (w >> 12u32) & 0xf, rn: (w >> 16u32) & 0xf, rm: w & 0xf }
        }
    } else if w & 0x0f60_0000 == 0x0500_0000 {
        Instr::Transfer {
            load: (w >> 20u32) & 1 != 0,
            rd: (w >> 12u32) & 0xf,
            rn: (w >> 16u32) & 0xf,
            offset: w & 0xfff,
            up: (w >> 23u32) & 1 != 0,
        }
    } else {
        Instr::Undefined
    }
}

/// Decodes one ARM word.
pub fn decode(w: u32) -> (r: Instr)
    ensures
        r == decode_spec(w),
{
    if w >> 28u32 == 0xf {
        Instr::Undefined
    } else if w & 0x0fff_fff0 == 0x012f_ff10 {
        Instr::BranchExchange { link: false, rm: w & 0xf }
    } else if w & 0x0fff_fff0 == 0x012f_ff30 {
        Instr::BranchExchange { link: true, rm: w & 0xf }
    } else if w & 0x0e00_0000 == 0x0a00_0000 {
        let imm = w & 0x00ff_ffff;
        let offset = if imm & 0x0080_0000 != 0 {
            (imm | 0xff00_0000).wrapping_shl(2)
        } else {
            imm << 2u32
        };
        Instr::Branch { link: w & 0x0100_0000 != 0, offset }
    } else if w & 0x0fff_0000 == 0x092d_0000 && w & 0xffff != 0 {
        Instr::Push { list: w & 0xffff }
    } else if w & 0x0fff_0000 == 0x08bd_0000 && w & 0xffff != 0 && w & 0x2000 == 0 {
        Instr::Pop { list: w & 0xffff }
    } else if w & 0x0c00_0000 == 0 {
        let opcode = (w >> 21u32) & 0xf;
        let s = (w >> 20u32) & 1;
        let op = if opcode == 0xd && s == 0 {
            Some(AluOp::Mov)
        } else if opcode == 0x4 && s == 0 {
            Some(AluOp::Add)
        } else if opcode == 0x2 && s == 0 {
            Some(AluOp::Sub)
        } else if opcode == 0xa && s == 1 {
            Some(AluOp::Cmp)
        } else {
            None
        };
        match op {
            None => Instr::Undefined,
            Some(op) => {
                if (w >> 25u32) & 1 != 0 {
                    let imm = w & 0xff;
                    assert((w >> 8u32) & 0xf <= 15) by (bit_vector);
                    let rot: u32 = ((w >> 8u32) & 0xf) * 2;
                    let value = if rot == 0 {
                        imm
                    } else {
                        (imm >> rot) | (imm << (32 - rot))
                    };
                    Instr::DataImm { op, rd: (w >> 12u32) & 0xf, rn: (w >> 16u32) & 0xf, imm: value }
                } else if (w >> 4u32) & 0xff != 0 {
                    Instr::Undefined
                } else {
                    Instr::DataReg { op, rd: (w >> 12u32) & 0xf, rn: (w >> 16u32) & 0xf, rm: w & 0xf }
                }
            },
        }
    } else if w & 0x0f60_0000 == 0x0500_0000 {
        Instr::Transfer {
            load: (w >> 20u32) & 1 != 0,
            rd: (w >> 12u32) & 0xf,
            rn: (w >> 16u32) & 0xf,
            offset: w & 0xfff,
            up: (w >> 23u32) & 1 != 0,
        }
    } else {
        Instr::Undefined
    }
}

/// Value of register `n` as an operand: `pc` reads as the instruction's
/// address plus eight.
pub open spec fn operand(regs: Seq<u32>, n: u32) -> u32 {
    if n == 15 {
        regs[15].wrapping_add(8)
    } else {
        regs[n as int]
    }
}

pub open spec fn alu(op: AluOp, a: u32, b: u32) -> u32 {
    match op {
        AluOp::Mov => b,
        AluOp::Add => a.wrapping_add(b),
        AluOp::Sub => a.wrapping_sub(b),
        AluOp::Cmp => a,
    }
}

/// Whether condition field `cond` holds under the flags of `cpsr`
/// (N, Z, C and V in bits 31 to 28).
pub open spec fn cond_passed(cond: u32, cpsr: u32) -> bool {
    let n = (cpsr >> 31u32) & 1 == 1;
    let z = (cpsr >> 30u32) & 1 == 1;
    let c = (cpsr >> 29u32) & 1 == 1;
    let v = (cpsr >> 28u32) & 1 == 1;
    if cond == 0 {
        z
    } else if cond == 1 {
        !z
    } else if cond == 2 {
        c
    } else if cond == 3 {
        !c
    } else if cond == 4 {
        n
    } else if cond == 5 {
        !n
    } else if cond == 6 {
        v
    } else if cond == 7 {
        !v
    } else if cond == 8 {
        c && !z
    } else if cond == 9 {
        !c || z
    } else if cond == 10 {
        n == v
    } else if cond == 11 {
        n != v
    } else if cond == 12 {
        !z && n == v
    } else if cond == 13 {
        z || n != v
    } else {
        true
    }
}

/// `cpsr` with its flags set as `cmp a, b` sets them.
pub open spec fn compare_flags(cpsr: u32, a: u32, b: u32) -> u32 {
    let r = a.wrapping_sub(b);
    let n: u32 = r >> 31u32;
    let z: u32 = if r == 0 { 1 } else { 0 };
    let c: u32 = if a >= b { 1 } else { 0 };
    let v: u32 = ((a ^ b) & (a ^ r)) >> 31u32;
    (cpsr & 0x0fff_ffff) | (n << 31u32) | (z << 30u32) | (c << 29u32) | (v << 28u32)
}

/// Whether condition field `cond` holds under the flags of `cpsr`.
pub fn condition_holds(cond: u32, cpsr: u32) -> (r: bool)
    ensures
        r == cond_passed(cond, cpsr),
{
    let n = (cpsr >> 31u32) & 1 == 1;
    let z = (cpsr >> 30u32) & 1 == 1;
    let c = (cpsr >> 29u32) & 1 == 1;
    let v = (cpsr >> 28u32) & 1 == 1;
    if cond == 0 {
        z
    } else if cond == 1 {
        !z
    } else if cond == 2 {
        c
    } else if cond == 3 {
        !c
    } else if cond == 4 {
        n
    } else if cond == 5 {
        !n
    } else if cond == 6 {
        v
    } else if cond == 7 {
        !v
    } else if cond == 8 {
        c && !z
    } else if cond == 9 {
        !c || z
    } else if cond == 10 {
        n == v
    } else if cond == 11 {
        n != v
    } else if cond == 12 {
        !z && n == v
    } else if cond == 13 {
        z || n != v
    } else {
        true
    }
}

/// `cpsr` with its flags set as `cmp a, b` sets them.
pub fn compare(cpsr: u32, a: u32, b: u32) -> (r: u32)
    ensures
        r == compare_flags(cpsr, a, b),
{
    let r = a.wrapping_sub(b);
    let n: u32 = r >> 31u32;
    let z: u32 = if r == 0 { 1 } else { 0 };
    let c: u32 = if a >= b { 1 } else { 0 };
    let v: u32 = ((a ^ b) & (a ^ r)) >> 31u32;
    (cpsr & 0x0fff_ffff) | (n << 31u32) | (z << 30u32) | (c << 29u32) | (v << 28u32)
}

/// Registers after writing `v` to `rd`; a write to `pc` branches, any other
/// moves on to the next instruction.
pub open spec fn write_result(regs: Seq<u32>, rd: u32, v: u32) -> Seq<u32> {
    if rd == 15 {
        regs.update(15, v)
    } else {
        regs.update(rd as int, v).update(15, regs[15].wrapping_add(4))
    }
}

/// Registers after a branch to `target`, saving the return address in `lr`
/// when `link` is set.
pub open spec fn branch_regs(regs: Seq<u32>, link: bool, target: u32) -> Seq<u32> {
    let r = if link {
        regs.update(14, regs[15].wrapping_add(4))
    } else {
        regs
    };
    r.update(15, target)
}

/// Address that a word transfer reads or writes.
pub open spec fn transfer_address(regs: Seq<u32>, rn: u32, offset: u32, up: bool) -> u32 {
    if up {
        operand(regs, rn).wrapping_add(offset)
    } else {
        operand(regs, rn).wrapping_sub(offset)
    }
}

/// Index in the function table of the host function at synthetic address
/// `pc`, if there is one.
pub open spec fn host_index(n_functions: int, pc: u32) -> Option<int> {
    if pc >= FUNCTIONS_BASE && (pc - FUNCTIONS_BASE) % 4 == 0 && (pc - FUNCTIONS_BASE) / 4 < n_functions {
        Some((pc - FUNCTIONS_BASE) / 4)
    } else {
        None
    }
}

/// Synthetic address of the `k`-th registered host function.
pub open spec fn function_address(k: int) -> int {
    FUNCTIONS_BASE + 4 * k
}

/// The registers below `i` named in `list`, in ascending order.
pub open spec fn regs_below(list: u32, i: int) -> Seq<u32>
    decreases i,
{
    if i <= 0 {
        Seq::empty()
    } else if (list >> ((i - 1) as u32)) & 1 == 1 {
        regs_below(list, i - 1).push((i - 1) as u32)
    } else {
        regs_below(list, i - 1)
    }
}

proof fn lemma_regs_below(list: u32, i: int, j: int)
    requires
        0 <= i <= j,
    ensures
        regs_below(list, i).len() <= regs_below(list, j).len(),
        forall|k: int| 0 <= k < regs_below(list, j).len() ==> regs_below(list, j)[k] < j,
    decreases j,
{
    if j > 0 {
        if i < j {
            lemma_regs_below(list, i, j - 1);
        }
        lemma_regs_below(list, 0, j - 1);
    }
}

/// The registers that a `push` or `pop` list names, in ascending order.
pub open spec fn reg_list(list: u32) -> Seq<u32> {
    regs_below(list, 16)
}

/// The values of the registers `rl`, as operands.
pub open spec fn reg_values(regs: Seq<u32>, rl: Seq<u32>) -> Seq<u32> {
    Seq::new(rl.len(), |k: int| operand(regs, rl[k]))
}

/// The first `n` little-endian words of `bytes`.
pub open spec fn words_of(bytes: Seq<u8>, n: int) -> Seq<u32> {
    Seq::new(n as nat, |k: int| word_of(bytes.subrange(4 * k, 4 * k + 4)))
}

/// Registers after loading `vals[k]` into register `rl[k]`, in order.
pub open spec fn load_regs(regs: Seq<u32>, rl: Seq<u32>, vals: Seq<u32>) -> Seq<u32>
    decreases rl.len(),
{
    if rl.len() == 0 || vals.len() == 0 {
        regs
    } else {
        load_regs(regs, rl.drop_last(), vals.drop_last()).update(rl.last() as int, vals.last())
    }
}

proof fn lemma_load_regs_len(regs: Seq<u32>, rl: Seq<u32>, vals: Seq<u32>)
    requires
        forall|k: int| 0 <= k < rl.len() ==> rl[k] < regs.len(),
    ensures
        load_regs(regs, rl, vals).len() == regs.len(),
    decreases rl.len(),
{
    if rl.len() > 0 && vals.len() > 0 {
        lemma_load_regs_len(regs, rl.drop_last(), vals.drop_last());
    }
}

/// Registers after `pop {list}` loaded `vals` from the stack at `sp`;
/// `next` is the address of the following instruction.
pub open spec fn pop_regs(regs: Seq<u32>, list: u32, vals: Seq<u32>, next: u32) -> Seq<u32> {
    let n = reg_list(list).len();
    let r = load_regs(regs, reg_list(list), vals).update(13, regs[13].wrapping_add((4 * n) as u32));
    if list & 0x8000 != 0 {
        r.update(15, vals.last() & 0xffff_fffe)
    } else {
        r.update(15, next)
    }
}

/// Executing instruction word `w`, decoded as `i`, fetched from `pc`: its
/// outcome, then the registers, memory and status register after it. An
/// instruction whose condition fails only moves on to the next one.
pub open spec fn execute_spec(regs: Seq<u32>, mem: Seq<(int, Seq<u8>)>, cpsr: u32, pc: u32, w: u32, i: Instr) -> (
    Result<StepEvent, ArmError>,
    Seq<u32>,
    Seq<(int, Seq<u8>)>,
    u32,
) {
    if i is Undefined {
        (Err(ArmError::InvalidInstruction { pc, word: w }), regs, mem, cpsr)
    } else if !cond_passed(w >> 28u32, cpsr) {
        (Ok(StepEvent::Executed), regs.update(15, pc.wrapping_add(4)), mem, cpsr)
    } else {
        match i {
            Instr::Branch { link, offset } => (
                Ok(StepEvent::Executed),
                branch_regs(regs, link, pc.wrapping_add(8).wrapping_add(offset)),
                mem,
                cpsr,
            ),
            Instr::BranchExchange { link, rm } => (
                Ok(StepEvent::Executed),
                branch_regs(regs, link, operand(regs, rm) & 0xffff_fffe),
                mem,
                with_thumb(cpsr, operand(regs, rm) & 1 == 1),
            ),
            Instr::DataImm { op, rd, rn, imm } => if op == AluOp::Cmp {
                (Ok(StepEvent::Executed), regs.update(15, pc.wrapping_add(4)), mem, compare_flags(cpsr, operand(regs, rn), imm))
            } else {
                (Ok(StepEvent::Executed), write_result(regs, rd, alu(op, operand(regs, rn), imm)), mem, cpsr)
            },
            Instr::DataReg { op, rd, rn, rm } => if op == AluOp::Cmp {
                (
                    Ok(StepEvent::Executed),
                    regs.update(15, pc.wrapping_add(4)),
                    mem,
                    compare_flags(cpsr, operand(regs, rn), operand(regs, rm)),
                )
            } else {
                (Ok(StepEvent::Executed), write_result(regs, rd, alu(op, operand(regs, rn), operand(regs, rm))), mem, cpsr)
            },
            Instr::Transfer { load, rd, rn, offset, up } => {
                let addr = transfer_address(regs, rn, offset, up);
                if load {
                    match read_spec(mem, addr as int, 4) {
                        None => (Err(ArmError::Memory(MemoryError::Unmapped { address: addr, length: 4 })), regs, mem, cpsr),
                        Some(v) => (Ok(StepEvent::Executed), write_result(regs, rd, word_of(v)), mem, cpsr),
                    }
                } else {
                    match write_spec(mem, addr as int, le_bytes(operand(regs, rd))) {
                        None => (Err(ArmError::Memory(MemoryError::Unmapped { address: addr, length: 4 })), regs, mem, cpsr),
                        Some(m) => (Ok(StepEvent::Executed), regs.update(15, pc.wrapping_add(4)), m, cpsr),
                    }
                }
            },
            Instr::Push { list } => {
                let n = reg_list(list).len();
                let sp = regs[13].wrapping_sub((4 * n) as u32);
                match write_spec(mem, sp as int, words_le(reg_values(regs, reg_list(list)))) {
                    None => (Err(ArmError::Memory(MemoryError::Unmapped { address: sp, length: (4 * n) as usize })), regs, mem, cpsr),
                    Some(m) => (Ok(StepEvent::Executed), regs.update(13, sp).update(15, pc.wrapping_add(4)), m, cpsr),
                }
            },
            Instr::Pop { list } => {
                let n = reg_list(list).len();
                match read_spec(mem, regs[13] as int, 4 * n as int) {
                    None => (Err(ArmError::Memory(MemoryError::Unmapped { address: regs[13], length: (4 * n) as usize })), regs, mem, cpsr),
                    Some(b) => (Ok(StepEvent::Executed), pop_regs(regs, list, words_of(b, n as int), pc.wrapping_add(4)), mem, cpsr),
                }
            },
            Instr::Undefined => (Err(ArmError::InvalidInstruction { pc, word: w }), regs, mem, cpsr),
        }
    }
}

/// One step of the core: its outcome, then the registers, memory and status
/// register after it.
pub open spec fn step_spec(regs: Seq<u32>, mem: Seq<(int, Seq<u8>)>, functions: Seq<u32>, cpsr: u32) -> (
    Result<StepEvent, ArmError>,
    Seq<u32>,
    Seq<(int, Seq<u8>)>,
    u32,
) {
    let pc = regs[15];
    if pc == RETURN_SENTINEL {
        (Ok(StepEvent::Returned { r0: regs[0], r1: regs[1] }), regs, mem, cpsr)
    } else if host_index(functions.len() as int, pc) is Some {
        let k = host_index(functions.len() as int, pc).unwrap();
        (Ok(StepEvent::HostCall { callback: functions[k], a0: regs[0], a1: regs[1], a2: regs[2], a3: regs[3] }), regs, mem, cpsr)
    } else if in_thumb(cpsr) {
        thumb_step_spec(regs, mem, cpsr)
    } else {
        match read_spec(mem, pc as int, 4) {
            None => (Err(ArmError::Memory(MemoryError::Unmapped { address: pc, length: 4 })), regs, mem, cpsr),
            Some(b) => execute_spec(regs, mem, cpsr, pc, word_of(b), decode_spec(word_of(b))),
        }
    }
}

/// What a guest call returns when run for at most `fuel` steps from the
/// given state without reaching any host function: `r0` at the return
/// sentinel, or `None` when it faults, calls the host or runs out of steps.
pub open spec fn guest_run(regs: Seq<u32>, mem: Seq<(int, Seq<u8>)>, functions: Seq<u32>, cpsr: u32, fuel: nat) -> Option<u32>
    decreases fuel,
{
    if fuel == 0 {
        None
    } else {
        let (e, regs2, mem2, cpsr2) = step_spec(regs, mem, functions, cpsr);
        match e {
            Ok(StepEvent::Executed) => guest_run(regs2, mem2, functions, cpsr2, (fuel - 1) as nat),
            Ok(StepEvent::Returned { r0, r1 }) => Some(r0),
            _ => None,
        }
    }
}

/// Registers after a host function returned `ret`: the result is in `r0`
/// and execution resumes at `lr` (in the state that bit 0 of `lr` selects).
pub open spec fn return_regs(regs: Seq<u32>, ret: u32) -> Seq<u32> {
    regs.update(0, ret).update(15, regs[14] & 0xffff_fffe)
}

/// Number of arguments of a call that go to the stack.
pub open spec fn call_extra(args: Seq<u32>) -> int {
    if args.len() > 4 {
        args.len() - 4
    } else {
        0
    }
}

/// `sp` once a call's stacked arguments are pushed.
pub open spec fn call_sp(regs: Seq<u32>, args: Seq<u32>) -> int {
    regs[13] - 4 * call_extra(args)
}

/// The bytes of a call's stacked arguments.
pub open spec fn call_stacked(args: Seq<u32>) -> Seq<u8> {
    if args.len() > 4 {
        words_le(args.subrange(4, args.len() as int))
    } else {
        Seq::empty()
    }
}

/// A call with `args` can be set up: the stacked arguments fit below `sp`
/// in mapped memory.
pub open spec fn call_ok(regs: Seq<u32>, mem: Seq<(int, Seq<u8>)>, args: Seq<u32>) -> bool {
    call_sp(regs, args) >= 0 && (call_extra(args) == 0 || write_spec(mem, call_sp(regs, args), call_stacked(args)) is Some)
}

/// Registers once a call of `entry` with `args` is set up.
pub open spec fn call_regs(regs: Seq<u32>, entry: u32, args: Seq<u32>) -> Seq<u32> {
    Seq::new(
        16,
        |i: int|
            if i < 4 && i < args.len() {
                args[i]
            } else if i == 13 {
                call_sp(regs, args) as u32
            } else if i == 14 {
                RETURN_SENTINEL
            } else if i == 15 {
                entry & 0xffff_fffe
            } else {
                regs[i]
            },
    )
}

/// Memory once a call with `args` is set up.
pub open spec fn call_mem(mem: Seq<(int, Seq<u8>)>, regs: Seq<u32>, args: Seq<u32>) -> Seq<(int, Seq<u8>)> {
    if call_extra(args) > 0 {
        write_spec(mem, call_sp(regs, args), call_stacked(args)).unwrap()
    } else {
        mem
    }
}

/// The little-endian bytes of each word of `s`, in order.
pub open spec fn words_le(s: Seq<u32>) -> Seq<u8>
    decreases s.len(),
{
    if s.len() == 0 {
        Seq::empty()
    } else {
        words_le(s.drop_last()) + le_bytes(s.last())
    }
}

/// Four bytes per word.
pub proof fn lemma_words_len(s: Seq<u32>)
    ensures
        words_le(s).len() == 4 * s.len(),
{
    lemma_words_le(s);
}

proof fn lemma_words_le(s: Seq<u32>)
    ensures
        words_le(s).len() == 4 * s.len(),
        s.len() > 0 ==> words_le(s).subrange(0, 4) == le_bytes(s[0]),
    decreases s.len(),
{
    if s.len() > 0 {
        lemma_words_le(s.drop_last());
        if s.len() > 1 {
            assert(words_le(s).subrange(0, 4) =~= words_le(s.drop_last()).subrange(0, 4));
        } else {
            assert(words_le(s) =~= le_bytes(s[0]));
        }
    }
}

impl ArmCore {
    pub open spec fn wf(&self) -> bool {
        &&& self.regs@.len() == 16
        &&& self.functions@.len() <= MAX_FUNCTIONS
    }

    /// A core over `memory` with every register zero and no host function.
    pub fn new(memory: GuestMemory) -> (r: ArmCore)
        ensures
            r.wf(),
            r.regs@ == Seq::new(16, |i: int| 0u32),
            r.cpsr == 0,
            r.memory == memory,
            r.functions@.len() == 0,
    {
        let mut regs: Vec<u32> = Vec::new();
        let mut i: usize = 0;
        while i < 16
            invariant
                i <= 16,
                regs@ == Seq::new(i as nat, |j: int| 0u32),
            decreases 16 - i,
        {
            regs.push(0);
            i = i + 1;
            assert(regs@ =~= Seq::new(i as nat, |j: int| 0u32));
        }
        ArmCore { regs, cpsr: 0, memory, functions: Vec::new() }
    }

    /// Registers host function `callback` and returns its synthetic address;
    /// addresses are handed out in increasing order.
    pub fn register_function(&mut self, callback: u32) -> (r: Result<u32, ArmError>)
        requires
            old(self).wf(),
        ensures
            final(self).wf(),
            final(self).regs@ == old(self).regs@,
            final(self).memory == old(self).memory,
            old(self).functions@.len() < MAX_FUNCTIONS ==> r == Ok::<u32, ArmError>(
                function_address(old(self).functions@.len() as int) as u32,
            ) && final(self).functions@ == old(self).functions@.push(callback),
            old(self).functions@.len() >= MAX_FUNCTIONS ==> r == Err::<u32, ArmError>(ArmError::TooManyFunctions)
                && final(self).functions@ == old(self).functions@,
    {
        let n = self.functions.len();
        if n >= MAX_FUNCTIONS as usize {
            return Err(ArmError::TooManyFunctions);
        }
        self.functions.push(callback);
        Ok(FUNCTIONS_BASE + 4 * (n as u32))
    }

    pub fn read_reg(&self, n: usize) -> (r: u32)
        requires
            self.wf(),
            n < 16,
        ensures
            r == self.regs@[n as int],
    {
        self.regs[n]
    }

    pub fn write_reg(&mut self, n: usize, v: u32)
        requires
            old(self).wf(),
            n < 16,
        ensures
            final(self).wf(),
            final(self).regs@ == old(self).regs@.update(n as int, v),
            final(self).memory == old(self).memory,
            final(self).functions@ == old(self).functions@,
    {
        self.regs.set(n, v);
    }

    fn operand(&self, n: u32) -> (r: u32)
        requires
            self.wf(),
            n < 16,
        ensures
            r == operand(self.regs@, n),
    {
        if n == 15 {
            self.regs[15].wrapping_add(8)
        } else {
            self.regs[n as usize]
        }
    }

    fn write_result(&mut self, rd: u32, v: u32)
        requires
            old(self).wf(),
            rd < 16,
        ensures
            final(self).wf(),
            final(self).regs@ == write_result(old(self).regs@, rd, v),
            final(self).memory == old(self).memory,
            final(self).cpsr == old(self).cpsr,
            final(self).functions@ == old(self).functions@,
    {
        if rd == 15 {
            self.regs.set(15, v);
        } else {
            let next = self.regs[15].wrapping_add(4);
            self.regs.set(rd as usize, v);
            self.regs.set(15, next);
        }
    }

    fn branch(&mut self, link: bool, target: u32)
        requires
            old(self).wf(),
        ensures
            final(self).wf(),
            final(self).regs@ == branch_regs(old(self).regs@, link, target),
            final(self).memory == old(self).memory,
            final(self).cpsr == old(self).cpsr,
            final(self).functions@ == old(self).functions@,
    {
        if link {
            let ret = self.regs[15].wrapping_add(4);
            self.regs.set(14, ret);
        }
        self.regs.set(15, target);
    }

    /// Executes one instruction (ARM or Thumb, as the status register's
    /// Thumb bit says), or reports a host trap or the end of a call.
    pub fn step(&mut self) -> (r: Result<StepEvent, ArmError>)
        requires
            old(self).wf(),
        ensures
            final(self).wf(),
            final(self).functions@ == old(self).functions@,
            (r, final(self).regs@, final(self).memory@, final(self).cpsr) == step_spec(
                old(self).regs@,
                old(self).memory@,
                old(self).functions@,
                old(self).cpsr,
            ),
    {
        let pc = self.regs[15];
        if pc == RETURN_SENTINEL {
            return Ok(StepEvent::Returned { r0: self.regs[0], r1: self.regs[1] });
        }
        if pc >= FUNCTIONS_BASE && (pc - FUNCTIONS_BASE) % 4 == 0 && (((pc - FUNCTIONS_BASE) / 4) as usize) < self.functions.len() {
            let k = ((pc - FUNCTIONS_BASE) / 4) as usize;
            return Ok(
                StepEvent::HostCall {
                    callback: self.functions[k],
                    a0: self.regs[0],
                    a1: self.regs[1],
                    a2: self.regs[2],
                    a3: self.regs[3],
                },
            );
        }
        if self.cpsr & 0x20 != 0 {
            return self.thumb_step();
        }
        let w = match self.memory.read_u32(pc) {
            Err(e) => return Err(ArmError::Memory(e)),
            Ok(w) => w,
        };
        assert((w >> 12u32) & 0xf < 16 && (w >> 16u32) & 0xf < 16 && w & 0xf < 16 && w & 0xffff < 0x10000 && (w & 0xffff) & 0x2000
            == w & 0x2000) by (bit_vector);
        let instr = decode(w);
        if let Instr::Undefined = instr {
            return Err(ArmError::InvalidInstruction { pc, word: w });
        }
        if !condition_holds(w >> 28u32, self.cpsr) {
            self.regs.set(15, pc.wrapping_add(4));
            return Ok(StepEvent::Executed);
        }
        match instr {
            Instr::Undefined => Err(ArmError::InvalidInstruction { pc, word: w }),
            Instr::Branch { link, offset } => {
                self.branch(link, pc.wrapping_add(8).wrapping_add(offset));
                Ok(StepEvent::Executed)
            },
            Instr::BranchExchange { link, rm } => {
                let target = self.operand(rm);
                self.branch(link, target & 0xffff_fffe);
                self.cpsr = if target & 1 == 1 {
                    self.cpsr | 0x20
                } else {
                    self.cpsr & 0xffff_ffdf
                };
                Ok(StepEvent::Executed)
            },
            Instr::DataImm { op, rd, rn, imm } => {
                let a = self.operand(rn);
                match op {
                    AluOp::Cmp => {
                        self.cpsr = compare(self.cpsr, a, imm);
                        self.regs.set(15, pc.wrapping_add(4));
                    },
                    AluOp::Mov => self.write_result(rd, imm),
                    AluOp::Add => self.write_result(rd, a.wrapping_add(imm)),
                    AluOp::Sub => self.write_result(rd, a.wrapping_sub(imm)),
                }
                Ok(StepEvent::Executed)
            },
            Instr::DataReg { op, rd, rn, rm } => {
                let a = self.operand(rn);
                let b = self.operand(rm);
                match op {
                    AluOp::Cmp => {
                        self.cpsr = compare(self.cpsr, a, b);
                        self.regs.set(15, pc.wrapping_add(4));
                    },
                    AluOp::Mov => self.write_result(rd, b),
                    AluOp::Add => self.write_result(rd, a.wrapping_add(b)),
                    AluOp::Sub => self.write_result(rd, a.wrapping_sub(b)),
                }
                Ok(StepEvent::Executed)
            },
            Instr::Push { list } => self.push(list, pc.wrapping_add(4)),
            Instr::Pop { list } => self.pop(list, pc.wrapping_add(4)),
            Instr::Transfer { load, rd, rn, offset, up } => {
                let base = self.operand(rn);
                let addr = if up {
                    base.wrapping_add(offset)
                } else {
                    base.wrapping_sub(offset)
                };
                if load {
                    match self.memory.read_u32(addr) {
                        Err(e) => Err(ArmError::Memory(e)),
                        Ok(v) => {
                            self.write_result(rd, v);
                            Ok(StepEvent::Executed)
                        },
                    }
                } else {
                    let v = self.operand(rd);
                    match self.memory.write_u32(addr, v) {
                        Err(e) => Err(ArmError::Memory(e)),
                        Ok(()) => {
                            self.regs.set(15, pc.wrapping_add(4));
                            Ok(StepEvent::Executed)
                        },
                    }
                }
            },
        }
    }

    /// `push {list}`: stores the listed registers, lowest first, just below
    /// `sp` and lowers `sp` past them.
    pub fn push(&mut self, list: u32, next: u32) -> (r: Result<StepEvent, ArmError>)
        requires
            old(self).wf(),
        ensures
            final(self).wf(),
            final(self).functions@ == old(self).functions@,
            final(self).cpsr == old(self).cpsr,
            ({
                let regs = old(self).regs@;
                let n = reg_list(list).len();
                let sp = regs[13].wrapping_sub((4 * n) as u32);
                match write_spec(old(self).memory@, sp as int, words_le(reg_values(regs, reg_list(list)))) {
                    None => r == Err::<StepEvent, ArmError>(ArmError::Memory(MemoryError::Unmapped { address: sp, length: (4 * n) as usize }))
                        && final(self).regs@ == regs && final(self).memory@ == old(self).memory@,
                    Some(m) => r == Ok::<StepEvent, ArmError>(StepEvent::Executed) && final(self).regs@ == regs.update(13, sp).update(
                        15,
                        next,
                    ) && final(self).memory@ == m,
                }
            }),
    {
        let ghost regs = self.regs@;
        let mut vals: Vec<u32> = Vec::new();
        let mut bytes: Vec<u8> = Vec::new();
        let mut j: u32 = 0;
        while j < 16
            invariant
                j <= 16,
                self.wf(),
                self.regs@ == regs,
                vals@ == reg_values(regs, regs_below(list, j as int)),
                bytes@ == words_le(vals@),
                vals@.len() <= j,
            decreases 16 - j,
        {
            proof {
                lemma_regs_below(list, 0, j as int);
            }
            if (list >> j) & 1 == 1 {
                let v = self.operand(j);
                vals.push(v);
                bytes.push((v & 0xff) as u8);
                bytes.push(((v >> 8u32) & 0xff) as u8);
                bytes.push(((v >> 16u32) & 0xff) as u8);
                bytes.push(((v >> 24u32) & 0xff) as u8);
                proof {
                    assert(vals@.drop_last() =~= reg_values(regs, regs_below(list, j as int)));
                }
                assert(bytes@ =~= words_le(vals@));
            }
            j = j + 1;
            assert(vals@ =~= reg_values(regs, regs_below(list, j as int)));
        }
        let n = vals.len();
        let sp = self.regs[13].wrapping_sub((4 * n) as u32);
        match self.memory.write(sp, bytes.as_slice()) {
            Err(_) => {
                proof {
                    lemma_words_le(vals@);
                }
                return Err(ArmError::Memory(MemoryError::Unmapped { address: sp, length: 4 * n }));
            },
            Ok(()) => {},
        }
        self.regs.set(13, sp);
        self.regs.set(15, next);
        Ok(StepEvent::Executed)
    }

    /// `pop {list}`: loads the listed registers, lowest first, from `sp` up
    /// and raises `sp` past them; loading `pc` branches.
    pub fn pop(&mut self, list: u32, next: u32) -> (r: Result<StepEvent, ArmError>)
        requires
            old(self).wf(),
            list & 0x2000 == 0,
            list != 0,
            list < 0x10000,
        ensures
            final(self).wf(),
            final(self).functions@ == old(self).functions@,
            final(self).cpsr == old(self).cpsr,
            final(self).memory == old(self).memory,
            ({
                let regs = old(self).regs@;
                let n = reg_list(list).len();
                match read_spec(old(self).memory@, regs[13] as int, 4 * n as int) {
                    None => r == Err::<StepEvent, ArmError>(ArmError::Memory(MemoryError::Unmapped { address: regs[13], length: (4 * n) as usize }))
                        && final(self).regs@ == regs,
                    Some(b) => r == Ok::<StepEvent, ArmError>(StepEvent::Executed) && final(self).regs@ == pop_regs(regs, list, words_of(b, n as int), next),
                }
            }),
    {
        let ghost regs = self.regs@;
        let mut n: usize = 0;
        let mut j: u32 = 0;
        while j < 16
            invariant
                j <= 16,
                n == regs_below(list, j as int).len(),
                n <= j,
            decreases 16 - j,
        {
            proof {
                lemma_regs_below(list, 0, j as int);
            }
            if (list >> j) & 1 == 1 {
                n = n + 1;
            }
            j = j + 1;
        }
        let sp = self.regs[13];
        let bytes = match self.memory.read(sp, 4 * n) {
            Err(_) => return Err(ArmError::Memory(MemoryError::Unmapped { address: sp, length: 4 * n })),
            Ok(b) => b,
        };
        let ghost vals = words_of(bytes@, n as int);
        let mut k: usize = 0;
        let mut j: u32 = 0;
        while j < 16
            invariant
                j <= 16,
                self.wf(),
                self.functions@ == old(self).functions@,
                self.cpsr == old(self).cpsr,
                self.memory == old(self).memory,
                bytes@.len() == 4 * n,
                n <= 16,
                vals == words_of(bytes@, n as int),
                n == reg_list(list).len(),
                k == regs_below(list, j as int).len(),
                k <= n,
                self.regs@ == load_regs(regs, regs_below(list, j as int), vals.subrange(0, k as int)),
            decreases 16 - j,
        {
            proof {
                lemma_regs_below(list, j as int + 1, 16);
            }
            if (list >> j) & 1 == 1 {
                assert(regs_below(list, j + 1) == regs_below(list, j as int).push(j));
                assert(k < n);
                let ghost sub = bytes@.subrange(4 * k, 4 * k + 4);
                assert(sub[0] == bytes@[4 * k] && sub[1] == bytes@[4 * k + 1] && sub[2] == bytes@[4 * k + 2] && sub[3] == bytes@[4 * k + 3]);
                assert(vals[k as int] == word_of(sub));
                let v = (bytes[4 * k] as u32) | ((bytes[4 * k + 1] as u32) << 8u32) | ((bytes[4 * k + 2] as u32) << 16u32) | ((bytes[4 * k + 3] as u32) << 24u32);
                assert(v == vals[k as int]);
                self.regs.set(j as usize, v);
                proof {
                    let rb = regs_below(list, j as int);
                    assert(regs_below(list, j + 1) == rb.push(j));
                    assert(rb.push(j).drop_last() =~= rb);
                    assert(vals.subrange(0, k + 1).drop_last() =~= vals.subrange(0, k as int));
                    assert(vals.subrange(0, k + 1).last() == v);
                    assert(self.regs@ == load_regs(regs, rb.push(j), vals.subrange(0, k + 1)));
                }
                k = k + 1;
            }
            j = j + 1;
        }
        assert(vals.subrange(0, n as int) =~= vals);
        assert((list & 0x8000 != 0) == ((list >> 15u32) & 1 == 1)) by (bit_vector);
        proof {
            if list & 0x8000 != 0 {
                assert(reg_list(list) == regs_below(list, 15).push(15u32));
                lemma_regs_below(list, 0, 15);
                assert(vals.len() > 0);
                let rl = reg_list(list);
                assert(rl.len() > 0 && rl.last() == 15u32);
                lemma_regs_below(list, 0, 16);
                lemma_load_regs_len(regs, rl.drop_last(), vals.drop_last());
                assert(load_regs(regs, rl, vals) == load_regs(regs, rl.drop_last(), vals.drop_last()).update(15, vals.last()));
                assert(load_regs(regs, rl, vals)[15] == vals.last());
            }
        }
        let last = self.regs[15];
        let ghost loaded = self.regs@;
        assert(loaded == load_regs(regs, reg_list(list), vals));
        assert(list & 0x8000 != 0 ==> last == vals.last());
        self.regs.set(13, sp.wrapping_add((4 * n) as u32));
        if list & 0x8000 != 0 {
            self.regs.set(15, last & 0xffff_fffe);
        } else {
            self.regs.set(15, next);
        }
        assert(self.regs@ == pop_regs(regs, list, vals, next));
        Ok(StepEvent::Executed)
    }

    /// Sets up a call of `entry` with `args` by the ARM procedure call
    /// standard: the first four arguments go to `r0..r3`, the others to the
    /// stack, one word each, from the new `sp` upwards; `lr` holds the return
    /// sentinel, so that `step` reports `Returned` when the callee returns.
    /// An odd `entry` is a Thumb function.
    pub fn prepare_call(&mut self, entry: u32, args: &[u32]) -> (r: Result<(), ArmError>)
        requires
            old(self).wf(),
            args@.len() <= 0x1000,
        ensures
            final(self).wf(),
            final(self).functions@ == old(self).functions@,
            ({
                let n = args@.len() as int;
                let extra = if n > 4 { n - 4 } else { 0 };
                let sp = old(self).regs@[13] - 4 * extra;
                let stacked = if n > 4 {
                    words_le(args@.subrange(4, n))
                } else {
                    Seq::empty()
                };
                if sp < 0 {
                    r == Err::<(), ArmError>(ArmError::StackOverflow) && final(self).regs@ == old(self).regs@
                        && final(self).memory@ == old(self).memory@
                } else if extra > 0 && write_spec(old(self).memory@, sp, stacked) is None {
                    r == Err::<(), ArmError>(ArmError::Memory(MemoryError::Unmapped { address: sp as u32, length: (4 * extra) as usize }))
                        && final(self).regs@ == old(self).regs@ && final(self).memory@ == old(self).memory@
                } else {
                    &&& r is Ok
                    &&& forall|k: int| 0 <= k < 4 && k < n ==> final(self).regs@[k] == args@[k]
                    &&& final(self).regs@[13] == sp
                    &&& final(self).regs@[14] == RETURN_SENTINEL
                    &&& final(self).regs@[15] == entry & 0xffff_fffe
                    &&& final(self).cpsr == with_thumb(old(self).cpsr, entry & 1 == 1)
                    &&& extra > 0 ==> final(self).memory@ == write_spec(old(self).memory@, sp, stacked).unwrap()
                    &&& extra == 0 ==> final(self).memory@ == old(self).memory@
                }
            }),
            call_ok(old(self).regs@, old(self).memory@, args@) <==> r is Ok,
            r is Ok ==> final(self).regs@ == call_regs(old(self).regs@, entry, args@) && final(self).memory@ == call_mem(
                old(self).memory@,
                old(self).regs@,
                args@,
            ),
    {
        let n = args.len();
        let extra: usize = if n > 4 { n - 4 } else { 0 };
        let sp = self.regs[13];
        if (sp as usize) < 4 * extra {
            return Err(ArmError::StackOverflow);
        }
        let new_sp = sp - 4 * (extra as u32);
        if extra > 0 {
            let mut bytes: Vec<u8> = Vec::new();
            let mut k: usize = 4;
            while k < n
                invariant
                    4 <= k <= n,
                    n == args@.len(),
                    bytes@ == words_le(args@.subrange(4, k as int)),
                decreases n - k,
            {
                let v = args[k];
                bytes.push((v & 0xff) as u8);
                bytes.push(((v >> 8u32) & 0xff) as u8);
                bytes.push(((v >> 16u32) & 0xff) as u8);
                bytes.push(((v >> 24u32) & 0xff) as u8);
                proof {
                    assert(args@.subrange(4, k + 1).drop_last() =~= args@.subrange(4, k as int));
                }
                k = k + 1;
                assert(bytes@ =~= words_le(args@.subrange(4, k as int)));
            }
            proof {
                lemma_words_le(args@.subrange(4, n as int));
            }
            match self.memory.write(new_sp, bytes.as_slice()) {
                Err(_) => {
                    return Err(ArmError::Memory(MemoryError::Unmapped { address: new_sp, length: 4 * extra }));
                },
                Ok(()) => {},
            }
        }
        let ghost mem1 = self.memory@;
        let m = if n < 4 { n } else { 4 };
        let mut i: usize = 0;
        while i < m
            invariant
                i <= m,
                m <= 4,
                m <= n,
                n == args@.len(),
                self.wf(),
                self.functions@ == old(self).functions@,
                forall|k: int| 0 <= k < i ==> self.regs@[k] == args@[k],
                forall|k: int| i <= k < 16 ==> self.regs@[k] == old(self).regs@[k],
                self.regs@[13] == old(self).regs@[13],
                self.cpsr == old(self).cpsr,
                self.memory@ == mem1,
            decreases m - i,
        {
            self.regs.set(i, args[i]);
            i = i + 1;
        }
        self.regs.set(13, new_sp);
        self.regs.set(14, RETURN_SENTINEL);
        self.regs.set(15, entry & 0xffff_fffe);
        self.cpsr = if entry & 1 == 1 {
            self.cpsr | 0x20
        } else {
            self.cpsr & 0xffff_ffdf
        };
        assert(self.regs@ =~= call_regs(old(self).regs@, entry, args@));
        Ok(())
    }

    /// Resumes after a host function returned `ret`: `r0` takes the result
    /// and execution continues at `lr`, in Thumb state when its bit 0 is set.
    pub fn return_from_host(&mut self, ret: u32)
        requires
            old(self).wf(),
        ensures
            final(self).wf(),
            final(self).regs@ == return_regs(old(self).regs@, ret),
            final(self).memory == old(self).memory,
            final(self).cpsr == with_thumb(old(self).cpsr, old(self).regs@[14] & 1 == 1),
            final(self).functions@ == old(self).functions@,
    {
        let lr = self.regs[14];
        self.regs.set(0, ret);
        self.regs.set(15, lr & 0xffff_fffe);
        self.cpsr = if lr & 1 == 1 {
            self.cpsr | 0x20
        } else {
            self.cpsr & 0xffff_ffdf
        };
    }
}

} // verus!

verus! {

/// Arguments past the fourth are found on the stack in order: after a call
/// set up by `prepare_call`, the word at `sp` is the fifth argument.
pub proof fn lemma_stacked_arguments(mem: Seq<(int, Seq<u8>)>, sp: int, args: Seq<u32>)
    requires
        args.len() > 4,
        write_spec(mem, sp, words_le(args.subrange(4, args.len() as int))) is Some,
    ensures
        ({
            let stacked = words_le(args.subrange(4, args.len() as int));
            let after = write_spec(mem, sp, stacked).unwrap();
            &&& read_spec(after, sp, stacked.len() as int) == Some(stacked)
            &&& stacked.len() == 4 * (args.len() - 4)
            &&& word_of(stacked.subrange(0, 4)) == args[4]
        }),
{
    let rest = args.subrange(4, args.len() as int);
    let stacked = words_le(rest);
    lemma_words_le(rest);
    lemma_word_round_trip(args[4]);
    crate::memory::lemma_write_then_read(mem, sp, stacked);
}

/// Calling the `k`-th host function by `prepare_call` with five or more
/// arguments traps straight into it with the first four arguments as
/// `r0..r3`, and the stack at the new `sp` starts with the fifth.
pub proof fn lemma_call_reaches_host(regs: Seq<u32>, mem: Seq<(int, Seq<u8>)>, functions: Seq<u32>, cpsr: u32, k: int, args: Seq<u32>)
    requires
        regs.len() == 16,
        0 <= k < functions.len(),
        functions.len() <= MAX_FUNCTIONS,
        args.len() > 4,
        call_ok(regs, mem, args),
    ensures
        ({
            let entry = function_address(k) as u32;
            let regs1 = call_regs(regs, entry, args);
            let mem1 = call_mem(mem, regs, args);
            let sp = call_sp(regs, args);
            &&& step_spec(regs1, mem1, functions, with_thumb(cpsr, entry & 1 == 1)).0 == Ok::<StepEvent, ArmError>(
                StepEvent::HostCall { callback: functions[k], a0: args[0], a1: args[1], a2: args[2], a3: args[3] },
            )
            &&& regs1[13] == sp
            &&& read_spec(mem1, sp, 4 * (args.len() - 4)) == Some(call_stacked(args))
            &&& word_of(call_stacked(args).subrange(0, 4)) == args[4]
        }),
{
    let k32 = k as u32;
    let entry = function_address(k) as u32;
    assert(entry % 2 == 0);
    assert(entry & 0xffff_fffe == entry && entry & 1 == 0) by (bit_vector)
        requires
            entry % 2 == 0,
    ;
    assert(host_index(functions.len() as int, entry) == Some(k));
    lemma_stacked_arguments(mem, call_sp(regs, args), args);
}

/// In ARM state, a guest `bl` to the synthetic address of a registered
/// host function traps into that function with the guest's `r0..r3` as its
/// arguments, and once the host returns `ret`, execution resumes after the
/// `bl` with `ret` in `r0`.
pub proof fn lemma_host_trap(regs: Seq<u32>, mem: Seq<(int, Seq<u8>)>, functions: Seq<u32>, cpsr: u32, k: int, ret: u32)
    requires
        regs.len() == 16,
        0 <= k < functions.len(),
        functions.len() <= MAX_FUNCTIONS,
        regs[15] != RETURN_SENTINEL,
        cpsr & 0x20 == 0,
        host_index(functions.len() as int, regs[15]) is None,
        read_spec(mem, regs[15] as int, 4) is Some,
        word_of(read_spec(mem, regs[15] as int, 4).unwrap()) >> 28u32 == 0xe,
        decode_spec(word_of(read_spec(mem, regs[15] as int, 4).unwrap())) matches Instr::Branch { link: true, offset }
            && regs[15].wrapping_add(8).wrapping_add(offset) == function_address(k),
    ensures
        ({
            let (e1, regs1, mem1, cpsr1) = step_spec(regs, mem, functions, cpsr);
            let (e2, regs2, mem2, cpsr2) = step_spec(regs1, mem1, functions, cpsr1);
            let regs3 = return_regs(regs2, ret);
            &&& e1 == Ok::<StepEvent, ArmError>(StepEvent::Executed)
            &&& e2 == Ok::<StepEvent, ArmError>(
                StepEvent::HostCall { callback: functions[k], a0: regs[0], a1: regs[1], a2: regs[2], a3: regs[3] },
            )
            &&& mem2 == mem
            &&& regs3[0] == ret
            &&& regs3[15] == regs[15].wrapping_add(4) & 0xffff_fffe
            &&& forall|i: int| 1 <= i < 13 ==> regs3[i] == regs[i]
        }),
{
    let regs1 = step_spec(regs, mem, functions, cpsr).1;
    let target = function_address(k);
    assert(target != RETURN_SENTINEL);
    assert(host_index(functions.len() as int, target as u32) == Some(k));
}

} // verus!
