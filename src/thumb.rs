use vstd::prelude::*;
use crate::arm::{ArmCore, ArmError, RETURN_SENTINEL, StepEvent, compare, function_address, host_index, return_regs, step_spec, compare_flags, cond_passed, condition_holds, pop_regs, reg_list, reg_values, words_le, words_of};
use crate::memory::{MemoryError, le_bytes, read_spec, word_of, write_spec};

verus! {

/// The Thumb-state bit of the status register.
pub const THUMB_BIT: u32 = 0x20;

/// A decoded Thumb instruction of the supported subset.
#[derive(Debug, Clone, Copy, PartialEq, Eq, Structural)]
pub enum ThumbInstr {
    /// `movs rd, #imm`.
    MovImm { rd: u32, imm: u32 },
    /// `cmp rn, #imm`.
    CmpImm { rn: u32, imm: u32 },
    /// `adds rd, #imm`.
    AddImm { rd: u32, imm: u32 },
    /// `subs rd, #imm`.
    SubImm { rd: u32, imm: u32 },
    /// `mov rd, rm` on any registers, flags untouched.
    MovReg { rd: u32, rm: u32 },
    /// `bx rm` / `blx rm`.
    BranchExchange { link: bool, rm: u32 },
    /// `ldr rd, [pc, #offset]`.
    LoadLiteral { rd: u32, offset: u32 },
    /// `b<cond>`; `offset` is sign-extended and doubled.
    BranchCond { cond: u32, offset: u32 },
    /// `b`; `offset` is sign-extended and doubled.
    Branch { offset: u32 },
    /// `adds rd, rn, rm` / `subs rd, rn, rm`.
    AddSubReg { sub: bool, rd: u32, rn: u32, rm: u32 },
    /// `ldr` / `str` of a word at `[rb, #offset]`.
    TransferWord { load: bool, rd: u32, rb: u32, offset: u32 },
    /// `ldr` / `str` of a word at `[sp, #offset]`.
    TransferStack { load: bool, rd: u32, offset: u32 },
    /// `add sp, #offset` / `sub sp, #offset`.
    AdjustStack { down: bool, offset: u32 },
    /// `push {list}`, as an ARM register list.
    Push { list: u32 },
    /// `pop {list}`, as an ARM register list.
    Pop { list: u32 },
    Undefined,
}

/// The status register with the Thumb bit set to `thumb`.
pub open spec fn with_thumb(cpsr: u32, thumb: bool) -> u32 {
    if thumb {
        cpsr | 0x20
    } else {
        cpsr & 0xffff_ffdf
    }
}

pub open spec fn in_thumb(cpsr: u32) -> bool {
    cpsr & 0x20 != 0
}

/// The halfword whose little-endian bytes start `b`.
pub open spec fn half_of(b: Seq<u8>) -> u32 {
    (b[0] as u32) | ((b[1] as u32) << 8u32)
}

/// `cpsr` with N and Z set from `v`, C and V kept.
pub open spec fn nz_flags(cpsr: u32, v: u32) -> u32 {
    let z: u32 = if v == 0 { 1 } else { 0 };
    (cpsr & 0x3fff_ffff) | ((v >> 31u32) << 31u32) | (z << 30u32)
}

/// `cpsr` with its flags set as `adds` of `a` and `b` sets them.
pub open spec fn add_flags(cpsr: u32, a: u32, b: u32) -> u32 {
    let r = a.wrapping_add(b);
    let z: u32 = if r == 0 { 1 } else { 0 };
    let c: u32 = if r < a { 1 } else { 0 };
    let v: u32 = (!(a ^ b) & (a ^ r)) >> 31u32;
    (cpsr & 0x0fff_ffff) | ((r >> 31u32) << 31u32) | (z << 30u32) | (c << 29u32) | (v << 28u32)
}

/// `imm` of `bits` bits, sign-extended, times two.
pub open spec fn signed_half_offset(imm: u32, bits: u32) -> u32 {
    if bits == 8 {
        if imm & 0x80 != 0 {
            (imm | 0xffff_ff00).wrapping_shl(1)
        } else {
            imm << 1u32
        }
    } else {
        if imm & 0x400 != 0 {
            (imm | 0xffff_f800).wrapping_shl(1)
        } else {
            imm << 1u32
        }
    }
}

/// Decoding of one Thumb halfword (the `bl` pair aside).
pub open spec fn decode_thumb_spec(h: u32) -> ThumbInstr {
    let top5 = h >> 11u32;
    if top5 == 4 {
        ThumbInstr::MovImm { rd: (h >> 8u32) & 7, imm: h & 0xff }
    } else if top5 == 5 {
        ThumbInstr::CmpImm { rn: (h >> 8u32) & 7, imm: h & 0xff }
    } else if top5 == 6 {
        ThumbInstr::AddImm { rd: (h >> 8u32) & 7, imm: h & 0xff }
    } else if top5 == 7 {
        ThumbInstr::SubImm { rd: (h >> 8u32) & 7, imm: h & 0xff }
    } else if h >> 8u32 == 0x46 {
        ThumbInstr::MovReg { rd: ((h >> 4u32) & 8) | (h & 7), rm: (h >> 3u32) & 0xf }
    } else if h >> 7u32 == 0x8e && h & 7 == 0 {
        ThumbInstr::BranchExchange { link: false, rm: (h >> 3u32) & 0xf }
    } else if h >> 7u32 == 0x8f && h & 7 == 0 {
        ThumbInstr::BranchExchange { link: true, rm: (h >> 3u32) & 0xf }
    } else if top5 == 9 {
        ThumbInstr::LoadLiteral { rd: (h >> 8u32) & 7, offset: (h & 0xff) << 2u32 }
    } else if h >> 12u32 == 0xd && (h >> 8u32) & 0xf < 14 {
        ThumbInstr::BranchCond { cond: (h >> 8u32) & 0xf, offset: signed_half_offset(h & 0xff, 8) }
    } else if top5 == 0x1c {
        ThumbInstr::Branch { offset: signed_half_offset(h & 0x7ff, 11) }
    } else if h >> 10u32 == 6 {
        ThumbInstr::AddSubReg { sub: (h >> 9u32) & 1 == 1, rd: h & 7, rn: (h >> 3u32) & 7, rm: (h >> 6u32) & 7 }
    } else if top5 == 0xc || top5 == 0xd {
        ThumbInstr::TransferWord { load: top5 == 0xd, rd: h & 7, rb: (h >> 3u32) & 7, offset: ((h >> 6u32) & 0x1f) << 2u32 }
    } else if h >> 12u32 == 9 {
        ThumbInstr::TransferStack { load: (h >> 11u32) & 1 == 1, rd: (h >> 8u32) & 7, offset: (h & 0xff) << 2u32 }
    } else if h >> 8u32 == 0xb0 {
        ThumbInstr::AdjustStack { down: (h >> 7u32) & 1 == 1, offset: (h & 0x7f) << 2u32 }
    } else if h >> 9u32 == 0x5a && h & 0x1ff != 0 {
        ThumbInstr::Push { list: (h & 0xff) | (((h >> 8u32) & 1) << 14u32) }
    } else if h >> 9u32 == 0x5e && h & 0x1ff != 0 {
        ThumbInstr::Pop { list: (h & 0xff) | (((h >> 8u32) & 1) << 15u32) }
    } else {
        ThumbInstr::Undefined
    }
}

/// Decodes one Thumb halfword (the `bl` pair aside).
pub fn decode_thumb(h: u32) -> (r: ThumbInstr)
    ensures
        r == decode_thumb_spec(h),
{
    let top5 = h >> 11u32;
    if top5 == 4 {
        ThumbInstr::MovImm { rd: (h >> 8u32) & 7, imm: h & 0xff }
    } else if top5 == 5 {
        ThumbInstr::CmpImm { rn: (h >> 8u32) & 7, imm: h & 0xff }
    } else if top5 == 6 {
        ThumbInstr::AddImm { rd: (h >> 8u32) & 7, imm: h & 0xff }
    } else if top5 == 7 {
        ThumbInstr::SubImm { rd: (h >> 8u32) & 7, imm: h & 0xff }
    } else if h >> 8u32 == 0x46 {
        ThumbInstr::MovReg { rd: ((h >> 4u32) & 8) | (h & 7), rm: (h >> 3u32) & 0xf }
    } else if h >> 7u32 == 0x8e && h & 7 == 0 {
        ThumbInstr::BranchExchange { link: false, rm: (h >> 3u32) & 0xf }
    } else if h >> 7u32 == 0x8f && h & 7 == 0 {
        ThumbInstr::BranchExchange { link: true, rm: (h >> 3u32) & 0xf }
    } else if top5 == 9 {
        ThumbInstr::LoadLiteral { rd: (h >> 8u32) & 7, offset: (h & 0xff) << 2u32 }
    } else if h >> 12u32 == 0xd && (h >> 8u32) & 0xf < 14 {
        let imm = h & 0xff;
        let offset = if imm & 0x80 != 0 {
            (imm | 0xffff_ff00).wrapping_shl(1)
        } else {
            imm << 1u32
        };
        ThumbInstr::BranchCond { cond: (h >> 8u32) & 0xf, offset }
    } else if top5 == 0x1c {
        let imm = h & 0x7ff;
        let offset = if imm & 0x400 != 0 {
            (imm | 0xffff_f800).wrapping_shl(1)
        } else {
            imm << 1u32
        };
        ThumbInstr::Branch { offset }
    } else if h >> 10u32 == 6 {
        ThumbInstr::AddSubReg { sub: (h >> 9u32) & 1 == 1, rd: h & 7, rn: (h >> 3u32) & 7, rm: (h >> 6u32) & 7 }
    } else if top5 == 0xc || top5 == 0xd {
        ThumbInstr::TransferWord { load: top5 == 0xd, rd: h & 7, rb: (h >> 3u32) & 7, offset: ((h >> 6u32) & 0x1f) << 2u32 }
    } else if h >> 12u32 == 9 {
        ThumbInstr::TransferStack { load: (h >> 11u32) & 1 == 1, rd: (h >> 8u32) & 7, offset: (h & 0xff) << 2u32 }
    } else if h >> 8u32 == 0xb0 {
        ThumbInstr::AdjustStack { down: (h >> 7u32) & 1 == 1, offset: (h & 0x7f) << 2u32 }
    } else if h >> 9u32 == 0x5a && h & 0x1ff != 0 {
        ThumbInstr::Push { list: (h & 0xff) | (((h >> 8u32) & 1) << 14u32) }
    } else if h >> 9u32 == 0x5e && h & 0x1ff != 0 {
        ThumbInstr::Pop { list: (h & 0xff) | (((h >> 8u32) & 1) << 15u32) }
    } else {
        ThumbInstr::Undefined
    }
}

/// Value of register `n` as a Thumb operand: `pc` reads as the
/// instruction's address plus four.
pub open spec fn thumb_operand(regs: Seq<u32>, n: u32) -> u32 {
    if n == 15 {
        regs[15].wrapping_add(4)
    } else {
        regs[n as int]
    }
}

/// Target of a `bl` pair whose halves are `h1` and `h2`, at `pc`.
pub open spec fn bl_target(pc: u32, h1: u32, h2: u32) -> u32 {
    let hi = h1 & 0x7ff;
    let ext = if hi & 0x400 != 0 { hi | 0xffff_f800 } else { hi };
    pc.wrapping_add(4).wrapping_add(ext.wrapping_shl(12)).wrapping_add((h2 & 0x7ff) << 1u32)
}

/// A word load into, or store from, low register `rd` at `addr`.
pub open spec fn thumb_transfer(regs: Seq<u32>, mem: Seq<(int, Seq<u8>)>, cpsr: u32, next: u32, load: bool, rd: u32, addr: u32) -> (
    Result<StepEvent, ArmError>,
    Seq<u32>,
    Seq<(int, Seq<u8>)>,
    u32,
) {
    if load {
        match read_spec(mem, addr as int, 4) {
            None => (Err(ArmError::Memory(MemoryError::Unmapped { address: addr, length: 4 })), regs, mem, cpsr),
            Some(v) => (Ok(StepEvent::Executed), regs.update(rd as int, word_of(v)).update(15, next), mem, cpsr),
        }
    } else {
        match write_spec(mem, addr as int, le_bytes(regs[rd as int])) {
            None => (Err(ArmError::Memory(MemoryError::Unmapped { address: addr, length: 4 })), regs, mem, cpsr),
            Some(m) => (Ok(StepEvent::Executed), regs.update(15, next), m, cpsr),
        }
    }
}

/// Executing the Thumb halfword `h`, decoded as `i`, at `pc`.
pub open spec fn execute_thumb_spec(regs: Seq<u32>, mem: Seq<(int, Seq<u8>)>, cpsr: u32, pc: u32, h: u32, i: ThumbInstr) -> (
    Result<StepEvent, ArmError>,
    Seq<u32>,
    Seq<(int, Seq<u8>)>,
    u32,
) {
    let next = pc.wrapping_add(2);
    match i {
        ThumbInstr::MovImm { rd, imm } => (Ok(StepEvent::Executed), regs.update(rd as int, imm).update(15, next), mem, nz_flags(cpsr, imm)),
        ThumbInstr::CmpImm { rn, imm } => (Ok(StepEvent::Executed), regs.update(15, next), mem, compare_flags(cpsr, regs[rn as int], imm)),
        ThumbInstr::AddImm { rd, imm } => (
            Ok(StepEvent::Executed),
            regs.update(rd as int, regs[rd as int].wrapping_add(imm)).update(15, next),
            mem,
            add_flags(cpsr, regs[rd as int], imm),
        ),
        ThumbInstr::SubImm { rd, imm } => (
            Ok(StepEvent::Executed),
            regs.update(rd as int, regs[rd as int].wrapping_sub(imm)).update(15, next),
            mem,
            compare_flags(cpsr, regs[rd as int], imm),
        ),
        ThumbInstr::MovReg { rd, rm } => if rd == 15 {
            (Ok(StepEvent::Executed), regs.update(15, thumb_operand(regs, rm) & 0xffff_fffe), mem, cpsr)
        } else {
            (Ok(StepEvent::Executed), regs.update(rd as int, thumb_operand(regs, rm)).update(15, next), mem, cpsr)
        },
        ThumbInstr::BranchExchange { link, rm } => {
            let target = thumb_operand(regs, rm);
            let r = if link { regs.update(14, next | 1) } else { regs };
            (Ok(StepEvent::Executed), r.update(15, target & 0xffff_fffe), mem, with_thumb(cpsr, target & 1 == 1))
        },
        ThumbInstr::LoadLiteral { rd, offset } => {
            let addr = (pc.wrapping_add(4) & 0xffff_fffc).wrapping_add(offset);
            match read_spec(mem, addr as int, 4) {
                None => (Err(ArmError::Memory(MemoryError::Unmapped { address: addr, length: 4 })), regs, mem, cpsr),
                Some(v) => (Ok(StepEvent::Executed), regs.update(rd as int, word_of(v)).update(15, next), mem, cpsr),
            }
        },
        ThumbInstr::BranchCond { cond, offset } => if cond_passed(cond, cpsr) {
            (Ok(StepEvent::Executed), regs.update(15, pc.wrapping_add(4).wrapping_add(offset)), mem, cpsr)
        } else {
            (Ok(StepEvent::Executed), regs.update(15, next), mem, cpsr)
        },
        ThumbInstr::Branch { offset } => (Ok(StepEvent::Executed), regs.update(15, pc.wrapping_add(4).wrapping_add(offset)), mem, cpsr),
        ThumbInstr::AddSubReg { sub, rd, rn, rm } => {
            let a = regs[rn as int];
            let b = regs[rm as int];
            if sub {
                (Ok(StepEvent::Executed), regs.update(rd as int, a.wrapping_sub(b)).update(15, next), mem, compare_flags(cpsr, a, b))
            } else {
                (Ok(StepEvent::Executed), regs.update(rd as int, a.wrapping_add(b)).update(15, next), mem, add_flags(cpsr, a, b))
            }
        },
        ThumbInstr::TransferWord { load, rd, rb, offset } => thumb_transfer(regs, mem, cpsr, next, load, rd, regs[rb as int].wrapping_add(offset)),
        ThumbInstr::TransferStack { load, rd, offset } => thumb_transfer(regs, mem, cpsr, next, load, rd, regs[13].wrapping_add(offset)),
        ThumbInstr::AdjustStack { down, offset } => {
            let sp = if down { regs[13].wrapping_sub(offset) } else { regs[13].wrapping_add(offset) };
            (Ok(StepEvent::Executed), regs.update(13, sp).update(15, next), mem, cpsr)
        },
        ThumbInstr::Push { list } => {
            let n = reg_list(list).len();
            let sp = regs[13].wrapping_sub((4 * n) as u32);
            match write_spec(mem, sp as int, words_le(reg_values(regs, reg_list(list)))) {
                None => (Err(ArmError::Memory(MemoryError::Unmapped { address: sp, length: (4 * n) as usize })), regs, mem, cpsr),
                Some(m) => (Ok(StepEvent::Executed), regs.update(13, sp).update(15, next), m, cpsr),
            }
        },
        ThumbInstr::Pop { list } => {
            let n = reg_list(list).len();
            match read_spec(mem, regs[13] as int, 4 * n as int) {
                None => (Err(ArmError::Memory(MemoryError::Unmapped { address: regs[13], length: (4 * n) as usize })), regs, mem, cpsr),
                Some(b) => (Ok(StepEvent::Executed), pop_regs(regs, list, words_of(b, n as int), next), mem, cpsr),
            }
        },
        ThumbInstr::Undefined => (Err(ArmError::InvalidInstruction { pc, word: h }), regs, mem, cpsr),
    }
}

/// One step in Thumb state at `pc` (neither the return sentinel nor a host
/// function): a `bl` pair is taken as one instruction.
pub open spec fn thumb_step_spec(regs: Seq<u32>, mem: Seq<(int, Seq<u8>)>, cpsr: u32) -> (
    Result<StepEvent, ArmError>,
    Seq<u32>,
    Seq<(int, Seq<u8>)>,
    u32,
) {
    let pc = regs[15];
    match read_spec(mem, pc as int, 2) {
        None => (Err(ArmError::Memory(MemoryError::Unmapped { address: pc, length: 2 })), regs, mem, cpsr),
        Some(b) => {
            let h = half_of(b);
            if h >> 11u32 == 0x1e {
                match read_spec(mem, pc.wrapping_add(2) as int, 2) {
                    None => (Err(ArmError::Memory(MemoryError::Unmapped { address: pc.wrapping_add(2), length: 2 })), regs, mem, cpsr),
                    Some(b2) => {
                        let h2 = half_of(b2);
                        if h2 >> 11u32 == 0x1f {
                            (
                                Ok(StepEvent::Executed),
                                regs.update(14, pc.wrapping_add(4) | 1).update(15, bl_target(pc, h, h2)),
                                mem,
                                cpsr,
                            )
                        } else {
                            (Err(ArmError::InvalidInstruction { pc, word: h | (h2 << 16u32) }), regs, mem, cpsr)
                        }
                    },
                }
            } else {
                execute_thumb_spec(regs, mem, cpsr, pc, h, decode_thumb_spec(h))
            }
        },
    }
}

impl ArmCore {
    fn transfer(&mut self, next: u32, load: bool, rd: u32, addr: u32) -> (r: Result<StepEvent, ArmError>)
        requires
            old(self).wf(),
            rd < 8,
        ensures
            final(self).wf(),
            final(self).functions@ == old(self).functions@,
            (r, final(self).regs@, final(self).memory@, final(self).cpsr) == thumb_transfer(
                old(self).regs@,
                old(self).memory@,
                old(self).cpsr,
                next,
                load,
                rd,
                addr,
            ),
    {
        if load {
            match self.memory.read_u32(addr) {
                Err(e) => Err(ArmError::Memory(e)),
                Ok(v) => {
                    self.regs.set(rd as usize, v);
                    self.regs.set(15, next);
                    Ok(StepEvent::Executed)
                },
            }
        } else {
            let v = self.regs[rd as usize];
            match self.memory.write_u32(addr, v) {
                Err(e) => Err(ArmError::Memory(e)),
                Ok(()) => {
                    self.regs.set(15, next);
                    Ok(StepEvent::Executed)
                },
            }
        }
    }

    /// One step in Thumb state; see `thumb_step_spec`.
    #[verifier::rlimit(50)]
    pub fn thumb_step(&mut self) -> (r: Result<StepEvent, ArmError>)
        requires
            old(self).wf(),
        ensures
            final(self).wf(),
            final(self).functions@ == old(self).functions@,
            (r, final(self).regs@, final(self).memory@, final(self).cpsr) == thumb_step_spec(
                old(self).regs@,
                old(self).memory@,
                old(self).cpsr,
            ),
    {
        let pc = self.regs[15];
        let b = match self.memory.read(pc, 2) {
            Err(e) => return Err(ArmError::Memory(e)),
            Ok(b) => b,
        };
        let h = (b[0] as u32) | ((b[1] as u32) << 8u32);
        if h >> 11u32 == 0x1e {
            let pc2 = pc.wrapping_add(2);
            let b2 = match self.memory.read(pc2, 2) {
                Err(e) => return Err(ArmError::Memory(e)),
                Ok(b2) => b2,
            };
            let h2 = (b2[0] as u32) | ((b2[1] as u32) << 8u32);
            if h2 >> 11u32 == 0x1f {
                let hi = h & 0x7ff;
                let ext = if hi & 0x400 != 0 {
                    hi | 0xffff_f800
                } else {
                    hi
                };
                let target = pc.wrapping_add(4).wrapping_add(ext.wrapping_shl(12)).wrapping_add((h2 & 0x7ff) << 1u32);
                self.regs.set(14, pc.wrapping_add(4) | 1);
                self.regs.set(15, target);
                return Ok(StepEvent::Executed);
            } else {
                return Err(ArmError::InvalidInstruction { pc, word: h | (h2 << 16u32) });
            }
        }
        let next = pc.wrapping_add(2);
        assert((h >> 8u32) & 7 < 8 && (((h >> 4u32) & 8) | (h & 7)) < 16 && (h >> 3u32) & 0xf < 16 && h & 7 < 8 && (h >> 3u32) & 7 < 8
            && (h >> 6u32) & 7 < 8) by (bit_vector);
        assert(h & 0x1ff != 0 ==> ((h & 0xff) | (((h >> 8u32) & 1) << 15u32)) != 0
            && ((h & 0xff) | (((h >> 8u32) & 1) << 15u32)) & 0x2000 == 0
            && ((h & 0xff) | (((h >> 8u32) & 1) << 15u32)) < 0x10000) by (bit_vector);
        match decode_thumb(h) {
            ThumbInstr::MovImm { rd, imm } => {
                self.regs.set(rd as usize, imm);
                self.regs.set(15, next);
                let z: u32 = if imm == 0 { 1 } else { 0 };
                self.cpsr = (self.cpsr & 0x3fff_ffff) | ((imm >> 31u32) << 31u32) | (z << 30u32);
                Ok(StepEvent::Executed)
            },
            ThumbInstr::CmpImm { rn, imm } => {
                let a = self.regs[rn as usize];
                self.regs.set(15, next);
                self.cpsr = compare(self.cpsr, a, imm);
                Ok(StepEvent::Executed)
            },
            ThumbInstr::AddImm { rd, imm } => {
                let a = self.regs[rd as usize];
                let r = a.wrapping_add(imm);
                self.regs.set(rd as usize, r);
                self.regs.set(15, next);
                let z: u32 = if r == 0 { 1 } else { 0 };
                let c: u32 = if r < a { 1 } else { 0 };
                let v: u32 = (!(a ^ imm) & (a ^ r)) >> 31u32;
                self.cpsr = (self.cpsr & 0x0fff_ffff) | ((r >> 31u32) << 31u32) | (z << 30u32) | (c << 29u32) | (v << 28u32);
                Ok(StepEvent::Executed)
            },
            ThumbInstr::SubImm { rd, imm } => {
                let a = self.regs[rd as usize];
                self.regs.set(rd as usize, a.wrapping_sub(imm));
                self.regs.set(15, next);
                self.cpsr = compare(self.cpsr, a, imm);
                Ok(StepEvent::Executed)
            },
            ThumbInstr::MovReg { rd, rm } => {
                let v = if rm == 15 {
                    pc.wrapping_add(4)
                } else {
                    self.regs[rm as usize]
                };
                if rd == 15 {
                    self.regs.set(15, v & 0xffff_fffe);
                } else {
                    self.regs.set(rd as usize, v);
                    self.regs.set(15, next);
                }
                Ok(StepEvent::Executed)
            },
            ThumbInstr::BranchExchange { link, rm } => {
                let target = if rm == 15 {
                    pc.wrapping_add(4)
                } else {
                    self.regs[rm as usize]
                };
                if link {
                    self.regs.set(14, next | 1);
                }
                self.regs.set(15, target & 0xffff_fffe);
                self.cpsr = if target & 1 == 1 {
                    self.cpsr | 0x20
                } else {
                    self.cpsr & 0xffff_ffdf
                };
                Ok(StepEvent::Executed)
            },
            ThumbInstr::LoadLiteral { rd, offset } => {
                let addr = (pc.wrapping_add(4) & 0xffff_fffc).wrapping_add(offset);
                match self.memory.read_u32(addr) {
                    Err(e) => Err(ArmError::Memory(e)),
                    Ok(v) => {
                        self.regs.set(rd as usize, v);
                        self.regs.set(15, next);
                        Ok(StepEvent::Executed)
                    },
                }
            },
            ThumbInstr::BranchCond { cond, offset } => {
                if condition_holds(cond, self.cpsr) {
                    self.regs.set(15, pc.wrapping_add(4).wrapping_add(offset));
                } else {
                    self.regs.set(15, next);
                }
                Ok(StepEvent::Executed)
            },
            ThumbInstr::Branch { offset } => {
                self.regs.set(15, pc.wrapping_add(4).wrapping_add(offset));
                Ok(StepEvent::Executed)
            },
            ThumbInstr::AddSubReg { sub, rd, rn, rm } => {
                let a = self.regs[rn as usize];
                let b = self.regs[rm as usize];
                if sub {
                    self.regs.set(rd as usize, a.wrapping_sub(b));
                    self.cpsr = compare(self.cpsr, a, b);
                } else {
                    let r = a.wrapping_add(b);
                    self.regs.set(rd as usize, r);
                    let z: u32 = if r == 0 { 1 } else { 0 };
                    let c: u32 = if r < a { 1 } else { 0 };
                    let v: u32 = (!(a ^ b) & (a ^ r)) >> 31u32;
                    self.cpsr = (self.cpsr & 0x0fff_ffff) | ((r >> 31u32) << 31u32) | (z << 30u32) | (c << 29u32) | (v << 28u32);
                }
                self.regs.set(15, next);
                Ok(StepEvent::Executed)
            },
            ThumbInstr::TransferWord { load, rd, rb, offset } => {
                let addr = self.regs[rb as usize].wrapping_add(offset);
                self.transfer(next, load, rd, addr)
            },
            ThumbInstr::TransferStack { load, rd, offset } => {
                let addr = self.regs[13].wrapping_add(offset);
                self.transfer(next, load, rd, addr)
            },
            ThumbInstr::AdjustStack { down, offset } => {
                let sp = if down {
                    self.regs[13].wrapping_sub(offset)
                } else {
                    self.regs[13].wrapping_add(offset)
                };
                self.regs.set(13, sp);
                self.regs.set(15, next);
                Ok(StepEvent::Executed)
            },
            ThumbInstr::Push { list } => self.push(list, next),
            ThumbInstr::Pop { list } => self.pop(list, next),
            ThumbInstr::Undefined => Err(ArmError::InvalidInstruction { pc, word: h }),
        }
    }
}

/// In Thumb state, a guest `bl` pair aimed at the synthetic address of a
/// registered host function traps into that function with the guest's
/// `r0..r3` as its arguments; once the host returns `ret`, execution goes on
/// in Thumb state after the pair with `ret` in `r0`.
pub proof fn lemma_thumb_host_trap(regs: Seq<u32>, mem: Seq<(int, Seq<u8>)>, functions: Seq<u32>, cpsr: u32, k: int, ret: u32)
    requires
        regs.len() == 16,
        0 <= k < functions.len(),
        functions.len() <= crate::arm::MAX_FUNCTIONS,
        regs[15] != RETURN_SENTINEL,
        in_thumb(cpsr),
        host_index(functions.len() as int, regs[15]) is None,
        read_spec(mem, regs[15] as int, 2) is Some,
        read_spec(mem, regs[15].wrapping_add(2) as int, 2) is Some,
        half_of(read_spec(mem, regs[15] as int, 2).unwrap()) >> 11u32 == 0x1e,
        half_of(read_spec(mem, regs[15].wrapping_add(2) as int, 2).unwrap()) >> 11u32 == 0x1f,
        bl_target(
            regs[15],
            half_of(read_spec(mem, regs[15] as int, 2).unwrap()),
            half_of(read_spec(mem, regs[15].wrapping_add(2) as int, 2).unwrap()),
        ) == function_address(k),
    ensures
        ({
            let (e1, regs1, mem1, cpsr1) = step_spec(regs, mem, functions, cpsr);
            let (e2, regs2, mem2, cpsr2) = step_spec(regs1, mem1, functions, cpsr1);
            let regs3 = return_regs(regs2, ret);
            &&& e1 == Ok::<StepEvent, ArmError>(StepEvent::Executed)
            &&& e2 == Ok::<StepEvent, ArmError>(
                StepEvent::HostCall { callback: functions[k], a0: regs[0], a1: regs[1], a2: regs[2], a3: regs[3] },
            )
            &&& mem2 == mem
            &&& regs3[0] == ret
            &&& regs3[15] == (regs[15].wrapping_add(4) | 1) & 0xffff_fffe
            &&& regs2[14] & 1 == 1
            &&& forall|i: int| 1 <= i < 13 ==> regs3[i] == regs[i]
        }),
{
    let target = function_address(k);
    assert(target != RETURN_SENTINEL);
    assert(host_index(functions.len() as int, target as u32) == Some(k));
    let x = regs[15].wrapping_add(4);
    assert((x | 1) & 1 == 1) by (bit_vector);
}

} // verus!
