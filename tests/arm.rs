use wie::{ArmCore, ArmError, GuestMemory, Instr, StepEvent, FUNCTIONS_BASE, RETURN_SENTINEL};

fn core_with_stack() -> ArmCore {
    let mut mem = GuestMemory::new();
    mem.map_region(0x0800_0000, 0x1000).unwrap();
    let mut core = ArmCore::new(mem);
    core.write_reg(13, 0x0800_1000);
    core
}

fn code(words: &[u32]) -> Vec<u8> {
    words.iter().flat_map(|w| w.to_le_bytes()).collect()
}

#[test]
fn host_function_adds_arguments() {
    let mut core = core_with_stack();
    let f = core.register_function(7).unwrap();
    assert_eq!(f, FUNCTIONS_BASE);
    core.prepare_call(f, &[3, 4]).unwrap();
    let ret = match core.step().unwrap() {
        StepEvent::HostCall { callback: 7, a0, a1, .. } => a0 + a1,
        e => panic!("unexpected {:?}", e),
    };
    core.return_from_host(ret);
    assert_eq!(core.step().unwrap(), StepEvent::Returned { r0: 7, r1: 4 });
}

#[test]
fn guest_bl_traps_into_host() {
    let mut core = core_with_stack();
    let f = core.register_function(1).unwrap();
    // mov r4, lr ; bl f ; bx r4
    let bl = 0xeb00_0000 | (((f.wrapping_sub(0x7000_0004 + 8)) >> 2) & 0x00ff_ffff);
    core.memory.load(&code(&[0xe1a0_400e, bl, 0xe12f_ff14]), 0x7000_0000, 12).unwrap();
    core.prepare_call(0x7000_0000, &[5, 6, 7, 8]).unwrap();
    assert_eq!(core.step().unwrap(), StepEvent::Executed);
    assert_eq!(core.read_reg(4), RETURN_SENTINEL);
    assert_eq!(core.step().unwrap(), StepEvent::Executed);
    assert_eq!(core.read_reg(15), f);
    assert_eq!(core.step().unwrap(), StepEvent::HostCall { callback: 1, a0: 5, a1: 6, a2: 7, a3: 8 });
    core.return_from_host(99);
    assert_eq!(core.read_reg(0), 99);
    assert_eq!(core.read_reg(15), 0x7000_0008);
    assert_eq!(core.step().unwrap(), StepEvent::Executed);
    assert_eq!(core.step().unwrap(), StepEvent::Returned { r0: 99, r1: 6 });
}

#[test]
fn fifth_argument_goes_to_stack() {
    let mut core = core_with_stack();
    core.prepare_call(0x1234, &[10, 11, 12, 13, 14, 15]).unwrap();
    for i in 0..4 {
        assert_eq!(core.read_reg(i), 10 + i as u32);
    }
    let sp = core.read_reg(13);
    assert_eq!(sp, 0x0800_1000 - 8);
    assert_eq!(core.memory.read_u32(sp).unwrap(), 14);
    assert_eq!(core.memory.read_u32(sp + 4).unwrap(), 15);
    assert_eq!(core.read_reg(14), RETURN_SENTINEL);
    assert_eq!(core.read_reg(15), 0x1234);
}

#[test]
fn stack_arguments_need_mapped_stack() {
    let mut core = ArmCore::new(GuestMemory::new());
    assert_eq!(core.prepare_call(0x1000, &[1, 2, 3, 4, 5]), Err(ArmError::StackOverflow));
    core.write_reg(13, 0x100);
    assert!(matches!(core.prepare_call(0x1000, &[1, 2, 3, 4, 5]), Err(ArmError::Memory(_))));
}

#[test]
fn data_processing_and_memory() {
    let mut core = core_with_stack();
    // mov r0, #0x40 ; add r1, r0, #2 ; sub r2, r1, r0 ; str r1, [sp, #-4] ; ldr r3, [sp, #-4] ; bx lr
    let prog = code(&[0xe3a0_0040, 0xe280_1002, 0xe041_2000, 0xe50d_1004, 0xe51d_3004, 0xe12f_ff1e]);
    core.memory.load(&prog, 0x7000_0000, prog.len()).unwrap();
    core.prepare_call(0x7000_0000, &[]).unwrap();
    let mut steps = 0;
    loop {
        match core.step().unwrap() {
            StepEvent::Executed => steps += 1,
            StepEvent::Returned { r0, .. } => {
                assert_eq!(r0, 0x40);
                break;
            },
            e => panic!("unexpected {:?}", e),
        }
    }
    assert_eq!(steps, 6);
    assert_eq!(core.read_reg(1), 0x42);
    assert_eq!(core.read_reg(2), 2);
    assert_eq!(core.read_reg(3), 0x42);
}

#[test]
fn undefined_instruction_faults() {
    let mut core = core_with_stack();
    core.memory.load(&code(&[0x0000_0000]), 0x7000_0000, 4).unwrap();
    core.prepare_call(0x7000_0000, &[]).unwrap();
    assert_eq!(core.step(), Err(ArmError::InvalidInstruction { pc: 0x7000_0000, word: 0 }));
    assert_eq!(wie::decode(0xea00_0000), Instr::Branch { link: false, offset: 0 });
    assert_eq!(wie::decode(0xebff_fffe), Instr::Branch { link: true, offset: 0xffff_fff8 });
}

#[test]
fn function_table_is_bounded() {
    let mut core = ArmCore::new(GuestMemory::new());
    for i in 0..wie::MAX_FUNCTIONS {
        assert_eq!(core.register_function(i), Ok(FUNCTIONS_BASE + 4 * i));
    }
    assert_eq!(core.register_function(0), Err(ArmError::TooManyFunctions));
}

#[test]
fn conditional_loop_counts_to_five() {
    let mut core = core_with_stack();
    // mov r0, #0 ; loop: add r0, r0, #1 ; cmp r0, #5 ; bne loop ; bx lr
    let prog = code(&[0xe3a0_0000, 0xe280_0001, 0xe350_0005, 0x1aff_fffc, 0xe12f_ff1e]);
    core.memory.load(&prog, 0x7000_0000, prog.len()).unwrap();
    core.prepare_call(0x7000_0000, &[]).unwrap();
    let mut steps = 0;
    let r0 = loop {
        match core.step().unwrap() {
            StepEvent::Executed => steps += 1,
            StepEvent::Returned { r0, .. } => break r0,
            e => panic!("unexpected {:?}", e),
        }
    };
    assert_eq!(r0, 5);
    assert_eq!(steps, 17);
    assert_eq!(core.cpsr >> 30 & 1, 1);
    assert_eq!(core.cpsr >> 29 & 1, 1);
}

#[test]
fn push_and_pop_frame_around_host_call() {
    let mut core = core_with_stack();
    let f = core.register_function(3).unwrap();
    // push {r4, lr} ; mov r4, r0 ; bl f ; add r0, r0, r4 ; pop {r4, pc}
    let bl = 0xeb00_0000 | (((f.wrapping_sub(0x7000_0008 + 8)) >> 2) & 0x00ff_ffff);
    let prog = code(&[0xe92d_4010, 0xe1a0_4000, bl, 0xe080_0004, 0xe8bd_8010]);
    core.memory.load(&prog, 0x7000_0000, prog.len()).unwrap();
    core.write_reg(4, 0x4444);
    core.prepare_call(0x7000_0000, &[10]).unwrap();
    let sp = core.read_reg(13);
    assert_eq!(core.step().unwrap(), StepEvent::Executed);
    assert_eq!(core.read_reg(13), sp - 8);
    assert_eq!(core.memory.read_u32(sp - 8).unwrap(), 0x4444);
    assert_eq!(core.memory.read_u32(sp - 4).unwrap(), RETURN_SENTINEL);
    assert_eq!(core.step().unwrap(), StepEvent::Executed);
    assert_eq!(core.step().unwrap(), StepEvent::Executed);
    assert_eq!(core.step().unwrap(), StepEvent::HostCall { callback: 3, a0: 10, a1: 0, a2: 0, a3: 0 });
    core.return_from_host(5);
    assert_eq!(core.step().unwrap(), StepEvent::Executed);
    assert_eq!(core.step().unwrap(), StepEvent::Executed);
    assert_eq!(core.read_reg(4), 0x4444);
    assert_eq!(core.read_reg(13), sp);
    assert_eq!(core.step().unwrap(), StepEvent::Returned { r0: 15, r1: 0 });
    assert_eq!(wie::decode(0xe8bd_2000), Instr::Undefined);
}

fn half_code(halves: &[u16]) -> Vec<u8> {
    halves.iter().flat_map(|h| h.to_le_bytes()).collect()
}

#[test]
fn thumb_function_calls_host() {
    let mut core = core_with_stack();
    let f = core.register_function(9).unwrap();
    assert_eq!(f, FUNCTIONS_BASE);
    // push {r4, lr}; movs r4, #7; bl f; adds r0, #3; cmp r0, #8; beq +2; movs r0, #0; movs r0, #0; mov r1, r4; pop {r4, pc}
    let prog = half_code(&[0xb510, 0x2407, 0xf0ff, 0xfffc, 0x3003, 0x2808, 0xd001, 0x2000, 0x2000, 0x4621, 0xbd10]);
    core.memory.load(&prog, 0x70f0_0000, prog.len()).unwrap();
    core.write_reg(4, 0x4444);
    core.prepare_call(0x70f0_0001, &[10]).unwrap();
    assert_eq!(core.read_reg(15), 0x70f0_0000);
    assert_eq!(core.cpsr & wie::THUMB_BIT, wie::THUMB_BIT);
    for _ in 0..3 {
        assert_eq!(core.step().unwrap(), StepEvent::Executed);
    }
    assert_eq!(core.read_reg(14), 0x70f0_0009);
    assert_eq!(core.step().unwrap(), StepEvent::HostCall { callback: 9, a0: 10, a1: 0, a2: 0, a3: 0 });
    core.return_from_host(5);
    assert_eq!(core.read_reg(15), 0x70f0_0008);
    assert_eq!(core.cpsr & wie::THUMB_BIT, wie::THUMB_BIT);
    for _ in 0..5 {
        assert_eq!(core.step().unwrap(), StepEvent::Executed);
    }
    assert_eq!(core.read_reg(4), 0x4444);
    assert_eq!(core.step().unwrap(), StepEvent::Returned { r0: 8, r1: 7 });
    assert_eq!(wie::decode_thumb(0x2407), wie::ThumbInstr::MovImm { rd: 4, imm: 7 });
    assert_eq!(wie::decode_thumb(0xe7fe), wie::ThumbInstr::Branch { offset: 0xffff_fffc });
}

#[test]
fn arm_bx_switches_to_thumb() {
    let mut core = core_with_stack();
    // ARM: add r3, pc, #1 (r3 = 0x7000_0009) ; bx r3 ; Thumb at 0x7000_0008: movs r0, #42 ; bx lr
    let mut prog = code(&[0xe28f_3001, 0xe12f_ff13]);
    prog.extend(half_code(&[0x202a, 0x4770]));
    core.memory.load(&prog, 0x7000_0000, prog.len()).unwrap();
    core.prepare_call(0x7000_0000, &[]).unwrap();
    assert_eq!(core.cpsr & wie::THUMB_BIT, 0);
    assert_eq!(core.step().unwrap(), StepEvent::Executed);
    assert_eq!(core.read_reg(3), 0x7000_0009);
    assert_eq!(core.step().unwrap(), StepEvent::Executed);
    assert_eq!(core.read_reg(15), 0x7000_0008);
    assert_eq!(core.cpsr & wie::THUMB_BIT, wie::THUMB_BIT);
    assert_eq!(core.step().unwrap(), StepEvent::Executed);
    assert_eq!(core.step().unwrap(), StepEvent::Executed);
    assert_eq!(core.cpsr & wie::THUMB_BIT, 0);
    assert_eq!(core.step().unwrap(), StepEvent::Returned { r0: 42, r1: 0 });
}

#[test]
fn thumb_stack_frame_and_arithmetic() {
    let mut core = core_with_stack();
    // sub sp, #8; movs r1, #5; str r1, [sp, #4]; ldr r2, [sp, #4]; adds r3, r1, r2; subs r0, r3, r1;
    // mov r5, sp; str r3, [r5]; ldr r6, [r5]; add sp, #8; bx lr
    let prog = half_code(&[0xb082, 0x2105, 0x9101, 0x9a01, 0x188b, 0x1a58, 0x466d, 0x602b, 0x682e, 0xb002, 0x4770]);
    core.memory.load(&prog, 0x7000_0000, prog.len()).unwrap();
    core.prepare_call(0x7000_0001, &[]).unwrap();
    let sp = core.read_reg(13);
    let r0 = loop {
        match core.step().unwrap() {
            StepEvent::Executed => {},
            StepEvent::Returned { r0, .. } => break r0,
            e => panic!("unexpected {:?}", e),
        }
    };
    assert_eq!(r0, 5);
    assert_eq!(core.read_reg(3), 10);
    assert_eq!(core.read_reg(6), 10);
    assert_eq!(core.read_reg(5), sp - 8);
    assert_eq!(core.read_reg(13), sp);
    assert_eq!(core.memory.read_u32(sp - 4).unwrap(), 5);
}
