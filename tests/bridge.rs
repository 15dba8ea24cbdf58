use wie::{
    get_kernel_method_table, kernel_method_name, Allocator, ArmCore, CError, CMethod, GuestMemory, KtfCBridge, Resource, TimerTask,
    WIPICTimer, C_ERROR, FUNCTIONS_BASE, KERNEL_SLOTS,
};

const HEAP: u32 = 0x4000_0000;
const DATA: u32 = 0x2000_0000;

fn bridge() -> KtfCBridge {
    let mut mem = GuestMemory::new();
    mem.map_region(HEAP, 0x10000).unwrap();
    mem.map_region(DATA, 0x1000).unwrap();
    mem.map_region(0x0800_0000, 0x1000).unwrap();
    let mut core = ArmCore::new(mem);
    core.write_reg(13, 0x0800_1000);
    KtfCBridge::new(core, Allocator::new(HEAP, 0x10000))
}

#[test]
fn kernel_table_slot_order() {
    let t = get_kernel_method_table();
    assert_eq!(t.len(), KERNEL_SLOTS as usize);
    assert_eq!(t[0], CMethod::Printk);
    assert_eq!(t[1], CMethod::Unimplemented { interface: 0, index: 1 });
    assert_eq!(t[20], CMethod::Alloc);
    assert_eq!(t[21], CMethod::Calloc);
    assert_eq!(t[22], CMethod::Free);
    assert_eq!(t[26], CMethod::SetTimer);
    assert_eq!(t[33], CMethod::GetInterfaces);
    assert_eq!(kernel_method_name(1), "MC_knlSprintk");
    assert_eq!(kernel_method_name(33), "MC_knlReserved1");
    assert_eq!(kernel_method_name(34), "");
}

#[test]
fn kernel_interface_is_written_to_guest() {
    let mut b = bridge();
    let table = b.get_wipic_knl_interface().unwrap();
    for i in 0..34u32 {
        assert_eq!(b.core.memory.read_u32(table + 4 * i).unwrap(), FUNCTIONS_BASE + 4 * i);
    }
    assert_eq!(b.call_method(1, 0, 0, 0, 0), Err(CError::Unimplemented { interface: 0, index: 1 }));
    assert_eq!(b.call_method(500, 0, 0, 0, 0), Err(CError::NoSuchFunction { callback: 500 }));
}

#[test]
fn interfaces_record_points_at_tables() {
    let mut b = bridge();
    b.graphics = vec![CMethod::Unimplemented { interface: 2, index: 0 }, CMethod::Unimplemented { interface: 2, index: 1 }];
    b.database = vec![CMethod::Unimplemented { interface: 6, index: 0 }];
    b.media = vec![CMethod::Unimplemented { interface: 9, index: 0 }];
    let table = b.get_wipic_knl_interface().unwrap();
    let reserved = b.core.memory.read_u32(table + 4 * 33).unwrap();
    let callback = (reserved - FUNCTIONS_BASE) / 4;
    let record = b.call_method(callback, 0, 0, 0, 0).unwrap();
    for i in 0..13u32 {
        let w = b.core.memory.read_u32(record + 4 * i).unwrap();
        if i == 2 || i == 6 || i == 9 {
            assert_ne!(w, 0);
        } else {
            assert_eq!(w, 0);
        }
    }
    let graphics = b.core.memory.read_u32(record + 8).unwrap();
    let slot1 = b.core.memory.read_u32(graphics + 4).unwrap();
    assert_eq!(b.call_method((slot1 - FUNCTIONS_BASE) / 4, 0, 0, 0, 0), Err(CError::Unimplemented { interface: 2, index: 1 }));
}

#[test]
fn calloc_zeroes_and_free_returns_block() {
    let mut b = bridge();
    b.core.memory.write(HEAP, &[0xaa; 16]).unwrap();
    let cb = b.register_function(CMethod::Calloc).unwrap();
    let free = b.register_function(CMethod::Free).unwrap();
    let alloc = b.register_function(CMethod::Alloc).unwrap();
    let a = b.call_method((cb - FUNCTIONS_BASE) / 4, 10, 0, 0, 0).unwrap();
    assert_eq!(a, HEAP);
    assert_eq!(b.core.memory.read(HEAP, 10).unwrap(), vec![0u8; 10]);
    assert_eq!(b.core.memory.read(HEAP + 10, 2).unwrap(), vec![0xaa, 0xaa]);
    assert_eq!(b.call_method((free - FUNCTIONS_BASE) / 4, a, 0, 0, 0), Ok(a));
    assert_eq!(b.call_method((alloc - FUNCTIONS_BASE) / 4, 8, 0, 0, 0), Ok(HEAP));
    assert_eq!(b.knl_alloc(0x20000), 0);
}

#[test]
fn timer_fires_once_after_timeout() {
    let mut b = bridge();
    let target = b.register_function(CMethod::Alloc).unwrap();
    b.knl_def_timer(DATA, target).unwrap();
    let record = b.core.memory.read(DATA, 32).unwrap();
    let t = WIPICTimer { unk1: 0, unk2: 0, unk3: 0, time: 0, param: 0, unk4: 0, fn_callback: target };
    assert_eq!(record, t.to_bytes());
    assert_eq!(&record[28..32], &target.to_le_bytes());
    assert_eq!(b.knl_set_timer(DATA, 100, 0, 77), Ok(0));
    assert_eq!(b.scheduler.pop(), None);
    b.scheduler.advance(99);
    assert_eq!(b.scheduler.pop(), None);
    b.scheduler.advance(100);
    let task = b.scheduler.pop().unwrap();
    assert!(task.wake <= b.scheduler.now);
    assert_eq!(task.wake, 100);
    assert_eq!(b.scheduler.pop(), None);
    assert_eq!(b.timers[0], TimerTask { task: task.id, callback: target, param: 77 });
    assert_eq!(b.run_timer(task.id, 100), Ok(true));
    assert_eq!(b.heap.blocks.iter().filter(|k| k.used).count(), 1);
    assert_eq!(b.heap.blocks[0].size, 80);
    assert_eq!(b.run_timer(task.id, 100), Ok(false));
}

#[test]
fn timer_timeout_is_sixty_four_bits() {
    let mut b = bridge();
    b.knl_def_timer(DATA, 0x1234).unwrap();
    b.knl_set_timer(DATA, 5, 1, 0).unwrap();
    assert_eq!(b.scheduler.delayed[0].wake, 0x1_0000_0005);
    assert!(b.knl_set_timer(0x10, 5, 1, 0).is_err());
}

#[test]
fn current_time_reads_scheduler_clock() {
    let mut b = bridge();
    let f = b.register_function(CMethod::CurrentTime).unwrap();
    b.scheduler.advance(0x1_0000_0042);
    assert_eq!(b.call_method((f - FUNCTIONS_BASE) / 4, 0, 0, 0, 0), Ok(0x42));
}

#[test]
fn resources_are_found_by_name() {
    let mut b = bridge();
    b.resources.push(Resource { name: b"a.png".to_vec(), data: vec![1, 2, 3] });
    b.resources.push(Resource { name: b"b.bin".to_vec(), data: vec![4; 10] });
    b.core.memory.write(DATA, b"/b.bin\0").unwrap();
    assert_eq!(b.knl_get_resource_id(DATA, DATA + 0x100), Ok(1));
    assert_eq!(b.core.memory.read_u32(DATA + 0x100).unwrap(), 10);
    b.core.memory.write(DATA, b"zz\0").unwrap();
    assert_eq!(b.knl_get_resource_id(DATA, DATA + 0x100), Ok(C_ERROR));
    assert_eq!(b.knl_get_resource(0, DATA + 0x200, 2), Ok(C_ERROR));
    assert_eq!(b.knl_get_resource(0, DATA + 0x200, 3), Ok(0));
    assert_eq!(b.core.memory.read(DATA + 0x200, 3).unwrap(), vec![1, 2, 3]);
    assert_eq!(b.knl_get_resource(7, DATA + 0x200, 3), Ok(C_ERROR));
}

#[test]
fn run_function_serves_host_calls() {
    let mut b = bridge();
    let alloc = b.register_function(CMethod::Alloc).unwrap();
    // mov r4, lr ; mov r0, #24 ; blx r5 ; bx r4
    let words = [0xe1a0_400eu32, 0xe3a0_0018, 0xe12f_ff35, 0xe12f_ff14];
    let prog: Vec<u8> = words.iter().flat_map(|w| w.to_le_bytes()).collect();
    b.core.memory.load(&prog, 0x7000_0000, prog.len()).unwrap();
    b.core.write_reg(5, alloc);
    let sp = b.core.read_reg(13);
    assert_eq!(b.run_function(0x7000_0000, &[], 100), Ok(HEAP));
    assert_eq!(b.core.read_reg(13), sp);
    assert_eq!(b.heap.blocks[0].size, 24);
    assert_eq!(b.run_function(0x7000_0000, &[], 2), Err(CError::StepLimit));
}

#[test]
fn allocation_failure_and_long_strings() {
    let mut b = bridge();
    assert_eq!(b.allocate(0x20000), Err(CError::OutOfMemory));
    let mut mem = GuestMemory::new();
    mem.map_region(0x3000_0000, 0x2000).unwrap();
    mem.write(0x3000_0000, &[b'a'; 0x1800]).unwrap();
    let mut b = KtfCBridge::new(ArmCore::new(mem), Allocator::new(HEAP, 0x100));
    assert_eq!(b.read_cstring(0x3000_0000), Err(CError::StringTooLong { address: 0x3000_0000 }));
    b.core.memory.write(0x3000_0003, &[0]).unwrap();
    assert_eq!(b.read_cstring(0x3000_0000), Ok(b"aaa".to_vec()));
}

#[test]
fn init_must_return_zero() {
    let mut b = bridge();
    // mov r0, #0 ; bx lr ; mov r0, #3 ; bx lr
    let words = [0xe3a0_0000u32, 0xe12f_ff1e, 0xe3a0_0003, 0xe12f_ff1e];
    let prog: Vec<u8> = words.iter().flat_map(|w| w.to_le_bytes()).collect();
    b.core.memory.load(&prog, 0x7000_0000, prog.len()).unwrap();
    assert_eq!(b.run_init(0x7000_0000, 10), Ok(()));
    assert_eq!(b.run_init(0x7000_0008, 10), Err(CError::InitFailed { code: 3 }));
}
