//! Execution substrate of a WIPI feature-phone emulator: guest memory, a
//! first-fit guest heap, an ARM core with host traps at synthetic addresses,
//! the WIPI-C kernel bridge, a cooperative scheduler, and a Java heap with a
//! uniform method dispatcher over the built-in classes.
mod allocator;
mod arm;
mod bridge;
mod classes;
mod dispatch;
mod java;
mod jvm;
mod kernel;
mod launcher;
mod memory;
mod natives;
mod scheduler;
mod thumb;

pub use allocator::{Allocator, Block};
pub use arm::{AluOp, ArmCore, ArmError, FUNCTIONS_BASE, Instr, MAX_FUNCTIONS, RETURN_SENTINEL, StepEvent, decode};
pub use bridge::{C_ERROR, CError, KtfCBridge, Resource, TimerTask, WIPICTimer};
pub use classes::{Card, Clip, DataBase, Font, Image, Object, Runtime, String, StringBuffer, Thread, Vibrator, get_class_proto};
pub use java::{JavaClassProto, JavaFieldAccessFlag, JavaFieldProto, JavaMethodFlag, JavaMethodProto, NativeMethod, str_eq};
pub use jvm::{Class, Database, JavaTask, Field, HeapObject, JavaError, JavaValue, Jvm, default_value_of};
pub use kernel::{CMethod, KERNEL_SLOTS, get_kernel_method_table, kernel_method, kernel_method_name};
pub use launcher::{IMAGE_BASE, LoadError, bss_size_of, find_client_bin, load_client_bin};
pub use memory::{GuestMemory, MemoryError, Region};
pub use natives::{FONT_HEIGHT, REPORTED_MEMORY, decimal_of};
pub use thumb::{THUMB_BIT, ThumbInstr, decode_thumb};
pub use scheduler::{Schedule, Scheduler, Task};
