use vstd::prelude::*;

verus! {

/// A host implementation behind a slot of a WIPI-C interface table.
#[derive(Debug, Clone, Copy, PartialEq, Eq, Structural)]
pub enum CMethod {
    Printk,
    Alloc,
    Calloc,
    Free,
    DefTimer,
    SetTimer,
    /// Advisory only: a timer that is already armed still fires.
    UnsetTimer,
    CurrentTime,
    GetSystemProperty,
    GetResourceId,
    GetResource,
    /// The kernel's reserved slot that hands out the other interface tables.
    GetInterfaces,
    /// A slot with no implementation: calling it is an error naming it.
    Unimplemented { interface: u32, index: u32 },
}

/// Number of slots in the kernel table.
pub const KERNEL_SLOTS: u32 = 34;

/// Interface number of the kernel table in `CMethod::Unimplemented`.
pub const KERNEL_INTERFACE: u32 = 0;

/// What the kernel table holds at slot `i`.
pub open spec fn kernel_method_spec(i: u32) -> CMethod {
    if i == 0 {
        CMethod::Printk
    } else if i == 20 {
        CMethod::Alloc
    } else if i == 21 {
        CMethod::Calloc
    } else if i == 22 {
        CMethod::Free
    } else if i == 25 {
        CMethod::DefTimer
    } else if i == 26 {
        CMethod::SetTimer
    } else if i == 27 {
        CMethod::UnsetTimer
    } else if i == 28 {
        CMethod::CurrentTime
    } else if i == 29 {
        CMethod::GetSystemProperty
    } else if i == 31 {
        CMethod::GetResourceId
    } else if i == 32 {
        CMethod::GetResource
    } else if i == 33 {
        CMethod::GetInterfaces
    } else {
        CMethod::Unimplemented { interface: KERNEL_INTERFACE, index: i }
    }
}

/// The method at slot `i` of the kernel table.
pub fn kernel_method(i: u32) -> (r: CMethod)
    ensures
        r == kernel_method_spec(i),
{
    if i == 0 {
        CMethod::Printk
    } else if i == 20 {
        CMethod::Alloc
    } else if i == 21 {
        CMethod::Calloc
    } else if i == 22 {
        CMethod::Free
    } else if i == 25 {
        CMethod::DefTimer
    } else if i == 26 {
        CMethod::SetTimer
    } else if i == 27 {
        CMethod::UnsetTimer
    } else if i == 28 {
        CMethod::CurrentTime
    } else if i == 29 {
        CMethod::GetSystemProperty
    } else if i == 31 {
        CMethod::GetResourceId
    } else if i == 32 {
        CMethod::GetResource
    } else if i == 33 {
        CMethod::GetInterfaces
    } else {
        CMethod::Unimplemented { interface: KERNEL_INTERFACE, index: i }
    }
}

/// The kernel table in slot order; a slot's index is the ABI.
pub fn get_kernel_method_table() -> (r: Vec<CMethod>)
    ensures
        r@.len() == KERNEL_SLOTS,
        forall|i: int| 0 <= i < KERNEL_SLOTS ==> r@[i] == kernel_method_spec(i as u32),
{
    let mut r: Vec<CMethod> = Vec::new();
    let mut i: u32 = 0;
    while i < KERNEL_SLOTS
        invariant
            i <= KERNEL_SLOTS,
            r@.len() == i,
            forall|j: int| 0 <= j < i ==> r@[j] == kernel_method_spec(j as u32),
        decreases KERNEL_SLOTS - i,
    {
        r.push(kernel_method(i));
        i = i + 1;
    }
    r
}

pub open spec fn kernel_method_name_spec(i: u32) -> Seq<char> {
    if i == 0 { "MC_knlPrintk"@ }
    else if i == 1 { "MC_knlSprintk"@ }
    else if i == 2 { "MC_knlGetExecNames"@ }
    else if i == 3 { "MC_knlExecute"@ }
    else if i == 4 { "MC_knlMExecute"@ }
    else if i == 5 { "MC_knlLoad"@ }
    else if i == 6 { "MC_knlMLoad"@ }
    else if i == 7 { "MC_knlExit"@ }
    else if i == 8 { "MC_knlProgramStop"@ }
    else if i == 9 { "MC_knlGetCurProgramID"@ }
    else if i == 10 { "MC_knlGetParentProgramID"@ }
    else if i == 11 { "MC_knlGetAppManagerID"@ }
    else if i == 12 { "MC_knlGetProgramInfo"@ }
    else if i == 13 { "MC_knlGetAccessLevel"@ }
    else if i == 14 { "MC_knlGetProgramName"@ }
    else if i == 15 { "MC_knlCreateSharedBuf"@ }
    else if i == 16 { "MC_knlDestroySharedBuf"@ }
    else if i == 17 { "MC_knlGetSharedBuf"@ }
    else if i == 18 { "MC_knlGetSharedBufSize"@ }
    else if i == 19 { "MC_knlResizeSharedBuf"@ }
    else if i == 20 { "MC_knlAlloc"@ }
    else if i == 21 { "MC_knlCalloc"@ }
    else if i == 22 { "MC_knlFree"@ }
    else if i == 23 { "MC_knlGetTotalMemory"@ }
    else if i == 24 { "MC_knlGetFreeMemory"@ }
    else if i == 25 { "MC_knlDefTimer"@ }
    else if i == 26 { "MC_knlSetTimer"@ }
    else if i == 27 { "MC_knlUnsetTimer"@ }
    else if i == 28 { "MC_knlCurrentTime"@ }
    else if i == 29 { "MC_knlGetSystemProperty"@ }
    else if i == 30 { "MC_knlSetSystemProperty"@ }
    else if i == 31 { "MC_knlGetResourceID"@ }
    else if i == 32 { "MC_knlGetResource"@ }
    else if i == 33 { "MC_knlReserved1"@ }
    else { ""@ }
}

/// Name of kernel slot `i`, for diagnostics; empty past the table's end.
pub fn kernel_method_name(i: u32) -> (r: &'static str)
    ensures
        r@ == kernel_method_name_spec(i),
{
    if i == 0 { "MC_knlPrintk" }
    else if i == 1 { "MC_knlSprintk" }
    else if i == 2 { "MC_knlGetExecNames" }
    else if i == 3 { "MC_knlExecute" }
    else if i == 4 { "MC_knlMExecute" }
    else if i == 5 { "MC_knlLoad" }
    else if i == 6 { "MC_knlMLoad" }
    else if i == 7 { "MC_knlExit" }
    else if i == 8 { "MC_knlProgramStop" }
    else if i == 9 { "MC_knlGetCurProgramID" }
    else if i == 10 { "MC_knlGetParentProgramID" }
    else if i == 11 { "MC_knlGetAppManagerID" }
    else if i == 12 { "MC_knlGetProgramInfo" }
    else if i == 13 { "MC_knlGetAccessLevel" }
    else if i == 14 { "MC_knlGetProgramName" }
    else if i == 15 { "MC_knlCreateSharedBuf" }
    else if i == 16 { "MC_knlDestroySharedBuf" }
    else if i == 17 { "MC_knlGetSharedBuf" }
    else if i == 18 { "MC_knlGetSharedBufSize" }
    else if i == 19 { "MC_knlResizeSharedBuf" }
    else if i == 20 { "MC_knlAlloc" }
    else if i == 21 { "MC_knlCalloc" }
    else if i == 22 { "MC_knlFree" }
    else if i == 23 { "MC_knlGetTotalMemory" }
    else if i == 24 { "MC_knlGetFreeMemory" }
    else if i == 25 { "MC_knlDefTimer" }
    else if i == 26 { "MC_knlSetTimer" }
    else if i == 27 { "MC_knlUnsetTimer" }
    else if i == 28 { "MC_knlCurrentTime" }
    else if i == 29 { "MC_knlGetSystemProperty" }
    else if i == 30 { "MC_knlSetSystemProperty" }
    else if i == 31 { "MC_knlGetResourceID" }
    else if i == 32 { "MC_knlGetResource" }
    else if i == 33 { "MC_knlReserved1" }
    else { "" }
}

} // verus!
