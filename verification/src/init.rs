//! The order in which the kernel takes over the machine.

use vstd::prelude::*;
use crate::allocator::{Allocator, HeapModel};
use crate::error::Error;
use crate::uefi::{EfiMemoryDescriptor, EfiMemoryType, MemoryMapHolder};
use crate::x86::{map_range, EntryView, Mapped, PageAttr, PageStructure, PML4};

verus! {

/// The steps of the kernel's start, in the one order in which they may be taken.
#[derive(Debug, Clone, Copy, PartialEq, Eq, Structural)]
pub enum InitStep {
    /// Locate the graphics output and note the frame buffer.
    LocateGraphics,
    /// Locate the root table of the ACPI.
    LocateAcpi,
    /// Take a snapshot of the memory map.
    CaptureMemoryMap,
    /// End the firmware's boot services. The firmware is never called again.
    ExitBootServices,
    /// Give the heap the memory of the snapshot.
    InitAllocator,
    /// Install the global descriptor table with the task state segment, and the interrupt descriptor table.
    InstallDescriptorTables,
    /// Build and activate the kernel's page tables; make virtual address 0 not present.
    ActivatePaging,
    /// Start the timer.
    InitTimer,
    /// Register the text sink.
    RegisterTextSink,
    /// Spawn the first tasks and enter the executor.
    EnterExecutor,
}

/// Number of steps of the start.
pub const INIT_STEPS: u8 = 10;

impl InitStep {
    /// The place of the step in the order, from 1.
    pub open spec fn spec_order(self) -> u8 {
        match self {
            InitStep::LocateGraphics => 1,
            InitStep::LocateAcpi => 2,
            InitStep::CaptureMemoryMap => 3,
            InitStep::ExitBootServices => 4,
            InitStep::InitAllocator => 5,
            InitStep::InstallDescriptorTables => 6,
            InitStep::ActivatePaging => 7,
            InitStep::InitTimer => 8,
            InitStep::RegisterTextSink => 9,
            InitStep::EnterExecutor => 10,
        }
    }

    /// The place of the step in the order, from 1.
    #[verifier::when_used_as_spec(spec_order)]
    pub fn order(self) -> (n: u8)
        ensures
            n == self.spec_order(),
            1 <= n <= INIT_STEPS,
    {
        match self {
            InitStep::LocateGraphics => 1,
            InitStep::LocateAcpi => 2,
            InitStep::CaptureMemoryMap => 3,
            InitStep::ExitBootServices => 4,
            InitStep::InitAllocator => 5,
            InitStep::InstallDescriptorTables => 6,
            InitStep::ActivatePaging => 7,
            InitStep::InitTimer => 8,
            InitStep::RegisterTextSink => 9,
            InitStep::EnterExecutor => 10,
        }
    }

    /// The step at a place of the order.
    pub open spec fn spec_at(n: u8) -> Option<InitStep> {
        if n == 1 {
            Some(InitStep::LocateGraphics)
        } else if n == 2 {
            Some(InitStep::LocateAcpi)
        } else if n == 3 {
            Some(InitStep::CaptureMemoryMap)
        } else if n == 4 {
            Some(InitStep::ExitBootServices)
        } else if n == 5 {
            Some(InitStep::InitAllocator)
        } else if n == 6 {
            Some(InitStep::InstallDescriptorTables)
        } else if n == 7 {
            Some(InitStep::ActivatePaging)
        } else if n == 8 {
            Some(InitStep::InitTimer)
        } else if n == 9 {
            Some(InitStep::RegisterTextSink)
        } else if n == 10 {
            Some(InitStep::EnterExecutor)
        } else {
            None
        }
    }

    /// The step at a place of the order.
    pub fn at(n: u8) -> (step: Option<InitStep>)
        ensures
            step == Self::spec_at(n),
            step matches Some(s) ==> s.spec_order() == n,
            step is Some <==> 1 <= n <= INIT_STEPS,
    {
        if n == 1 {
            Some(InitStep::LocateGraphics)
        } else if n == 2 {
            Some(InitStep::LocateAcpi)
        } else if n == 3 {
            Some(InitStep::CaptureMemoryMap)
        } else if n == 4 {
            Some(InitStep::ExitBootServices)
        } else if n == 5 {
            Some(InitStep::InitAllocator)
        } else if n == 6 {
            Some(InitStep::InstallDescriptorTables)
        } else if n == 7 {
            Some(InitStep::ActivatePaging)
        } else if n == 8 {
            Some(InitStep::InitTimer)
        } else if n == 9 {
            Some(InitStep::RegisterTextSink)
        } else if n == 10 {
            Some(InitStep::EnterExecutor)
        } else {
            None
        }
    }
}

/// How a failure of the start is made known.
#[derive(Debug, Clone, Copy, PartialEq, Eq, Structural)]
pub enum FailureSignal {
    /// Through the emulator's exit port: there is no text sink yet.
    QemuExitFail,
    /// By printing the error; the kernel halts after it.
    PrintThenHalt,
}

/// How far the start has come.
#[derive(Debug, Clone, Copy, PartialEq, Eq, Structural)]
pub struct InitSequence {
    /// The number of steps that are done.
    pub done: u8,
}

impl InitSequence {
    /// The start before its first step.
    pub fn new() -> (sequence: InitSequence)
        ensures
            sequence.done == 0,
    {
        InitSequence { done: 0 }
    }

    /// The step that may be taken next; none once all are done.
    pub fn next_step(&self) -> (step: Option<InitStep>)
        ensures
            step == (if self.done < INIT_STEPS {
                InitStep::spec_at((self.done + 1) as u8)
            } else {
                None
            }),
            step is Some <==> self.done < INIT_STEPS,
    {
        if self.done < INIT_STEPS {
            InitStep::at(self.done + 1)
        } else {
            None
        }
    }

    /// Notes that `step` has been taken. Says whether it was the step that was
    /// due: a step out of order is refused and changes nothing.
    pub fn complete(&mut self, step: InitStep) -> (accepted: bool)
        ensures
            accepted == (step.spec_order() == old(self).done + 1),
            accepted ==> final(self).done == step.spec_order(),
            !accepted ==> *final(self) == *old(self),
    {
        if self.done < INIT_STEPS && step.order() == self.done + 1 {
            self.done = self.done + 1;
            true
        } else {
            false
        }
    }

    /// Whether the firmware may still be called, so that a failure may fall
    /// back to the firmware's exit: until its boot services have been ended.
    pub fn firmware_available(&self) -> (yes: bool)
        ensures
            yes == (self.done < InitStep::ExitBootServices.spec_order()),
    {
        self.done < 4
    }

    /// How a failure is made known at this point: by printing once the text
    /// sink is registered, through the emulator's exit port before that.
    pub fn failure_signal(&self) -> (signal: FailureSignal)
        ensures
            signal == (if self.done >= InitStep::RegisterTextSink.spec_order() {
                FailureSignal::PrintThenHalt
            } else {
                FailureSignal::QemuExitFail
            }),
    {
        if self.done >= 9 {
            FailureSignal::PrintThenHalt
        } else {
            FailureSignal::QemuExitFail
        }
    }
}


/// The attributes with which the kernel maps memory of a kind onto itself:
/// those of kernel memory for conventional memory and for the code and data
/// of the loader and of the firmware's services, those of device memory for
/// memory-mapped I/O. Memory of any other kind is not mapped.
pub open spec fn spec_identity_attr(kind: EfiMemoryType) -> Option<PageAttr> {
    match kind {
        EfiMemoryType::CONVENTIONAL_MEMORY => Some(PageAttr::ReadWriteKernel),
        EfiMemoryType::LOADER_CODE => Some(PageAttr::ReadWriteKernel),
        EfiMemoryType::LOADER_DATA => Some(PageAttr::ReadWriteKernel),
        EfiMemoryType::BOOT_SERVICES_CODE => Some(PageAttr::ReadWriteKernel),
        EfiMemoryType::BOOT_SERVICES_DATA => Some(PageAttr::ReadWriteKernel),
        EfiMemoryType::RUNTIME_SERVICES_CODE => Some(PageAttr::ReadWriteKernel),
        EfiMemoryType::RUNTIME_SERVICES_DATA => Some(PageAttr::ReadWriteKernel),
        EfiMemoryType::MEMORY_MAPPED_IO => Some(PageAttr::ReadWriteIo),
        EfiMemoryType::MEMORY_MAPPED_IO_PORT_SPACE => Some(PageAttr::ReadWriteIo),
        _ => None,
    }
}

/// The attributes with which the kernel maps memory of a kind onto itself.
pub fn identity_attr(kind: EfiMemoryType) -> (attr: Option<PageAttr>)
    ensures
        attr == spec_identity_attr(kind),
{
    match kind {
        EfiMemoryType::CONVENTIONAL_MEMORY => Some(PageAttr::ReadWriteKernel),
        EfiMemoryType::LOADER_CODE => Some(PageAttr::ReadWriteKernel),
        EfiMemoryType::LOADER_DATA => Some(PageAttr::ReadWriteKernel),
        EfiMemoryType::BOOT_SERVICES_CODE => Some(PageAttr::ReadWriteKernel),
        EfiMemoryType::BOOT_SERVICES_DATA => Some(PageAttr::ReadWriteKernel),
        EfiMemoryType::RUNTIME_SERVICES_CODE => Some(PageAttr::ReadWriteKernel),
        EfiMemoryType::RUNTIME_SERVICES_DATA => Some(PageAttr::ReadWriteKernel),
        EfiMemoryType::MEMORY_MAPPED_IO => Some(PageAttr::ReadWriteIo),
        EfiMemoryType::MEMORY_MAPPED_IO_PORT_SPACE => Some(PageAttr::ReadWriteIo),
        _ => None,
    }
}

/// What the kernel maps of a descriptor: its memory as a range, and the
/// attributes; nothing for a kind that is not mapped, for a region without
/// pages, and for one that reaches beyond the address space.
pub open spec fn spec_region_to_map(d: EfiMemoryDescriptor) -> Option<(u64, u64, PageAttr)> {
    match spec_identity_attr(d.memory_type) {
        Some(attr) => if d.number_of_pages > 0 && d.physical_start + d.number_of_pages * 4096 <= u64::MAX {
            Some((d.physical_start, (d.physical_start + d.number_of_pages * 4096) as u64, attr))
        } else {
            None
        },
        None => None,
    }
}

/// What the kernel maps of a descriptor.
pub fn region_to_map(d: &EfiMemoryDescriptor) -> (region: Option<(u64, u64, PageAttr)>)
    ensures
        region == spec_region_to_map(*d),
{
    let attr = match identity_attr(d.memory_type()) {
        Some(attr) => attr,
        None => {
            return None;
        },
    };
    if d.number_of_pages() == 0 {
        return None;
    }
    let size: u64 = match d.number_of_pages().checked_mul(4096) {
        Some(size) => size,
        None => {
            return None;
        },
    };
    match d.physical_start.checked_add(size) {
        Some(end) => Some((d.physical_start, end, attr)),
        None => None,
    }
}

/// What mapping the first `n` descriptors onto themselves yields: the regions
/// are mapped in the order of the descriptors, and the first failure ends the mapping.
pub open spec fn map_descriptors(
    t: Seq<EntryView<Seq<EntryView<Seq<EntryView<Seq<EntryView<()>>>>>>>>,
    heap: HeapModel,
    descriptors: Seq<EfiMemoryDescriptor>,
    n: nat,
) -> Mapped<Seq<EntryView<Seq<EntryView<Seq<EntryView<Seq<EntryView<()>>>>>>>>>
    decreases n,
{
    if n == 0 {
        (Ok(()), t, heap)
    } else {
        let before = map_descriptors(t, heap, descriptors, (n - 1) as nat);
        if before.0 is Err {
            before
        } else {
            match spec_region_to_map(descriptors[n - 1]) {
                Some((start, end, attr)) => map_range::<PML4>(before.1, before.2, start, end, start, attr),
                None => before,
            }
        }
    }
}

/// Once the mapping of a descriptor has failed, the mapping of more descriptors fails the same way.
proof fn lemma_map_descriptors_fail(
    t: Seq<EntryView<Seq<EntryView<Seq<EntryView<Seq<EntryView<()>>>>>>>>,
    heap: HeapModel,
    descriptors: Seq<EfiMemoryDescriptor>,
    failed: nat,
    n: nat,
)
    requires
        failed <= n,
        map_descriptors(t, heap, descriptors, failed).0 is Err,
    ensures
        map_descriptors(t, heap, descriptors, n) == map_descriptors(t, heap, descriptors, failed),
    decreases n,
{
    if failed < n {
        lemma_map_descriptors_fail(t, heap, descriptors, failed, (n - 1) as nat);
    }
}

/// Builds the kernel's page tables: a new hierarchy that maps every region of
/// the memory map that the kernel uses onto itself, with the attributes of its
/// kind. Fails as the mapping of a region fails; the tables that were taken
/// from the heap until then stay taken.
#[verifier::loop_isolation(false)]
pub fn init_paging(memory_map: &MemoryMapHolder, heap: &mut Allocator) -> (tables: Result<Box<PML4>, Error>)
    requires
        memory_map.wf(),
        old(heap).wf(),
    ensures
        final(heap).wf(),
        ({
            let mapped = map_descriptors(
                <PML4 as PageStructure>::zeroed_view(),
                old(heap)@,
                memory_map@.descriptors(),
                memory_map@.count(),
            );
            &&& final(heap)@ == mapped.2
            &&& match tables {
                Ok(root) => mapped.0 is Ok && root@ == mapped.1 && root.inv(),
                Err(e) => mapped.0 == Err::<(), Error>(e),
            }
        }),
{
    let all = memory_map.descriptors();
    let mut root = PML4::new();
    let ghost start = <PML4 as PageStructure>::zeroed_view();
    let mut i: usize = 0;
    while i < all.len()
        invariant
            i <= all@.len(),
            all@ == memory_map@.descriptors(),
            all@.len() == memory_map@.count(),
            root.inv(),
            heap.wf(),
            map_descriptors(start, old(heap)@, all@, i as nat).0 is Ok,
            map_descriptors(start, old(heap)@, all@, i as nat).1 == root@,
            map_descriptors(start, old(heap)@, all@, i as nat).2 == heap@,
        decreases all@.len() - i,
    {
        match region_to_map(&all[i]) {
            Some((from, to, attr)) => {
                match root.create_mapping(from, to, from, attr, heap) {
                    Ok(()) => {},
                    Err(e) => {
                        proof {
                            lemma_map_descriptors_fail(start, old(heap)@, all@, (i + 1) as nat, all@.len());
                        }
                        return Err(e);
                    },
                }
            },
            None => {},
        }
        i = i + 1;
    }
    Ok(root)
}

/// Makes the page at virtual address 0 not present, so that the use of a null
/// pointer faults.
pub fn unmap_null_page(root: &mut PML4, heap: &mut Allocator) -> (r: Result<(), Error>)
    requires
        old(root).inv(),
        old(heap).wf(),
    ensures
        final(root).inv(),
        final(heap).wf(),
        r == map_range::<PML4>(old(root)@, old(heap)@, 0, 4096, 0, PageAttr::NotPresent).0,
        final(root)@ == map_range::<PML4>(old(root)@, old(heap)@, 0, 4096, 0, PageAttr::NotPresent).1,
        final(heap)@ == map_range::<PML4>(old(root)@, old(heap)@, 0, 4096, 0, PageAttr::NotPresent).2,
{
    root.create_mapping(0, 4096, 0, PageAttr::NotPresent, heap)
}

} // verus!
