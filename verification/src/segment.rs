//! Segmentation: the global descriptor table, the task state segment with its
//! stacks, and the order in which the CPU is given the tables.

use vstd::prelude::*;
use vstd::string::StringExecFns;
use crate::allocator::{Allocator, HeapModel};
use crate::bytes::{le_bytes, lemma_le_round_trip, push_u16, push_u32, push_u64, push_u8};
use crate::error::Error;
use crate::interrupt::{Idt, InterruptStubs, TableRegister};
use crate::text::{hex_prefixed, pad_left, push_hex_prefixed, push_repeat};

verus! {

/// The descriptor bits of a data segment.
pub const BIT_TYPE_DATA: u64 = 0b10u64 << 43;

/// The descriptor bits of a code segment.
pub const BIT_TYPE_CODE: u64 = 0b11u64 << 43;

/// The descriptor bit of a segment that is present.
pub const BIT_PRESENT: u64 = 1u64 << 47;

/// The descriptor bit of a code segment for 64-bit mode.
pub const BIT_CS_LONG_MODE: u64 = 1u64 << 53;

/// The descriptor bit of a code segment that may be read.
pub const BIT_CS_READABLE: u64 = 1u64 << 41;

/// The descriptor bit of a data segment that may be written.
pub const BIT_DS_WRITABLE: u64 = 1u64 << 41;

/// The descriptor bits of privilege level 0.
pub const BIT_DPL0: u64 = 0u64 << 45;

/// The descriptor bits of privilege level 3.
pub const BIT_DPL3: u64 = 3u64 << 45;

/// Selector of the kernel's code segment.
pub const KERNEL_CS: u16 = 1 << 3;

/// Selector of the kernel's data segment.
pub const KERNEL_DS: u16 = 2 << 3;

/// Selector of the task state segment.
pub const TSS64_SEL: u16 = 3 << 3;

/// Size of each stack that the task state segment names.
pub const HANDLER_STACK_SIZE: usize = 64 * 1024;

/// Size of the task state segment in memory.
pub const TSS_SIZE: usize = 104;

/// Size of the global descriptor table in memory: three segments of 8 bytes and the
/// task state segment's descriptor of 16.
pub const GDT_SIZE: usize = 40;

/// The two kinds of segment that the kernel uses.
#[derive(Debug, Clone, Copy, PartialEq, Eq, Structural)]
pub enum GdtAttr {
    KernelCode,
    KernelData,
}

impl GdtAttr {
    /// The descriptor word of the segment kind.
    pub open spec fn spec_bits(self) -> u64 {
        match self {
            GdtAttr::KernelCode => 0x0020_9A00_0000_0000,
            GdtAttr::KernelData => 0x0000_9200_0000_0000,
        }
    }

    /// The descriptor word of the segment kind: a present, readable long-mode code
    /// segment, or a present, writable data segment, both of privilege level 0.
    #[verifier::when_used_as_spec(spec_bits)]
    pub fn bits(self) -> (b: u64)
        ensures
            b == self.spec_bits(),
            b == match self {
                GdtAttr::KernelCode => BIT_TYPE_CODE | BIT_PRESENT | BIT_CS_LONG_MODE | BIT_CS_READABLE
                    | BIT_DPL0,
                GdtAttr::KernelData => BIT_TYPE_DATA | BIT_PRESENT | BIT_DS_WRITABLE | BIT_DPL0,
            },
    {
        assert(0x0020_9A00_0000_0000u64 == (0b11u64 << 43) | (1u64 << 47) | (1u64 << 53) | (1u64 << 41)
            | (0u64 << 45) && 0x0000_9200_0000_0000u64 == (0b10u64 << 43) | (1u64 << 47) | (1u64 << 41)
            | (0u64 << 45)) by (bit_vector);
        match self {
            GdtAttr::KernelCode => 0x0020_9A00_0000_0000,
            GdtAttr::KernelData => 0x0000_9200_0000_0000,
        }
    }
}

/// A segment descriptor of 8 bytes.
#[derive(Debug, Clone, Copy, PartialEq, Eq, Structural)]
pub struct GdtSegmentDescriptor {
    pub value: u64,
}

impl GdtSegmentDescriptor {
    /// The null descriptor.
    pub fn null() -> (d: Self)
        ensures
            d.value == 0,
    {
        Self { value: 0 }
    }

    /// The descriptor of a segment kind.
    pub fn new(attr: GdtAttr) -> (d: Self)
        ensures
            d.value == attr.spec_bits(),
    {
        Self { value: attr.bits() }
    }

    /// The 8 bytes of the descriptor as the CPU reads them.
    pub fn to_bytes(&self) -> (bytes: Vec<u8>)
        ensures
            bytes@ == le_bytes(self.value as nat, 8),
            bytes@.len() == 8,
    {
        let mut bytes: Vec<u8> = Vec::new();
        push_u64(&mut bytes, self.value);
        proof {
            lemma_le_round_trip(self.value as nat, 8);
            assert(bytes@ =~= le_bytes(self.value as nat, 8));
        }
        bytes
    }

    /// The descriptor's word in hexadecimal after `0x`, filled with spaces on the left to 18 characters.
    pub open spec fn spec_format(self) -> Seq<char> {
        pad_left(hex_prefixed(self.value as nat, 0, true), 18, ' ')
    }

    /// The descriptor's word in hexadecimal after `0x`, filled with spaces on the left to 18 characters.
    pub fn format(&self) -> (text: String)
        ensures
            text@ == self.spec_format(),
    {
        let mut number = String::new();
        push_hex_prefixed(&mut number, self.value, 0, true);
        let mut text = String::new();
        let len = number.as_str().unicode_len();
        if len < 18 {
            push_repeat(&mut text, ' ', 18 - len);
        }
        text.append(number.as_str());
        assert(text@ =~= self.spec_format());
        text
    }
}

/// The descriptor of the task state segment, field by field as the CPU reads it.
#[derive(Debug, Clone, Copy, PartialEq, Eq, Structural)]
pub struct TaskStateSegment64Descriptor {
    pub limit_low: u16,
    pub base_low: u16,
    pub base_mid_low: u8,
    pub attr: u16,
    pub base_mid_high: u8,
    pub base_high: u32,
    pub reserved: u32,
}

impl TaskStateSegment64Descriptor {
    /// The descriptor of a task state segment at `base_addr`.
    pub open spec fn spec_new(base_addr: u64) -> TaskStateSegment64Descriptor {
        TaskStateSegment64Descriptor {
            limit_low: 103,
            base_low: (base_addr % 0x1_0000) as u16,
            base_mid_low: ((base_addr / 0x1_0000) % 0x100) as u8,
            attr: 0x8089,
            base_mid_high: ((base_addr / 0x100_0000) % 0x100) as u8,
            base_high: (base_addr / 0x1_0000_0000) as u32,
            reserved: 0,
        }
    }

    /// The address that the descriptor names.
    pub open spec fn spec_base(self) -> u64 {
        (self.base_low + self.base_mid_low * 0x1_0000 + self.base_mid_high * 0x100_0000
            + self.base_high * 0x1_0000_0000) as u64
    }

    /// The descriptor of a task state segment at `base_addr`: limit 103, the
    /// attributes of a present, available 64-bit task state segment, and the address
    /// split over the four base fields.
    pub fn new(base_addr: u64) -> (d: Self)
        ensures
            d == Self::spec_new(base_addr),
            d.spec_base() == base_addr,
    {
        assert((base_addr & 0xffff) as u16 == base_addr % 0x1_0000 && ((base_addr >> 16) & 0xff) as u8 == (
        base_addr / 0x1_0000) % 0x100 && ((base_addr >> 24) & 0xff) as u8 == (base_addr / 0x100_0000)
            % 0x100 && ((base_addr >> 32) & 0xffffffff) as u32 == base_addr / 0x1_0000_0000)
            by (bit_vector);
        Self {
            limit_low: (TSS_SIZE - 1) as u16,
            base_low: (base_addr & 0xffff) as u16,
            base_mid_low: ((base_addr >> 16) & 0xff) as u8,
            attr: 0b1000_0000_1000_1001,
            base_mid_high: ((base_addr >> 24) & 0xff) as u8,
            base_high: ((base_addr >> 32) & 0xffffffff) as u32,
            reserved: 0,
        }
    }

    /// The 16 bytes of the descriptor as the CPU reads them: the limit, the low
    /// 16 bits of the base, its next 8 bits, the attributes, the next 8 bits of
    /// the base, its high 32 bits, and 4 bytes that are reserved; numbers least
    /// significant byte first.
    pub open spec fn spec_to_bytes(self) -> Seq<u8> {
        Seq::empty() + le_bytes(self.limit_low as nat, 2) + le_bytes(self.base_low as nat, 2) + le_bytes(
            self.base_mid_low as nat,
            1,
        ) + le_bytes(self.attr as nat, 2) + le_bytes(self.base_mid_high as nat, 1) + le_bytes(
            self.base_high as nat,
            4,
        ) + le_bytes(self.reserved as nat, 4)
    }

    /// The 16 bytes of the descriptor as the CPU reads them.
    pub fn to_bytes(&self) -> (bytes: Vec<u8>)
        ensures
            bytes@ == self.spec_to_bytes(),
            bytes@.len() == 16,
    {
        let mut bytes: Vec<u8> = Vec::new();
        push_u16(&mut bytes, self.limit_low);
        push_u16(&mut bytes, self.base_low);
        push_u8(&mut bytes, self.base_mid_low);
        push_u16(&mut bytes, self.attr);
        push_u8(&mut bytes, self.base_mid_high);
        push_u32(&mut bytes, self.base_high);
        push_u32(&mut bytes, self.reserved);
        proof {
            lemma_le_round_trip(self.limit_low as nat, 2);
            lemma_le_round_trip(self.base_low as nat, 2);
            lemma_le_round_trip(self.base_mid_low as nat, 1);
            lemma_le_round_trip(self.attr as nat, 2);
            lemma_le_round_trip(self.base_mid_high as nat, 1);
            lemma_le_round_trip(self.base_high as nat, 4);
            lemma_le_round_trip(self.reserved as nat, 4);
        }
        bytes
    }

    /// The address that the descriptor names.
    pub fn base(&self) -> (addr: u64)
        ensures
            addr == self.spec_base(),
    {
        self.base_low as u64 + self.base_mid_low as u64 * 0x1_0000 + self.base_mid_high as u64
            * 0x100_0000 + self.base_high as u64 * 0x1_0000_0000
    }
}

/// What allocating `n` handler stacks one after the other yields: the tops of
/// the stacks, or `OutOfMemory` with the stacks before the failure still allocated;
/// and the heap after it.
pub open spec fn allocate_stacks(heap: HeapModel, n: nat) -> (Result<Seq<u64>, Error>, HeapModel)
    decreases n,
{
    if n == 0 {
        (Ok(Seq::empty()), heap)
    } else {
        let before = allocate_stacks(heap, (n - 1) as nat);
        match before.0 {
            Ok(tops) => match before.1.allocate(HANDLER_STACK_SIZE, 1).0 {
                Ok(base) => (
                    Ok(tops.push((base + HANDLER_STACK_SIZE) as u64)),
                    before.1.allocate(HANDLER_STACK_SIZE, 1).1,
                ),
                Err(_) => (Err(Error::OutOfMemory), before.1),
            },
            Err(_) => before,
        }
    }
}

/// The mathematical value of a task state segment.
pub struct TssView {
    /// Where the segment lies.
    pub addr: u64,
    /// The stacks for a switch to ring 0, 1 and 2.
    pub rsp: Seq<u64>,
    /// The interrupt stack table; entry 0 is reserved.
    pub ist: Seq<u64>,
    pub io_map_base_addr: u16,
}

/// The task state segment that `tops` and `addr` make: stack 0 for ring 0, stacks 1 to 7 for the
/// interrupt stack table, everything else zero.
pub open spec fn tss_of(tops: Seq<u64>, addr: u64) -> TssView {
    TssView {
        addr,
        rsp: seq![tops[0], 0, 0],
        ist: seq![0, tops[1], tops[2], tops[3], tops[4], tops[5], tops[6], tops[7]],
        io_map_base_addr: 0,
    }
}

/// What building a task state segment yields: eight stacks are allocated, next the segment itself.
pub open spec fn build_tss(heap: HeapModel) -> (Result<TssView, Error>, HeapModel) {
    let stacks = allocate_stacks(heap, 8);
    match stacks.0 {
        Ok(tops) => match stacks.1.allocate(TSS_SIZE, 1).0 {
            Ok(addr) => (Ok(tss_of(tops, addr)), stacks.1.allocate(TSS_SIZE, 1).1),
            Err(_) => (Err(Error::OutOfMemory), stacks.1),
        },
        Err(_) => (Err(Error::OutOfMemory), stacks.1),
    }
}

/// Allocating stacks keeps the heap well formed, and blocks that were handed out
/// stay so. Where it succeeds, stack `i` is a live block of 64 KiB below its top,
/// and no two of the stacks overlap.
pub proof fn lemma_allocate_stacks(heap: HeapModel, n: nat)
    requires
        heap.wf(),
    ensures
        ({
            let after = allocate_stacks(heap, n);
            &&& after.1.wf()
            &&& heap.live.len() <= after.1.live.len()
            &&& forall|j: int| 0 <= j < heap.live.len() ==> after.1.live[j] == #[trigger] heap.live[j]
            &&& after.0 matches Ok(tops) ==> {
                &&& tops.len() == n
                &&& after.1.live.len() == heap.live.len() + n
                &&& forall|i: int|
                    0 <= i < n ==> (#[trigger] after.1.live[heap.live.len() + i]).addr + HANDLER_STACK_SIZE
                        == tops[i] && after.1.live[heap.live.len() + i].class == 16
                &&& forall|i: int, j: int|
                    0 <= i < j < n ==> (#[trigger] tops[i]) + HANDLER_STACK_SIZE <= (#[trigger] tops[j])
                        || tops[j] + HANDLER_STACK_SIZE <= tops[i]
            }
        }),
    decreases n,
{
    if n > 0 {
        let before = allocate_stacks(heap, (n - 1) as nat);
        lemma_allocate_stacks(heap, (n - 1) as nat);
        before.1.lemma_allocate(HANDLER_STACK_SIZE, 1);
        vstd::arithmetic::power2::lemma2_to64();
        crate::allocator::lemma_class_from(HANDLER_STACK_SIZE as nat, 0);
        assert(crate::allocator::class_of(HANDLER_STACK_SIZE, 1) == 16) by {
            assert(vstd::arithmetic::power2::pow2(15) < 65536 <= vstd::arithmetic::power2::pow2(16));
            if crate::allocator::class_of(HANDLER_STACK_SIZE, 1) < 16 {
                vstd::arithmetic::power2::lemma_pow2_strictly_increases(
                    crate::allocator::class_of(HANDLER_STACK_SIZE, 1),
                    16,
                );
            }
        }
        let after = allocate_stacks(heap, n);
        match before.0 {
            Ok(tops) => match before.1.allocate(HANDLER_STACK_SIZE, 1).0 {
                Ok(base) => {
                    let new_tops = after.0->Ok_0;
                    let m = heap.live.len() as int;
                    assert forall|i: int, j: int| 0 <= i < j < n implies (#[trigger] new_tops[i])
                        + HANDLER_STACK_SIZE <= (#[trigger] new_tops[j]) || new_tops[j] + HANDLER_STACK_SIZE
                        <= new_tops[i] by {
                        if j == n - 1 {
                            assert(before.1.live[m + i].addr + HANDLER_STACK_SIZE == tops[i]);
                            assert(before.1.live[m + i].class == 16);
                        }
                    }
                    assert forall|i: int| 0 <= i < n implies (#[trigger] after.1.live[m + i]).addr
                        + HANDLER_STACK_SIZE == new_tops[i] && after.1.live[m + i].class == 16 by {
                        if i < n - 1 {
                            assert(after.1.live[m + i] == before.1.live[m + i]);
                        }
                    }
                },
                Err(_) => {},
            },
            Err(_) => {},
        }
    }
}

/// The task state segment: the stacks that the CPU switches to on its own.
pub struct TaskStateSegment64 {
    addr: u64,
    rsp: [u64; 3],
    ist: [u64; 8],
    io_map_base_addr: u16,
}

impl View for TaskStateSegment64 {
    type V = TssView;

    closed spec fn view(&self) -> TssView {
        TssView { addr: self.addr, rsp: self.rsp@, ist: self.ist@, io_map_base_addr: self.io_map_base_addr }
    }
}

/// The first `n` numbers of 8 bytes each, least significant byte first.
pub open spec fn words_bytes(words: Seq<u64>, n: nat) -> Seq<u8>
    decreases n,
{
    if n == 0 {
        Seq::empty()
    } else {
        words_bytes(words, (n - 1) as nat) + le_bytes(words[n - 1] as nat, 8)
    }
}

impl TssView {
    /// The 104 bytes of the segment as the CPU reads them: 4 reserved bytes, the
    /// three stacks for a switch of ring, the eight entries of the interrupt
    /// stack table, 10 reserved bytes, and the base of the I/O map.
    pub open spec fn to_bytes(self) -> Seq<u8> {
        Seq::empty() + le_bytes(0, 4) + words_bytes(self.rsp, 3) + words_bytes(self.ist, 8) + le_bytes(0, 10)
            + le_bytes(self.io_map_base_addr as nat, 2)
    }
}

impl TaskStateSegment64 {
    /// The 104 bytes of the segment as the CPU reads them.
    pub fn to_bytes(&self) -> (bytes: Vec<u8>)
        ensures
            bytes@ == self@.to_bytes(),
            bytes@.len() == TSS_SIZE,
    {
        let mut bytes: Vec<u8> = Vec::new();
        push_u32(&mut bytes, 0);
        proof {
            lemma_le_round_trip(0, 4);
        }
        let ghost head = bytes@;
        let mut i: usize = 0;
        while i < 3
            invariant
                i <= 3,
                self.rsp@.len() == 3,
                bytes@ == head + words_bytes(self.rsp@, i as nat),
                bytes@.len() == 4 + 8 * i,
            decreases 3 - i,
        {
            push_u64(&mut bytes, self.rsp[i]);
            proof {
                lemma_le_round_trip(self.rsp@[i as int] as nat, 8);
                assert(bytes@ =~= head + words_bytes(self.rsp@, (i + 1) as nat));
            }
            i = i + 1;
        }
        let ghost middle = bytes@;
        let mut j: usize = 0;
        while j < 8
            invariant
                j <= 8,
                self.ist@.len() == 8,
                bytes@ == middle + words_bytes(self.ist@, j as nat),
                bytes@.len() == 28 + 8 * j,
            decreases 8 - j,
        {
            push_u64(&mut bytes, self.ist[j]);
            proof {
                lemma_le_round_trip(self.ist@[j as int] as nat, 8);
                assert(bytes@ =~= middle + words_bytes(self.ist@, (j + 1) as nat));
            }
            j = j + 1;
        }
        let ghost tables = bytes@;
        push_u64(&mut bytes, 0);
        push_u16(&mut bytes, 0);
        proof {
            reveal_with_fuel(le_bytes, 11);
            assert(le_bytes(0, 8) + le_bytes(0, 2) =~= le_bytes(0, 10));
            assert(bytes@ =~= tables + le_bytes(0, 10));
            lemma_le_round_trip(0, 10);
            lemma_le_round_trip(self.io_map_base_addr as nat, 2);
        }
        push_u16(&mut bytes, self.io_map_base_addr);
        bytes
    }

    /// The address of the segment.
    pub fn phys_addr(&self) -> (addr: u64)
        ensures
            addr == self@.addr,
    {
        self.addr
    }

    /// The stack for a switch to the given ring, if the ring is 0, 1 or 2.
    pub fn rsp(&self, ring: usize) -> (top: Option<u64>)
        ensures
            top == (if ring < 3 {
                Some(self@.rsp[ring as int])
            } else {
                None
            }),
            self@.rsp.len() == 3,
    {
        if ring < 3 {
            Some(self.rsp[ring])
        } else {
            None
        }
    }

    /// Entry `index` of the interrupt stack table, if the index is below 8.
    pub fn ist(&self, index: usize) -> (top: Option<u64>)
        ensures
            top == (if index < 8 {
                Some(self@.ist[index as int])
            } else {
                None
            }),
            self@.ist.len() == 8,
    {
        if index < 8 {
            Some(self.ist[index])
        } else {
            None
        }
    }

    /// Allocates one handler stack and returns its top, the address just above it.
    fn alloc_interrupt_stack(heap: &mut Allocator) -> (top: Result<u64, Error>)
        requires
            old(heap).wf(),
        ensures
            final(heap).wf(),
            match old(heap)@.allocate(HANDLER_STACK_SIZE, 1).0 {
                Ok(base) => top == Ok::<u64, Error>((base + HANDLER_STACK_SIZE) as u64) && final(heap)@
                    == old(heap)@.allocate(HANDLER_STACK_SIZE, 1).1,
                Err(_) => top == Err::<u64, Error>(Error::OutOfMemory) && final(heap)@ == old(heap)@,
            },
    {
        match heap.alloc_with_options(HANDLER_STACK_SIZE, 1) {
            Ok(base) => Ok(base + HANDLER_STACK_SIZE as u64),
            Err(_) => Err(Error::OutOfMemory),
        }
    }

    /// Builds a task state segment: allocates a stack of 64 KiB for the switch to
    /// ring 0 and one for each of the entries 1 to 7 of the interrupt stack table,
    /// next the segment itself. Each entry holds the top of its stack; the stacks
    /// are never given back. `OutOfMemory` if the heap cannot serve one of the
    /// allocations; what was allocated until then stays allocated.
    pub fn new(heap: &mut Allocator) -> (tss: Result<TaskStateSegment64, Error>)
        requires
            old(heap).wf(),
        ensures
            final(heap).wf(),
            final(heap)@ == build_tss(old(heap)@).1,
            match tss {
                Ok(t) => build_tss(old(heap)@).0 == Ok::<TssView, Error>(t@),
                Err(e) => build_tss(old(heap)@).0 == Err::<TssView, Error>(e),
            },
    {
        let mut tops: Vec<u64> = Vec::new();
        let mut i: usize = 0;
        while i < 8
            invariant
                i <= 8,
                tops@.len() == i,
                heap.wf(),
                allocate_stacks(old(heap)@, i as nat) == (Ok::<Seq<u64>, Error>(tops@), heap@),
            decreases 8 - i,
        {
            match Self::alloc_interrupt_stack(heap) {
                Ok(top) => {
                    tops.push(top);
                },
                Err(e) => {
                    proof {
                        lemma_stacks_fail(old(heap)@, (i + 1) as nat, 8);
                    }
                    return Err(e);
                },
            }
            i = i + 1;
        }
        match heap.alloc_with_options(TSS_SIZE, 1) {
            Ok(addr) => {
                let tss = TaskStateSegment64 {
                    addr,
                    rsp: [tops[0], 0, 0],
                    ist: [0, tops[1], tops[2], tops[3], tops[4], tops[5], tops[6], tops[7]],
                    io_map_base_addr: 0,
                };
                proof {
                    assert(tss@.rsp =~= tss_of(tops@, addr).rsp);
                    assert(tss@.ist =~= tss_of(tops@, addr).ist);
                }
                Ok(tss)
            },
            Err(_) => Err(Error::OutOfMemory),
        }
    }
}

/// Once the allocation of a stack has failed, allocating more stacks fails the same way.
proof fn lemma_stacks_fail(heap: HeapModel, failed: nat, n: nat)
    requires
        failed <= n,
        allocate_stacks(heap, failed).0 is Err,
    ensures
        allocate_stacks(heap, n) == allocate_stacks(heap, failed),
    decreases n,
{
    if failed < n {
        lemma_stacks_fail(heap, failed, (n - 1) as nat);
    }
}


/// The global descriptor table: the null segment, the kernel's code and data
/// segments, and the descriptor of the task state segment.
#[derive(Debug, Clone, Copy, PartialEq, Eq, Structural)]
pub struct Gdt {
    pub null_segment: GdtSegmentDescriptor,
    pub kernel_code_segment: GdtSegmentDescriptor,
    pub kernel_data_segment: GdtSegmentDescriptor,
    pub task_state_segment: TaskStateSegment64Descriptor,
}

impl Gdt {
    /// The table for a task state segment at `tss_addr`.
    pub open spec fn spec_new(tss_addr: u64) -> Gdt {
        Gdt {
            null_segment: GdtSegmentDescriptor { value: 0 },
            kernel_code_segment: GdtSegmentDescriptor { value: GdtAttr::KernelCode.spec_bits() },
            kernel_data_segment: GdtSegmentDescriptor { value: GdtAttr::KernelData.spec_bits() },
            task_state_segment: TaskStateSegment64Descriptor::spec_new(tss_addr),
        }
    }

    /// The 40 bytes of the table as the CPU reads them: the three segment
    /// descriptors of 8 bytes, and the descriptor of the task state segment.
    pub open spec fn spec_to_bytes(self) -> Seq<u8> {
        Seq::empty() + le_bytes(self.null_segment.value as nat, 8) + le_bytes(
            self.kernel_code_segment.value as nat,
            8,
        ) + le_bytes(self.kernel_data_segment.value as nat, 8) + self.task_state_segment.spec_to_bytes()
    }

    /// The 40 bytes of the table as the CPU reads them.
    pub fn to_bytes(&self) -> (bytes: Vec<u8>)
        ensures
            bytes@ == self.spec_to_bytes(),
            bytes@.len() == GDT_SIZE,
    {
        let mut bytes: Vec<u8> = Vec::new();
        push_u64(&mut bytes, self.null_segment.value);
        push_u64(&mut bytes, self.kernel_code_segment.value);
        push_u64(&mut bytes, self.kernel_data_segment.value);
        let mut tss = self.task_state_segment.to_bytes();
        bytes.append(&mut tss);
        proof {
            lemma_le_round_trip(self.null_segment.value as nat, 8);
            lemma_le_round_trip(self.kernel_code_segment.value as nat, 8);
            lemma_le_round_trip(self.kernel_data_segment.value as nat, 8);
        }
        bytes
    }

    /// The table for a task state segment at `tss_addr`.
    pub fn new(tss_addr: u64) -> (gdt: Gdt)
        ensures
            gdt == Self::spec_new(tss_addr),
    {
        Gdt {
            null_segment: GdtSegmentDescriptor::null(),
            kernel_code_segment: GdtSegmentDescriptor::new(GdtAttr::KernelCode),
            kernel_data_segment: GdtSegmentDescriptor::new(GdtAttr::KernelData),
            task_state_segment: TaskStateSegment64Descriptor::new(tss_addr),
        }
    }
}

/// The mathematical value of the descriptor bundle.
pub struct GdtView {
    /// Where the table lies.
    pub addr: u64,
    pub gdt: Gdt,
    pub tss: TssView,
}

/// The global descriptor table together with the task state segment that it names.
pub struct GdtWrapper {
    addr: u64,
    inner: Gdt,
    tss64: TaskStateSegment64,
}

impl View for GdtWrapper {
    type V = GdtView;

    closed spec fn view(&self) -> GdtView {
        GdtView { addr: self.addr, gdt: self.inner, tss: self.tss64@ }
    }
}

/// What building the descriptor bundle yields: the task state segment is built,
/// next the table is allocated.
pub open spec fn build_gdt(heap: HeapModel) -> (Result<GdtView, Error>, HeapModel) {
    let built = build_tss(heap);
    match built.0 {
        Ok(tss) => match built.1.allocate(GDT_SIZE, 1).0 {
            Ok(addr) => (
                Ok(GdtView { addr, gdt: Gdt::spec_new(tss.addr), tss }),
                built.1.allocate(GDT_SIZE, 1).1,
            ),
            Err(_) => (Err(Error::OutOfMemory), built.1),
        },
        Err(_) => (Err(Error::OutOfMemory), built.1),
    }
}

impl GdtWrapper {
    /// Builds the task state segment with its stacks, and the table that names it.
    /// `OutOfMemory` if the heap cannot serve one of the allocations; what was
    /// allocated until then stays allocated.
    pub fn new(heap: &mut Allocator) -> (bundle: Result<GdtWrapper, Error>)
        requires
            old(heap).wf(),
        ensures
            final(heap).wf(),
            final(heap)@ == build_gdt(old(heap)@).1,
            match bundle {
                Ok(b) => build_gdt(old(heap)@).0 == Ok::<GdtView, Error>(b@),
                Err(e) => build_gdt(old(heap)@).0 == Err::<GdtView, Error>(e),
            },
    {
        let tss64 = match TaskStateSegment64::new(heap) {
            Ok(tss) => tss,
            Err(_) => {
                return Err(Error::OutOfMemory);
            },
        };
        match heap.alloc_with_options(GDT_SIZE, 1) {
            Ok(addr) => Ok(GdtWrapper { addr, inner: Gdt::new(tss64.phys_addr()), tss64 }),
            Err(_) => Err(Error::OutOfMemory),
        }
    }

    /// The table.
    pub fn gdt(&self) -> (gdt: Gdt)
        ensures
            gdt == self@.gdt,
    {
        self.inner
    }

    /// The task state segment.
    pub fn tss(&self) -> (tss: &TaskStateSegment64)
        ensures
            tss@ == self@.tss,
    {
        &self.tss64
    }

    /// What to load into the CPU for the table: its last byte and its address.
    pub fn register(&self) -> (gdtr: TableRegister)
        ensures
            gdtr == (TableRegister { limit: 39, base: self@.addr }),
    {
        TableRegister { limit: (GDT_SIZE - 1) as u16, base: self.addr }
    }
}

/// One step of handing the descriptor tables to the CPU.
#[derive(Debug, Clone, Copy, PartialEq, Eq, Structural)]
pub enum LoadStep {
    /// Load the global descriptor table register.
    LoadGdt(TableRegister),
    /// Reload the code segment with a far jump.
    WriteCs(u16),
    WriteSs(u16),
    WriteDs(u16),
    WriteEs(u16),
    WriteFs(u16),
    WriteGs(u16),
    /// Load the task register.
    LoadTr(u16),
    /// Load the interrupt descriptor table register.
    LoadIdt(TableRegister),
}

/// The one order in which the tables are handed to the CPU: the global descriptor
/// table, the code segment, the five data segment registers, the task register,
/// and last the interrupt descriptor table.
pub open spec fn spec_load_sequence(gdtr: TableRegister, idtr: TableRegister) -> Seq<LoadStep> {
    seq![
        LoadStep::LoadGdt(gdtr),
        LoadStep::WriteCs(KERNEL_CS),
        LoadStep::WriteSs(KERNEL_DS),
        LoadStep::WriteDs(KERNEL_DS),
        LoadStep::WriteEs(KERNEL_DS),
        LoadStep::WriteFs(KERNEL_DS),
        LoadStep::WriteGs(KERNEL_DS),
        LoadStep::LoadTr(TSS64_SEL),
        LoadStep::LoadIdt(idtr),
    ]
}

/// The steps that hand the tables to the CPU, in the order in which to take them.
pub fn load_sequence(gdtr: TableRegister, idtr: TableRegister) -> (steps: Vec<LoadStep>)
    ensures
        steps@ == spec_load_sequence(gdtr, idtr),
{
    let mut steps: Vec<LoadStep> = Vec::new();
    steps.push(LoadStep::LoadGdt(gdtr));
    steps.push(LoadStep::WriteCs(KERNEL_CS));
    steps.push(LoadStep::WriteSs(KERNEL_DS));
    steps.push(LoadStep::WriteDs(KERNEL_DS));
    steps.push(LoadStep::WriteEs(KERNEL_DS));
    steps.push(LoadStep::WriteFs(KERNEL_DS));
    steps.push(LoadStep::WriteGs(KERNEL_DS));
    steps.push(LoadStep::LoadTr(TSS64_SEL));
    steps.push(LoadStep::LoadIdt(idtr));
    assert(steps@ =~= spec_load_sequence(gdtr, idtr));
    steps
}

/// Builds what exception handling needs: the descriptor bundle, and the interrupt
/// descriptor table with its gates in the kernel's code segment. `OutOfMemory` if
/// the heap cannot hold the bundle.
pub fn init_exceptions(heap: &mut Allocator, stubs: &InterruptStubs) -> (tables: Result<
    (GdtWrapper, Idt),
    Error,
>)
    requires
        old(heap).wf(),
    ensures
        final(heap).wf(),
        final(heap)@ == build_gdt(old(heap)@).1,
        match tables {
            Ok((gdt, idt)) => {
                &&& build_gdt(old(heap)@).0 == Ok::<GdtView, Error>(gdt@)
                &&& idt@.len() == crate::interrupt::IDT_ENTRIES
                &&& forall|vector: int|
                    0 <= vector < crate::interrupt::IDT_ENTRIES ==> #[trigger] idt@[vector]
                        == crate::interrupt::gate_for(vector, KERNEL_CS, *stubs)
            },
            Err(e) => build_gdt(old(heap)@).0 == Err::<GdtView, Error>(e),
        },
{
    match GdtWrapper::new(heap) {
        Ok(gdt) => Ok((gdt, Idt::new(KERNEL_CS, stubs))),
        Err(e) => Err(e),
    }
}

} // verus!
