//! The firmware bridge: the memory map that the firmware hands over, the
//! hand-over itself, and what the firmware tells about the screen.

use vstd::prelude::*;
use vstd::string::StringExecFns;
use crate::text::{dec_digits, push_dec_right};
use crate::bytes::{le_bytes, le_value, lemma_le_round_trip, push_u16, push_u32, read_u32, read_u64};
use crate::error::{Error, FirmwareCall};

verus! {

/// What a pointer of the firmware points to when the firmware does not say.
pub type EfiVoid = u8;

/// The firmware's name for an object, such as the image of the kernel.
pub type EfiHandle = u64;

/// The status that a firmware service returns: 0 is success, any other value a failure.
#[derive(Debug, Clone, Copy, PartialEq, Eq, Structural)]
#[must_use]
pub enum EfiStatus {
    Success,
    /// A failure, with the value that the firmware returned.
    Failure(u64),
}

impl EfiStatus {
    /// The status for the value that a firmware service returned.
    pub fn from_raw(raw: u64) -> (status: EfiStatus)
        ensures
            status == (if raw == 0 {
                EfiStatus::Success
            } else {
                EfiStatus::Failure(raw)
            }),
    {
        if raw == 0 {
            EfiStatus::Success
        } else {
            EfiStatus::Failure(raw)
        }
    }

    /// Whether the service succeeded.
    pub fn is_success(&self) -> (yes: bool)
        ensures
            yes == (*self == EfiStatus::Success),
    {
        match self {
            EfiStatus::Success => true,
            EfiStatus::Failure(_) => false,
        }
    }
}

/// The kinds of memory that the firmware tells apart.
#[derive(Debug, Clone, Copy, PartialEq, Eq, Structural)]
#[allow(non_camel_case_types)]
pub enum EfiMemoryType {
    RESERVED,
    LOADER_CODE,
    LOADER_DATA,
    BOOT_SERVICES_CODE,
    BOOT_SERVICES_DATA,
    RUNTIME_SERVICES_CODE,
    RUNTIME_SERVICES_DATA,
    CONVENTIONAL_MEMORY,
    UNUSABLE_MEMORY,
    ACPI_RECLAIM_MEMORY,
    ACPI_MEMORY_NVS,
    MEMORY_MAPPED_IO,
    MEMORY_MAPPED_IO_PORT_SPACE,
    PAL_CODE,
    PERSISTENT_MEMORY,
}

impl EfiMemoryType {
    /// The kind that the firmware writes as `raw`, if it is one of the fifteen.
    pub open spec fn spec_from_u32(raw: u32) -> Option<EfiMemoryType> {
        if raw == 0 {
            Some(EfiMemoryType::RESERVED)
        } else if raw == 1 {
            Some(EfiMemoryType::LOADER_CODE)
        } else if raw == 2 {
            Some(EfiMemoryType::LOADER_DATA)
        } else if raw == 3 {
            Some(EfiMemoryType::BOOT_SERVICES_CODE)
        } else if raw == 4 {
            Some(EfiMemoryType::BOOT_SERVICES_DATA)
        } else if raw == 5 {
            Some(EfiMemoryType::RUNTIME_SERVICES_CODE)
        } else if raw == 6 {
            Some(EfiMemoryType::RUNTIME_SERVICES_DATA)
        } else if raw == 7 {
            Some(EfiMemoryType::CONVENTIONAL_MEMORY)
        } else if raw == 8 {
            Some(EfiMemoryType::UNUSABLE_MEMORY)
        } else if raw == 9 {
            Some(EfiMemoryType::ACPI_RECLAIM_MEMORY)
        } else if raw == 10 {
            Some(EfiMemoryType::ACPI_MEMORY_NVS)
        } else if raw == 11 {
            Some(EfiMemoryType::MEMORY_MAPPED_IO)
        } else if raw == 12 {
            Some(EfiMemoryType::MEMORY_MAPPED_IO_PORT_SPACE)
        } else if raw == 13 {
            Some(EfiMemoryType::PAL_CODE)
        } else if raw == 14 {
            Some(EfiMemoryType::PERSISTENT_MEMORY)
        } else {
            None
        }
    }

    /// The kind that the firmware writes as `raw`, if it is one of the fifteen.
    pub fn from_u32(raw: u32) -> (kind: Option<EfiMemoryType>)
        ensures
            kind == Self::spec_from_u32(raw),
    {
        if raw == 0 {
            Some(EfiMemoryType::RESERVED)
        } else if raw == 1 {
            Some(EfiMemoryType::LOADER_CODE)
        } else if raw == 2 {
            Some(EfiMemoryType::LOADER_DATA)
        } else if raw == 3 {
            Some(EfiMemoryType::BOOT_SERVICES_CODE)
        } else if raw == 4 {
            Some(EfiMemoryType::BOOT_SERVICES_DATA)
        } else if raw == 5 {
            Some(EfiMemoryType::RUNTIME_SERVICES_CODE)
        } else if raw == 6 {
            Some(EfiMemoryType::RUNTIME_SERVICES_DATA)
        } else if raw == 7 {
            Some(EfiMemoryType::CONVENTIONAL_MEMORY)
        } else if raw == 8 {
            Some(EfiMemoryType::UNUSABLE_MEMORY)
        } else if raw == 9 {
            Some(EfiMemoryType::ACPI_RECLAIM_MEMORY)
        } else if raw == 10 {
            Some(EfiMemoryType::ACPI_MEMORY_NVS)
        } else if raw == 11 {
            Some(EfiMemoryType::MEMORY_MAPPED_IO)
        } else if raw == 12 {
            Some(EfiMemoryType::MEMORY_MAPPED_IO_PORT_SPACE)
        } else if raw == 13 {
            Some(EfiMemoryType::PAL_CODE)
        } else if raw == 14 {
            Some(EfiMemoryType::PERSISTENT_MEMORY)
        } else {
            None
        }
    }

    /// Whether memory of this kind may be reused once the firmware's boot
    /// services are gone: conventional memory, and the boot services' own code and data.
    pub fn is_reusable(&self) -> (yes: bool)
        ensures
            yes == (*self == EfiMemoryType::CONVENTIONAL_MEMORY || *self
                == EfiMemoryType::BOOT_SERVICES_CODE || *self == EfiMemoryType::BOOT_SERVICES_DATA),
    {
        match self {
            EfiMemoryType::CONVENTIONAL_MEMORY => true,
            EfiMemoryType::BOOT_SERVICES_CODE => true,
            EfiMemoryType::BOOT_SERVICES_DATA => true,
            _ => false,
        }
    }
}

/// Number of bytes of a descriptor that carry its fields.
pub const DESCRIPTOR_LEN: usize = 40;

/// One region of physical memory, as the firmware describes it.
#[derive(Debug, Clone, Copy, PartialEq, Eq, Structural)]
pub struct EfiMemoryDescriptor {
    pub memory_type: EfiMemoryType,
    pub physical_start: u64,
    pub virtual_start: u64,
    pub number_of_pages: u64,
    pub attribute: u64,
}

impl EfiMemoryDescriptor {
    /// The kind of the region.
    pub fn memory_type(&self) -> (kind: EfiMemoryType)
        ensures
            kind == self.memory_type,
    {
        self.memory_type
    }

    /// The size of the region in pages of 4096 bytes.
    pub fn number_of_pages(&self) -> (pages: u64)
        ensures
            pages == self.number_of_pages,
    {
        self.number_of_pages
    }

    /// The descriptor that lies at `at`: the kind in 4 bytes, 4 bytes of padding,
    /// and four numbers of 8 bytes, all least significant byte first. A kind that
    /// is none of the fifteen is read as `RESERVED`.
    pub open spec fn spec_decode(bytes: Seq<u8>, at: int) -> EfiMemoryDescriptor {
        EfiMemoryDescriptor {
            memory_type: match EfiMemoryType::spec_from_u32(le_value(bytes, at, 4) as u32) {
                Some(kind) => kind,
                None => EfiMemoryType::RESERVED,
            },
            physical_start: le_value(bytes, at + 8, 8) as u64,
            virtual_start: le_value(bytes, at + 16, 8) as u64,
            number_of_pages: le_value(bytes, at + 24, 8) as u64,
            attribute: le_value(bytes, at + 32, 8) as u64,
        }
    }

    /// Reads the descriptor that lies at `at`.
    pub fn decode(bytes: &[u8], at: usize) -> (d: EfiMemoryDescriptor)
        requires
            at + DESCRIPTOR_LEN <= bytes@.len(),
        ensures
            d == Self::spec_decode(bytes@, at as int),
    {
        let len: usize = bytes.len();
        assert(at + DESCRIPTOR_LEN <= len);
        EfiMemoryDescriptor {
            memory_type: match EfiMemoryType::from_u32(read_u32(bytes, at)) {
                Some(kind) => kind,
                None => EfiMemoryType::RESERVED,
            },
            physical_start: read_u64(bytes, at + 8),
            virtual_start: read_u64(bytes, at + 16),
            number_of_pages: read_u64(bytes, at + 24),
            attribute: read_u64(bytes, at + 32),
        }
    }
}

/// Size of the buffer that receives the memory map.
pub const MEMORY_MAP_BUFFER_SIZE: usize = 0x8000;

/// The memory map as the firmware wrote it: the descriptors, laid out with the
/// stride that the firmware chose, and the key that the hand-over needs.
pub struct MemoryMapHolder {
    memory_map_buffer: [u8; MEMORY_MAP_BUFFER_SIZE],
    memory_map_size: usize,
    map_key: usize,
    descriptor_size: usize,
    descriptor_version: u32,
}

/// The mathematical value of a memory map.
pub struct MemoryMapView {
    /// The bytes that the firmware wrote.
    pub bytes: Seq<u8>,
    /// The stride from one descriptor to the next.
    pub descriptor_size: nat,
    pub map_key: usize,
    pub descriptor_version: u32,
}

impl MemoryMapView {
    /// The number of descriptors: the size of the map divided by the stride,
    /// none while no stride is known.
    pub open spec fn count(self) -> nat {
        if self.descriptor_size == 0 {
            0
        } else {
            self.bytes.len() / self.descriptor_size
        }
    }

    /// Descriptor `i` of the map.
    pub open spec fn descriptor(self, i: int) -> EfiMemoryDescriptor {
        EfiMemoryDescriptor::spec_decode(self.bytes, i * self.descriptor_size)
    }

    /// The descriptors in the order in which the firmware wrote them.
    pub open spec fn descriptors(self) -> Seq<EfiMemoryDescriptor> {
        Seq::new(self.count(), |i: int| self.descriptor(i))
    }

    /// Whether no two descriptors describe the same byte of memory.
    pub open spec fn disjoint(self) -> bool {
        forall|i: int, j: int|
            0 <= i < j < self.count() ==> regions_apart(
                #[trigger] self.descriptor(i),
                #[trigger] self.descriptor(j),
            )
    }
}

/// Whether the memory of two descriptors has no byte in common.
pub open spec fn regions_apart(a: EfiMemoryDescriptor, b: EfiMemoryDescriptor) -> bool {
    ||| a.number_of_pages == 0
    ||| b.number_of_pages == 0
    ||| a.physical_start + a.number_of_pages * 4096 <= b.physical_start
    ||| b.physical_start + b.number_of_pages * 4096 <= a.physical_start
}

/// Whether the memory of two descriptors has no byte in common.
pub fn apart(a: &EfiMemoryDescriptor, b: &EfiMemoryDescriptor) -> (yes: bool)
    ensures
        yes == regions_apart(*a, *b),
{
    if a.number_of_pages == 0 || b.number_of_pages == 0 {
        return true;
    }
    let a_end: u128 = a.physical_start as u128 + a.number_of_pages as u128 * 4096;
    let b_end: u128 = b.physical_start as u128 + b.number_of_pages as u128 * 4096;
    a_end <= b.physical_start as u128 || b_end <= a.physical_start as u128
}

/// The pages of the conventional regions among the first `n` descriptors.
pub open spec fn conventional_pages(descriptors: Seq<EfiMemoryDescriptor>, n: nat) -> nat
    decreases n,
{
    if n == 0 {
        0
    } else {
        conventional_pages(descriptors, (n - 1) as nat) + (if descriptors[n - 1].memory_type
            == EfiMemoryType::CONVENTIONAL_MEMORY {
            descriptors[n - 1].number_of_pages as nat
        } else {
            0
        })
    }
}

impl View for MemoryMapHolder {
    type V = MemoryMapView;

    closed spec fn view(&self) -> MemoryMapView {
        MemoryMapView {
            bytes: self.memory_map_buffer@.subrange(0, self.memory_map_size as int),
            descriptor_size: self.descriptor_size as nat,
            map_key: self.map_key,
            descriptor_version: self.descriptor_version,
        }
    }
}

impl MemoryMapHolder {
    /// The holder's invariant: the buffer has its fixed size, the map lies within
    /// it, and the stride is zero or at least the length of a descriptor.
    pub closed spec fn wf(&self) -> bool {
        &&& self.memory_map_buffer@.len() == MEMORY_MAP_BUFFER_SIZE
        &&& self.memory_map_size <= MEMORY_MAP_BUFFER_SIZE
        &&& self.descriptor_size == 0 || self.descriptor_size >= DESCRIPTOR_LEN
    }

    /// A holder before the firmware has written to it: a cleared buffer, the
    /// buffer's size as the map's size, and no stride, so that it has no descriptors.
    pub fn new() -> (holder: MemoryMapHolder)
        ensures
            holder.wf(),
            holder@.bytes == Seq::new(MEMORY_MAP_BUFFER_SIZE as nat, |i: int| 0u8),
            holder@.descriptor_size == 0,
            holder@.map_key == 0,
            holder@.descriptor_version == 0,
    {
        let holder = MemoryMapHolder {
            memory_map_buffer: [0; MEMORY_MAP_BUFFER_SIZE],
            memory_map_size: MEMORY_MAP_BUFFER_SIZE,
            map_key: 0,
            descriptor_size: 0,
            descriptor_version: 0,
        };
        assert(holder@.bytes =~= Seq::new(MEMORY_MAP_BUFFER_SIZE as nat, |i: int| 0u8));
        holder
    }

    /// Takes over what the firmware's memory map service wrote: the first
    /// `memory_map_size` bytes of `buffer`, with the key, the stride and the version.
    ///
    /// Fails with `FirmwareCallFailed`, and keeps what the holder held, if the
    /// service reported a failure, if the map is longer than `buffer` or than the
    /// holder's buffer, or if the stride is shorter than a descriptor.
    pub fn get_memory_map(
        &mut self,
        status: EfiStatus,
        buffer: &[u8],
        memory_map_size: usize,
        map_key: usize,
        descriptor_size: usize,
        descriptor_version: u32,
    ) -> (r: Result<(), Error>)
        requires
            old(self).wf(),
        ensures
            final(self).wf(),
            r == (if status == EfiStatus::Success && memory_map_size <= buffer@.len() && memory_map_size
                <= MEMORY_MAP_BUFFER_SIZE && descriptor_size >= DESCRIPTOR_LEN {
                Ok::<(), Error>(())
            } else {
                Err::<(), Error>(Error::FirmwareCallFailed(FirmwareCall::GetMemoryMap))
            }),
            r is Err ==> final(self)@ == old(self)@,
            r is Ok ==> final(self)@ == (MemoryMapView {
                bytes: buffer@.subrange(0, memory_map_size as int),
                descriptor_size: descriptor_size as nat,
                map_key,
                descriptor_version,
            }),
    {
        if !status.is_success() || memory_map_size > buffer.len() || memory_map_size
            > MEMORY_MAP_BUFFER_SIZE || descriptor_size < DESCRIPTOR_LEN {
            return Err(Error::FirmwareCallFailed(FirmwareCall::GetMemoryMap));
        }
        let mut i: usize = 0;
        while i < memory_map_size
            invariant
                i <= memory_map_size <= buffer@.len(),
                memory_map_size <= MEMORY_MAP_BUFFER_SIZE,
                self.memory_map_buffer@.len() == MEMORY_MAP_BUFFER_SIZE,
                forall|j: int| 0 <= j < i ==> self.memory_map_buffer@[j] == buffer@[j],
            decreases memory_map_size - i,
        {
            self.memory_map_buffer[i] = buffer[i];
            i = i + 1;
        }
        self.memory_map_size = memory_map_size;
        self.map_key = map_key;
        self.descriptor_size = descriptor_size;
        self.descriptor_version = descriptor_version;
        assert(self@.bytes =~= buffer@.subrange(0, memory_map_size as int));
        Ok(())
    }

    /// The key that the firmware gave with the map.
    pub fn map_key(&self) -> (key: usize)
        ensures
            key == self@.map_key,
    {
        self.map_key
    }

    /// The stride from one descriptor to the next.
    pub fn descriptor_size(&self) -> (stride: usize)
        ensures
            stride == self@.descriptor_size,
    {
        self.descriptor_size
    }

    /// The number of descriptors.
    pub fn len(&self) -> (n: usize)
        requires
            self.wf(),
        ensures
            n == self@.count(),
    {
        if self.descriptor_size == 0 {
            0
        } else {
            self.memory_map_size / self.descriptor_size
        }
    }

    /// Descriptor `i`, if the map has that many.
    pub fn get(&self, i: usize) -> (d: Option<EfiMemoryDescriptor>)
        requires
            self.wf(),
        ensures
            d == (if i < self@.count() {
                Some(self@.descriptor(i as int))
            } else {
                None
            }),
    {
        if i >= self.len() {
            return None;
        }
        let stride = self.descriptor_size;
        let size = self.memory_map_size;
        assert(i * stride + stride <= size) by (nonlinear_arith)
            requires
                i < size / stride,
                stride > 0,
        ;
        let at: usize = i * stride;
        let map = vstd::slice::slice_subrange(self.memory_map_buffer.as_slice(), 0, size);
        proof {
            lemma_decode_prefix(self.memory_map_buffer@, size as int, at as int);
        }
        Some(EfiMemoryDescriptor::decode(map, at))
    }

    /// An iterator over the descriptors, from the first on.
    pub fn iter(&self) -> (it: MemoryMapIterator<'_>)
        requires
            self.wf(),
        ensures
            it.wf(),
            it.map() == self,
            it.position() == 0,
    {
        proof {
            if self.descriptor_size > 0 {
                vstd::arithmetic::div_mod::lemma_small_mod(0, self.descriptor_size as nat);
                vstd::arithmetic::div_mod::lemma_div_basics_1(self.descriptor_size as int);
            }
        }
        MemoryMapIterator { map: self, ofs: 0 }
    }

    /// All descriptors in the order in which the firmware wrote them: as many as
    /// the size of the map divided by the stride.
    pub fn descriptors(&self) -> (all: Vec<EfiMemoryDescriptor>)
        requires
            self.wf(),
        ensures
            all@ == self@.descriptors(),
            all@.len() == self@.count(),
    {
        let mut all: Vec<EfiMemoryDescriptor> = Vec::new();
        let mut it = self.iter();
        loop
            invariant
                it.wf(),
                it.map() == self,
                it.position() == all@.len() <= self@.count(),
                forall|j: int| 0 <= j < all@.len() ==> all@[j] == self@.descriptor(j),
            ensures
                all@.len() == self@.count(),
                forall|j: int| 0 <= j < all@.len() ==> all@[j] == self@.descriptor(j),
            decreases self@.count() - all@.len(),
        {
            match it.next() {
                Some(d) => {
                    all.push(d);
                },
                None => {
                    break ;
                },
            }
        }
        assert(all@ =~= self@.descriptors());
        all
    }

    /// Whether no two descriptors describe the same byte of memory, as a memory
    /// map of the firmware should have it.
    pub fn is_disjoint(&self) -> (yes: bool)
        requires
            self.wf(),
        ensures
            yes == self@.disjoint(),
    {
        let all = self.descriptors();
        let mut j: usize = 0;
        while j < all.len()
            invariant
                j <= all@.len(),
                all@ == self@.descriptors(),
                all@.len() == self@.count(),
                forall|a: int, b: int|
                    0 <= a < b < j ==> regions_apart(
                        #[trigger] self@.descriptor(a),
                        #[trigger] self@.descriptor(b),
                    ),
            decreases all@.len() - j,
        {
            let mut i: usize = 0;
            while i < j
                invariant
                    i <= j < all@.len(),
                    all@ == self@.descriptors(),
                    all@.len() == self@.count(),
                    forall|a: int| 0 <= a < i ==> regions_apart(
                        #[trigger] self@.descriptor(a),
                        self@.descriptor(j as int),
                    ),
                decreases j - i,
            {
                assert(all@[i as int] == self@.descriptor(i as int));
                assert(all@[j as int] == self@.descriptor(j as int));
                if !apart(&all[i], &all[j]) {
                    return false;
                }
                i = i + 1;
            }
            j = j + 1;
        }
        true
    }

    /// The number of pages of conventional memory, at most `u64::MAX`.
    pub fn total_conventional_pages(&self) -> (pages: u64)
        requires
            self.wf(),
        ensures
            pages == (if conventional_pages(self@.descriptors(), self@.count()) <= u64::MAX {
                conventional_pages(self@.descriptors(), self@.count())
            } else {
                u64::MAX as nat
            }),
    {
        let all = self.descriptors();
        let mut total: u64 = 0;
        let mut i: usize = 0;
        while i < all.len()
            invariant
                i <= all@.len(),
                total == (if conventional_pages(all@, i as nat) <= u64::MAX {
                    conventional_pages(all@, i as nat)
                } else {
                    u64::MAX as nat
                }),
            decreases all@.len() - i,
        {
            let d = all[i];
            if d.memory_type() == EfiMemoryType::CONVENTIONAL_MEMORY {
                total = total.saturating_add(d.number_of_pages());
            }
            i = i + 1;
        }
        total
    }
}

/// A descriptor that lies within the first `size` bytes reads the same from those bytes alone.
proof fn lemma_decode_prefix(bytes: Seq<u8>, size: int, at: int)
    requires
        0 <= at,
        at + DESCRIPTOR_LEN <= size <= bytes.len(),
    ensures
        EfiMemoryDescriptor::spec_decode(bytes.subrange(0, size), at) == EfiMemoryDescriptor::spec_decode(
            bytes,
            at,
        ),
{
    let part = bytes.subrange(0, size);
    lemma_le_value_prefix(bytes, size, at, 4);
    lemma_le_value_prefix(bytes, size, at + 8, 8);
    lemma_le_value_prefix(bytes, size, at + 16, 8);
    lemma_le_value_prefix(bytes, size, at + 24, 8);
    lemma_le_value_prefix(bytes, size, at + 32, 8);
}

/// A number that lies within the first `size` bytes reads the same from those bytes alone.
proof fn lemma_le_value_prefix(bytes: Seq<u8>, size: int, at: int, len: nat)
    requires
        0 <= at,
        at + len <= size <= bytes.len(),
    ensures
        le_value(bytes.subrange(0, size), at, len) == le_value(bytes, at, len),
    decreases len,
{
    if len > 0 {
        lemma_le_value_prefix(bytes, size, at + 1, (len - 1) as nat);
    }
}

/// The size of `pages` pages of 4096 bytes in KiB.
pub open spec fn size_in_kib(pages: u64) -> nat {
    (pages * 4) as nat
}

/// The line that reports the total of `pages` pages: the number of pages, and
/// their size in KiB with the thousands of KiB set apart under the unit MiB,
/// so that 600 pages, 2400 KiB, are reported as `2 MiB 400 KiB`.
pub open spec fn spec_total_line(pages: u64) -> Seq<char> {
    Seq::empty() + "Total: "@ + dec_digits(pages as nat) + " pages = "@ + dec_digits(size_in_kib(pages) / 1000)
        + " MiB "@ + dec_digits(size_in_kib(pages) % 1000) + " KiB"@
}

/// The line that reports a total of `pages` pages of memory.
pub fn total_line(pages: u64) -> (line: String)
    ensures
        line@ == spec_total_line(pages),
{
    let thousands: u64 = pages / 250;
    let rest: u64 = (pages % 250) * 4;
    assert(thousands == size_in_kib(pages) / 1000 && rest == size_in_kib(pages) % 1000) by {
        vstd::arithmetic::div_mod::lemma_fundamental_div_mod(pages as int, 250);
        vstd::arithmetic::div_mod::lemma_fundamental_div_mod_converse(
            pages * 4,
            1000,
            thousands as int,
            rest as int,
        );
    }
    let mut line = String::new();
    line.append("Total: ");
    push_dec_right(&mut line, pages, 0);
    line.append(" pages = ");
    push_dec_right(&mut line, thousands, 0);
    line.append(" MiB ");
    push_dec_right(&mut line, rest, 0);
    line.append(" KiB");
    line
}

/// An iterator over the descriptors of a memory map.
pub struct MemoryMapIterator<'a> {
    map: &'a MemoryMapHolder,
    ofs: usize,
}

impl<'a> MemoryMapIterator<'a> {
    /// The map that the iterator walks.
    pub closed spec fn map(&self) -> &MemoryMapHolder {
        self.map
    }

    /// The number of descriptors that the iterator has passed.
    pub closed spec fn position(&self) -> nat {
        if self.map.descriptor_size == 0 {
            0
        } else {
            self.ofs as nat / self.map.descriptor_size as nat
        }
    }

    /// The iterator's invariant: its map is well formed, and it stands at the
    /// start of a descriptor or at the end.
    pub closed spec fn wf(&self) -> bool {
        &&& self.map.wf()
        &&& self.map.descriptor_size > 0 ==> self.ofs as nat % self.map.descriptor_size as nat == 0
        &&& self.map.descriptor_size == 0 ==> self.ofs == 0
        &&& self.ofs <= self.map.memory_map_size
    }

    /// The next descriptor, in the order in which the firmware wrote them;
    /// `None` once as many have been returned as the size of the map divided by
    /// the stride.
    pub fn next(&mut self) -> (d: Option<EfiMemoryDescriptor>)
        requires
            old(self).wf(),
        ensures
            final(self).wf(),
            final(self).map() == old(self).map(),
            old(self).position() < old(self).map()@.count() ==> d == Some(
                old(self).map()@.descriptor(old(self).position() as int),
            ) && final(self).position() == old(self).position() + 1,
            old(self).position() >= old(self).map()@.count() ==> d is None && final(self).position()
                == old(self).position(),
            final(self).position() <= old(self).map()@.count(),
    {
        let stride = self.map.descriptor_size;
        let size = self.map.memory_map_size;
        if stride == 0 || size - self.ofs < stride {
            proof {
                if stride > 0 {
                    lemma_position(self.ofs as int, stride as int, size as int);
                }
            }
            return None;
        }
        proof {
            lemma_position(self.ofs as int, stride as int, size as int);
            lemma_decode_prefix(self.map.memory_map_buffer@, size as int, self.ofs as int);
        }
        let map = vstd::slice::slice_subrange(self.map.memory_map_buffer.as_slice(), 0, size);
        let d = EfiMemoryDescriptor::decode(map, self.ofs);
        self.ofs = self.ofs + stride;
        Some(d)
    }
}

/// An offset that is a multiple of the stride is the start of the descriptor of
/// its quotient; that descriptor lies within the map exactly if a whole stride does.
proof fn lemma_position(ofs: int, stride: int, size: int)
    requires
        stride > 0,
        0 <= ofs <= size,
        ofs % stride == 0,
    ensures
        ofs == (ofs / stride) * stride,
        (ofs + stride) % stride == 0,
        (ofs + stride) / stride == ofs / stride + 1,
        ofs + stride <= size <==> ofs / stride < size / stride,
        ofs / stride <= size / stride,
{
    vstd::arithmetic::div_mod::lemma_fundamental_div_mod(ofs, stride);
    vstd::arithmetic::div_mod::lemma_fundamental_div_mod(size, stride);
    vstd::arithmetic::div_mod::lemma_mod_bound(size, stride);
    let q = ofs / stride;
    let s = size / stride;
    assert(ofs == stride * q);
    assert(ofs == q * stride) by (nonlinear_arith)
        requires
            ofs == stride * q,
    ;
    vstd::arithmetic::div_mod::lemma_div_plus_one(ofs, stride);
    vstd::arithmetic::div_mod::lemma_mod_adds(ofs, stride, stride);
    vstd::arithmetic::div_mod::lemma_mod_self_0(stride);
    if q < s {
        assert(stride * (q + 1) <= stride * s) by (nonlinear_arith)
            requires
                q + 1 <= s,
                stride > 0,
        ;
        assert(stride * (q + 1) == stride * q + stride) by (nonlinear_arith);
    } else {
        assert(stride * s <= stride * q) by (nonlinear_arith)
            requires
                s <= q,
                stride > 0,
        ;
    }
    if q > s {
        assert(stride * (s + 1) <= stride * q) by (nonlinear_arith)
            requires
                s + 1 <= q,
                stride > 0,
        ;
        assert(stride * (s + 1) == stride * s + stride) by (nonlinear_arith);
    }
}


/// Where the hand-over from the firmware stands.
#[derive(Debug, Clone, Copy, PartialEq, Eq, Structural)]
pub enum ExitState {
    /// The memory map has been asked for.
    AwaitMemoryMap,
    /// The firmware has been asked to end its boot services with this key.
    AwaitExit { map_key: usize },
    /// The boot services are gone: the firmware must not be called again.
    Exited,
    /// The hand-over failed.
    Failed,
}

/// What the firmware answered.
#[derive(Debug, Clone, Copy, PartialEq, Eq, Structural)]
pub enum FirmwareEvent {
    /// The memory map service returned, with this status and key.
    MemoryMap { status: EfiStatus, map_key: usize },
    /// The service that ends the boot services returned.
    ExitBootServices { status: EfiStatus },
}

/// What to do next in the hand-over.
#[derive(Debug, Clone, Copy, PartialEq, Eq, Structural)]
pub enum FirmwareAction {
    /// Ask the firmware for the memory map.
    GetMemoryMap,
    /// Ask the firmware to end its boot services, with this key.
    ExitBootServices { map_key: usize },
    /// Nothing: the hand-over is complete.
    Done,
    /// Give up with this error.
    Fail(Error),
}

/// How the hand-over starts: by asking for the memory map.
pub fn begin_exit_boot_services() -> (start: (ExitState, FirmwareAction))
    ensures
        start == (ExitState::AwaitMemoryMap, FirmwareAction::GetMemoryMap),
{
    (ExitState::AwaitMemoryMap, FirmwareAction::GetMemoryMap)
}

/// The next state and action of the hand-over.
///
/// A memory map that arrived is followed by the request to end the boot services
/// with the map's key; a memory map that could not be had ends the hand-over in
/// failure. A refused request to end the boot services is followed by a new
/// request for the memory map, whose key the firmware may have changed; an
/// accepted one completes the hand-over. An event that the state does not await,
/// and any event after the end, fails the hand-over.
pub open spec fn spec_exit_boot_services(state: ExitState, event: FirmwareEvent) -> (
    ExitState,
    FirmwareAction,
) {
    match (state, event) {
        (ExitState::AwaitMemoryMap, FirmwareEvent::MemoryMap { status, map_key }) => if status
            == EfiStatus::Success {
            (ExitState::AwaitExit { map_key }, FirmwareAction::ExitBootServices { map_key })
        } else {
            (
                ExitState::Failed,
                FirmwareAction::Fail(Error::FirmwareCallFailed(FirmwareCall::GetMemoryMap)),
            )
        },
        (ExitState::AwaitExit { map_key }, FirmwareEvent::ExitBootServices { status }) => if status
            == EfiStatus::Success {
            (ExitState::Exited, FirmwareAction::Done)
        } else {
            (ExitState::AwaitMemoryMap, FirmwareAction::GetMemoryMap)
        },
        (_, FirmwareEvent::MemoryMap { .. }) => (
            ExitState::Failed,
            FirmwareAction::Fail(Error::FirmwareCallFailed(FirmwareCall::GetMemoryMap)),
        ),
        (_, FirmwareEvent::ExitBootServices { .. }) => (
            ExitState::Failed,
            FirmwareAction::Fail(Error::FirmwareCallFailed(FirmwareCall::ExitBootServices)),
        ),
    }
}

/// Takes the firmware's answer and says how the hand-over goes on.
pub fn exit_boot_services(state: ExitState, event: FirmwareEvent) -> (next: (ExitState, FirmwareAction))
    ensures
        next == spec_exit_boot_services(state, event),
{
    match (state, event) {
        (ExitState::AwaitMemoryMap, FirmwareEvent::MemoryMap { status, map_key }) => {
            if status.is_success() {
                (ExitState::AwaitExit { map_key }, FirmwareAction::ExitBootServices { map_key })
            } else {
                (
                    ExitState::Failed,
                    FirmwareAction::Fail(Error::FirmwareCallFailed(FirmwareCall::GetMemoryMap)),
                )
            }
        },
        (ExitState::AwaitExit { map_key }, FirmwareEvent::ExitBootServices { status }) => {
            if status.is_success() {
                (ExitState::Exited, FirmwareAction::Done)
            } else {
                (ExitState::AwaitMemoryMap, FirmwareAction::GetMemoryMap)
            }
        },
        (_, FirmwareEvent::MemoryMap { .. }) => (
            ExitState::Failed,
            FirmwareAction::Fail(Error::FirmwareCallFailed(FirmwareCall::GetMemoryMap)),
        ),
        (_, FirmwareEvent::ExitBootServices { .. }) => (
            ExitState::Failed,
            FirmwareAction::Fail(Error::FirmwareCallFailed(FirmwareCall::ExitBootServices)),
        ),
    }
}

/// The name of a firmware protocol.
#[derive(Debug, Clone, Copy)]
pub struct EfiGuid {
    pub data0: u32,
    pub data1: u16,
    pub data2: u16,
    pub data3: [u8; 8],
}

impl EfiGuid {
    /// The 16 bytes of the name as the firmware reads them: the first three
    /// parts least significant byte first, the last eight bytes as they are.
    pub open spec fn spec_to_bytes(self) -> Seq<u8> {
        Seq::empty() + le_bytes(self.data0 as nat, 4) + le_bytes(self.data1 as nat, 2) + le_bytes(
            self.data2 as nat,
            2,
        ) + self.data3@
    }

    /// The 16 bytes of the name as the firmware reads them.
    pub fn to_bytes(&self) -> (bytes: Vec<u8>)
        ensures
            bytes@ == self.spec_to_bytes(),
            bytes@.len() == 16,
    {
        let mut bytes: Vec<u8> = Vec::new();
        push_u32(&mut bytes, self.data0);
        push_u16(&mut bytes, self.data1);
        push_u16(&mut bytes, self.data2);
        proof {
            lemma_le_round_trip(self.data0 as nat, 4);
            lemma_le_round_trip(self.data1 as nat, 2);
            lemma_le_round_trip(self.data2 as nat, 2);
        }
        let ghost head = bytes@;
        let mut i: usize = 0;
        while i < 8
            invariant
                i <= 8,
                head.len() == 8,
                bytes@ == head + self.data3@.subrange(0, i as int),
            decreases 8 - i,
        {
            bytes.push(self.data3[i]);
            assert(bytes@ =~= head + self.data3@.subrange(0, i + 1));
            i = i + 1;
        }
        assert(self.data3@.subrange(0, 8) =~= self.data3@);
        bytes
    }
}

/// The name of the graphics output protocol: 9042a9de-23dc-4a38-96fb-7aded080516a.
pub fn graphics_output_protocol_guid() -> (guid: EfiGuid)
    ensures
        guid.data0 == 0x9042a9de,
        guid.data1 == 0x23dc,
        guid.data2 == 0x4a38,
        guid.data3@ == seq![0x96u8, 0xfb, 0x7a, 0xde, 0xd0, 0x80, 0x51, 0x6a],
{
    let guid = EfiGuid {
        data0: 0x9042a9de,
        data1: 0x23dc,
        data2: 0x4a38,
        data3: [0x96, 0xfb, 0x7a, 0xde, 0xd0, 0x80, 0x51, 0x6a],
    };
    assert(guid.data3@ =~= seq![0x96u8, 0xfb, 0x7a, 0xde, 0xd0, 0x80, 0x51, 0x6a]);
    guid
}

/// The address that lies at `offset` of a table of the firmware, if the table reaches that far.
pub open spec fn spec_address_at(table: Seq<u8>, offset: int) -> Option<u64> {
    if offset + 8 <= table.len() {
        Some(le_value(table, offset, 8) as u64)
    } else {
        None
    }
}

/// Reads the address that lies at `offset` of a table of the firmware.
pub fn address_at(table: &[u8], offset: usize) -> (addr: Option<u64>)
    ensures
        addr == spec_address_at(table@, offset as int),
{
    let len: usize = table.len();
    if len >= 8 && offset <= len - 8 {
        Some(read_u64(table, offset))
    } else {
        None
    }
}

/// What the kernel uses of the firmware's system table: the address of the boot services' table.
#[derive(Debug, Clone, Copy, PartialEq, Eq, Structural)]
pub struct EfiSystemTable {
    pub boot_services: u64,
}

impl EfiSystemTable {
    /// Reads the system table: the pointer to the boot services' table lies at
    /// offset 96. `None` if the bytes end before it.
    pub fn from_bytes(table: &[u8]) -> (read: Option<EfiSystemTable>)
        ensures
            read == (match spec_address_at(table@, 96) {
                Some(boot_services) => Some(EfiSystemTable { boot_services }),
                None => None,
            }),
    {
        match address_at(table, 96) {
            Some(boot_services) => Some(EfiSystemTable { boot_services }),
            None => None,
        }
    }
}

/// What the kernel uses of the firmware's table of boot services: the
/// addresses of three services.
#[derive(Debug, Clone, Copy, PartialEq, Eq, Structural)]
pub struct EfiBootServicesTable {
    pub get_memory_map: u64,
    pub exit_boot_services: u64,
    pub locate_protocol: u64,
}

impl EfiBootServicesTable {
    /// The services that a table of boot services names.
    pub open spec fn spec_from_bytes(table: Seq<u8>) -> Option<EfiBootServicesTable> {
        if table.len() >= 328 {
            Some(
                EfiBootServicesTable {
                    get_memory_map: le_value(table, 56, 8) as u64,
                    exit_boot_services: le_value(table, 232, 8) as u64,
                    locate_protocol: le_value(table, 320, 8) as u64,
                },
            )
        } else {
            None
        }
    }

    /// Reads the table of boot services: the service that gives the memory
    /// map lies at offset 56, the one that ends the boot services at 232, and
    /// the one that locates a protocol at 320. `None` if the bytes end before
    /// the last of them.
    pub fn from_bytes(table: &[u8]) -> (read: Option<EfiBootServicesTable>)
        ensures
            read == Self::spec_from_bytes(table@),
    {
        if table.len() < 328 {
            return None;
        }
        Some(
            EfiBootServicesTable {
                get_memory_map: read_u64(table, 56),
                exit_boot_services: read_u64(table, 232),
                locate_protocol: read_u64(table, 320),
            },
        )
    }
}

/// The resolution of a graphics mode.
#[derive(Debug, Clone, Copy, PartialEq, Eq, Structural)]
pub struct EfiGraphicsOutputProtocolPixelInfo {
    pub version: u32,
    pub horizontal_resolution: u32,
    pub vertical_resolution: u32,
    pub pixels_per_scan_line: u32,
}

impl EfiGraphicsOutputProtocolPixelInfo {
    /// The resolution that the 36 bytes of the firmware's record tell.
    pub open spec fn spec_from_bytes(info: Seq<u8>) -> Option<EfiGraphicsOutputProtocolPixelInfo> {
        if info.len() >= 36 {
            Some(
                EfiGraphicsOutputProtocolPixelInfo {
                    version: le_value(info, 0, 4) as u32,
                    horizontal_resolution: le_value(info, 4, 4) as u32,
                    vertical_resolution: le_value(info, 8, 4) as u32,
                    pixels_per_scan_line: le_value(info, 32, 4) as u32,
                },
            )
        } else {
            None
        }
    }

    /// Reads the firmware's record of a resolution: the version, the
    /// horizontal and the vertical resolution in 4 bytes each from the start,
    /// and the pixels per scan line at offset 32. `None` if the bytes are fewer than 36.
    pub fn from_bytes(info: &[u8]) -> (read: Option<EfiGraphicsOutputProtocolPixelInfo>)
        ensures
            read == Self::spec_from_bytes(info@),
    {
        if info.len() < 36 {
            return None;
        }
        Some(
            EfiGraphicsOutputProtocolPixelInfo {
                version: read_u32(info, 0),
                horizontal_resolution: read_u32(info, 4),
                vertical_resolution: read_u32(info, 8),
                pixels_per_scan_line: read_u32(info, 32),
            },
        )
    }
}

/// The graphics mode that is set, and where its frame buffer lies.
#[derive(Debug, Clone, Copy, PartialEq, Eq, Structural)]
pub struct EfiGraphicsOutputProtocolMode {
    pub max_mode: u32,
    pub mode: u32,
    pub info: EfiGraphicsOutputProtocolPixelInfo,
    pub size_of_info: u64,
    pub frame_buffer_base: usize,
    pub frame_buffer_size: usize,
}

impl EfiGraphicsOutputProtocolMode {
    /// The mode that the 40 bytes of the firmware's record tell, together
    /// with the record of the resolution that it points to.
    pub open spec fn spec_from_bytes(mode: Seq<u8>, info: Seq<u8>) -> Option<EfiGraphicsOutputProtocolMode> {
        match EfiGraphicsOutputProtocolPixelInfo::spec_from_bytes(info) {
            Some(pixel_info) => if mode.len() >= 40 {
                Some(
                    EfiGraphicsOutputProtocolMode {
                        max_mode: le_value(mode, 0, 4) as u32,
                        mode: le_value(mode, 4, 4) as u32,
                        info: pixel_info,
                        size_of_info: le_value(mode, 16, 8) as u64,
                        frame_buffer_base: le_value(mode, 24, 8) as usize,
                        frame_buffer_size: le_value(mode, 32, 8) as usize,
                    },
                )
            } else {
                None
            },
            None => None,
        }
    }

    /// Where the record of the resolution lies: the pointer at offset 8 of the mode's record.
    pub fn info_address(mode: &[u8]) -> (addr: Option<u64>)
        ensures
            addr == spec_address_at(mode@, 8),
    {
        address_at(mode, 8)
    }

    /// Reads the firmware's record of the mode: the number of modes and the
    /// mode that is set in 4 bytes each, the pointer to the resolution, the
    /// size of that record, and the address and the size of the frame buffer
    /// in 8 bytes each. `None` if one of the records is too short.
    pub fn from_bytes(mode: &[u8], info: &[u8]) -> (read: Option<EfiGraphicsOutputProtocolMode>)
        ensures
            read == Self::spec_from_bytes(mode@, info@),
    {
        let pixel_info = match EfiGraphicsOutputProtocolPixelInfo::from_bytes(info) {
            Some(pixel_info) => pixel_info,
            None => {
                return None;
            },
        };
        if mode.len() < 40 {
            return None;
        }
        Some(
            EfiGraphicsOutputProtocolMode {
                max_mode: read_u32(mode, 0),
                mode: read_u32(mode, 4),
                info: pixel_info,
                size_of_info: read_u64(mode, 16),
                frame_buffer_base: read_u64(mode, 24) as usize,
                frame_buffer_size: read_u64(mode, 32) as usize,
            },
        )
    }
}

/// What the firmware's graphics output protocol tells.
#[derive(Debug, Clone, Copy, PartialEq, Eq, Structural)]
pub struct EfiGraphicsOutputProtocol {
    pub mode: EfiGraphicsOutputProtocolMode,
}

impl EfiGraphicsOutputProtocol {
    /// Where the record of the mode lies: the pointer at offset 24 of the protocol.
    pub fn mode_address(protocol: &[u8]) -> (addr: Option<u64>)
        ensures
            addr == spec_address_at(protocol@, 24),
    {
        address_at(protocol, 24)
    }
}

/// The frame buffer: where it lies, its visible size, and the number of pixels
/// from one line to the next. A pixel has 4 bytes.
#[derive(Debug, Clone, Copy, PartialEq, Eq, Structural)]
pub struct VramBufferInfo {
    pub buf: usize,
    pub width: i64,
    pub height: i64,
    pub pixels_per_line: i64,
}

impl VramBufferInfo {
    /// The invariant: width, height and line length are those of a graphics
    /// mode, not negative and below 2^32.
    pub open spec fn wf(&self) -> bool {
        &&& 0 <= self.width <= u32::MAX
        &&& 0 <= self.height <= u32::MAX
        &&& 0 <= self.pixels_per_line <= u32::MAX
    }

    /// The size of a pixel in bytes.
    pub fn bytes_per_pixel(&self) -> (n: i64)
        ensures
            n == 4,
    {
        4
    }

    /// The number of pixels from one line to the next.
    pub fn pixels_per_line(&self) -> (n: i64)
        ensures
            n == self.pixels_per_line,
    {
        self.pixels_per_line
    }

    /// The number of visible pixels of a line.
    pub fn width(&self) -> (n: i64)
        ensures
            n == self.width,
    {
        self.width
    }

    /// The number of visible lines.
    pub fn height(&self) -> (n: i64)
        ensures
            n == self.height,
    {
        self.height
    }

    /// The address of the first pixel.
    pub fn buf_mut(&self) -> (addr: usize)
        ensures
            addr == self.buf,
    {
        self.buf
    }

    /// Whether the pixel at `(x, y)` may be written: it lies on a line that is
    /// visible, before the end of what is visible of the line and of the line itself.
    pub open spec fn in_range(&self, x: i64, y: i64) -> bool {
        &&& 0 <= x < self.width
        &&& x < self.pixels_per_line
        &&& 0 <= y < self.height
    }

    /// The number of the pixel at `(x, y)`, counted from the first pixel of the
    /// frame buffer; `OutOfRange` if the pixel may not be written.
    pub fn pixel_index(&self, x: i64, y: i64) -> (index: Result<u64, Error>)
        requires
            self.wf(),
        ensures
            index == (if self.in_range(x, y) {
                Ok::<u64, Error>((y * self.pixels_per_line + x) as u64)
            } else {
                Err::<u64, Error>(Error::OutOfRange)
            }),
            index matches Ok(i) ==> i < self.pixels_per_line * self.height,
    {
        if x < 0 || x >= self.width || x >= self.pixels_per_line || y < 0 || y >= self.height {
            return Err(Error::OutOfRange);
        }
        let line: u64 = y as u64;
        let stride: u64 = self.pixels_per_line as u64;
        assert(line * stride <= 0xFFFF_FFFF * 0xFFFF_FFFF) by (nonlinear_arith)
            requires
                line <= 0xFFFF_FFFF,
                stride <= 0xFFFF_FFFF,
        ;
        assert(line * stride + x < stride * self.height) by (nonlinear_arith)
            requires
                0 <= x < stride,
                0 <= line < self.height,
        ;
        Ok(line * stride + x as u64)
    }
}

/// What the located graphics output protocol gives for a frame buffer.
pub open spec fn spec_init_vram(located: Result<EfiGraphicsOutputProtocol, EfiStatus>) -> Result<
    VramBufferInfo,
    Error,
> {
    match located {
        Ok(gp) => Ok(
            VramBufferInfo {
                buf: gp.mode.frame_buffer_base,
                width: gp.mode.info.horizontal_resolution as i64,
                height: gp.mode.info.vertical_resolution as i64,
                pixels_per_line: gp.mode.info.pixels_per_scan_line as i64,
            },
        ),
        Err(_) => Err(Error::FirmwareCallFailed(FirmwareCall::LocateProtocol)),
    }
}

/// Describes the frame buffer of the graphics mode that is set: its address,
/// the resolution as width and height, and the pixels per scan line. Fails
/// with `FirmwareCallFailed` if the firmware did not find the graphics output protocol.
pub fn init_vram(located: Result<EfiGraphicsOutputProtocol, EfiStatus>) -> (vram: Result<
    VramBufferInfo,
    Error,
>)
    ensures
        vram == spec_init_vram(located),
        vram matches Ok(v) ==> v.wf(),
{
    match located {
        Ok(gp) => Ok(
            VramBufferInfo {
                buf: gp.mode.frame_buffer_base,
                width: gp.mode.info.horizontal_resolution as i64,
                height: gp.mode.info.vertical_resolution as i64,
                pixels_per_line: gp.mode.info.pixels_per_scan_line as i64,
            },
        ),
        Err(_) => Err(Error::FirmwareCallFailed(FirmwareCall::LocateProtocol)),
    }
}

/// Width of a glyph in pixels.
pub const GLYPH_WIDTH: i64 = 8;

/// Height of a glyph, and of a line of text, in pixels.
pub const GLYPH_HEIGHT: i64 = 16;

/// The colour of text.
pub const TEXT_COLOR: u32 = 0xffffff;

/// A glyph to draw: its character, the position of its top left corner, and its colour.
#[derive(Debug, Clone, Copy, PartialEq, Eq, Structural)]
pub struct Glyph {
    pub x: i64,
    pub y: i64,
    pub color: u32,
    pub ch: char,
}

/// The cursor of a text writer: where the next glyph goes.
#[derive(Debug, Clone, Copy, PartialEq, Eq, Structural)]
pub struct Cursor {
    pub x: i64,
    pub y: i64,
}

/// The cursor after the first `n` characters of `text`: a line feed takes it to
/// the start of the next line, any other character one glyph to the right.
pub open spec fn cursor_after(start: Cursor, text: Seq<char>, n: nat) -> (int, int)
    decreases n,
{
    if n == 0 {
        (start.x as int, start.y as int)
    } else {
        let before = cursor_after(start, text, (n - 1) as nat);
        if text[n - 1] == '\n' {
            (0, before.1 + GLYPH_HEIGHT)
        } else {
            (before.0 + GLYPH_WIDTH, before.1)
        }
    }
}

/// The glyphs that the first `n` characters of `text` draw: one for each
/// character but the line feeds, at the position of the cursor before it.
pub open spec fn glyphs_of(start: Cursor, text: Seq<char>, n: nat) -> Seq<Glyph>
    decreases n,
{
    if n == 0 {
        Seq::empty()
    } else {
        let drawn = glyphs_of(start, text, (n - 1) as nat);
        let before = cursor_after(start, text, (n - 1) as nat);
        if text[n - 1] == '\n' {
            drawn
        } else {
            drawn.push(Glyph { x: before.0 as i64, y: before.1 as i64, color: TEXT_COLOR, ch: text[n - 1] })
        }
    }
}

/// The cursor moves right by at most one glyph and down by at most one line for each character.
pub proof fn lemma_cursor_bound(start: Cursor, text: Seq<char>, n: nat)
    requires
        0 <= start.x,
        0 <= start.y,
    ensures
        0 <= cursor_after(start, text, n).0 <= start.x + GLYPH_WIDTH * n,
        0 <= cursor_after(start, text, n).1 <= start.y + GLYPH_HEIGHT * n,
    decreases n,
{
    if n > 0 {
        lemma_cursor_bound(start, text, (n - 1) as nat);
    }
}

/// A writer of text onto the frame buffer. It keeps the cursor and says which
/// glyphs to draw; it does not scroll.
pub struct VramTextWriter {
    vram: VramBufferInfo,
    cursor_x: i64,
    cursor_y: i64,
}

impl VramTextWriter {
    /// The frame buffer that the writer writes to.
    pub closed spec fn vram(&self) -> VramBufferInfo {
        self.vram
    }

    /// Where the next glyph goes.
    pub closed spec fn cursor(&self) -> Cursor {
        Cursor { x: self.cursor_x, y: self.cursor_y }
    }

    /// A writer for the frame buffer, with the cursor in the top left corner.
    pub fn new(vram: &VramBufferInfo) -> (writer: VramTextWriter)
        ensures
            writer.vram() == *vram,
            writer.cursor() == (Cursor { x: 0, y: 0 }),
    {
        VramTextWriter { vram: *vram, cursor_x: 0, cursor_y: 0 }
    }

    /// Where the next glyph goes.
    pub fn position(&self) -> (at: Cursor)
        ensures
            at == self.cursor(),
    {
        Cursor { x: self.cursor_x, y: self.cursor_y }
    }

    /// Writes `s`: returns the glyphs to draw, in order, and moves the cursor past them.
    pub fn write_str(&mut self, s: &str) -> (glyphs: Vec<Glyph>)
        requires
            0 <= old(self).cursor().x,
            0 <= old(self).cursor().y,
            old(self).cursor().x + GLYPH_WIDTH * s@.len() <= i64::MAX,
            old(self).cursor().y + GLYPH_HEIGHT * s@.len() <= i64::MAX,
        ensures
            final(self).vram() == old(self).vram(),
            glyphs@ == glyphs_of(old(self).cursor(), s@, s@.len()),
            final(self).cursor().x == cursor_after(old(self).cursor(), s@, s@.len()).0,
            final(self).cursor().y == cursor_after(old(self).cursor(), s@, s@.len()).1,
            0 <= final(self).cursor().x,
            0 <= final(self).cursor().y,
    {
        let ghost start = self.cursor();
        let mut glyphs: Vec<Glyph> = Vec::new();
        for c in it: s.chars()
            invariant
                start == old(self).cursor(),
                0 <= start.x,
                0 <= start.y,
                start.x + GLYPH_WIDTH * s@.len() <= i64::MAX,
                start.y + GLYPH_HEIGHT * s@.len() <= i64::MAX,
                it.seq() == s@,
                self.vram() == old(self).vram(),
                glyphs@ == glyphs_of(start, s@, it.index() as nat),
                self.cursor().x == cursor_after(start, s@, it.index() as nat).0,
                self.cursor().y == cursor_after(start, s@, it.index() as nat).1,
        {
            proof {
                lemma_cursor_bound(start, s@, it.index() as nat);
                lemma_cursor_bound(start, s@, (it.index() + 1) as nat);
            }
            if c == '\n' {
                self.cursor_x = 0;
                self.cursor_y = self.cursor_y + GLYPH_HEIGHT;
            } else {
                glyphs.push(Glyph { x: self.cursor_x, y: self.cursor_y, color: TEXT_COLOR, ch: c });
                self.cursor_x = self.cursor_x + GLYPH_WIDTH;
            }
        }
        proof {
            lemma_cursor_bound(start, s@, s@.len());
        }
        glyphs
    }
}

} // verus!
