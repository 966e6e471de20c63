//! Four-level paging: entries, tables, and the mapping of address ranges.
//!
//! A hierarchy is a tree that its root owns. A table has 512 entries; an entry
//! is a 64-bit word whose low twelve bits are attributes and whose bits 12 to 51
//! are the physical frame of the next table or of the mapped page. Tables below
//! the root come from the heap when a mapping first needs them.

use vstd::prelude::*;
use vstd::string::StringExecFns;
use crate::allocator::{Allocator, HeapModel};
use crate::error::Error;
use crate::text::{hex_prefixed, push_hex_prefixed, dec_digits, pad_left, push_dec_right};

verus! {

/// Size of a page, and of a table, in bytes.
pub const PAGE_SIZE: usize = 4096;

/// Number of entries of a table.
pub const TABLE_ENTRIES: usize = 512;

/// Bits 0 to 11 of an entry: the attributes.
pub const ATTR_MASK: u64 = 0xFFF;

/// Bits 12 to 51 of an entry: the physical frame.
pub const FRAME_MASK: u64 = 0x000F_FFFF_FFFF_F000;

/// The entry names a table or a page.
pub const ATTR_PRESENT: u64 = 0x1;

/// What the entry names may be written.
pub const ATTR_WRITABLE: u64 = 0x2;

/// What the entry names may be used from user mode.
pub const ATTR_USER: u64 = 0x4;

/// Writes go through the cache to memory at once.
pub const ATTR_WRITE_THROUGH: u64 = 0x8;

/// What the entry names is not cached.
pub const ATTR_CACHE_DISABLE: u64 = 0x10;

/// The attribute presets of a mapping.
#[derive(Debug, Clone, Copy, PartialEq, Eq, Structural)]
pub enum PageAttr {
    NotPresent,
    ReadWriteKernel,
    ReadWriteIo,
}

impl PageAttr {
    /// The attribute bits of the preset.
    pub open spec fn spec_bits(self) -> u64 {
        match self {
            PageAttr::NotPresent => 0,
            PageAttr::ReadWriteKernel => 0x3,
            PageAttr::ReadWriteIo => 0x1b,
        }
    }

    /// The attribute bits of the preset.
    #[verifier::when_used_as_spec(spec_bits)]
    pub fn bits(self) -> (b: u64)
        ensures
            b == self.spec_bits(),
            b == match self {
                PageAttr::NotPresent => 0,
                PageAttr::ReadWriteKernel => ATTR_PRESENT | ATTR_WRITABLE,
                PageAttr::ReadWriteIo => ATTR_PRESENT | ATTR_WRITABLE | ATTR_WRITE_THROUGH
                    | ATTR_CACHE_DISABLE,
            },
    {
        assert(0x3u64 == 0x1u64 | 0x2u64 && 0x1bu64 == 0x1u64 | 0x2u64 | 0x8u64 | 0x10u64) by (bit_vector);
        match self {
            PageAttr::NotPresent => 0,
            PageAttr::ReadWriteKernel => 0x3,
            PageAttr::ReadWriteIo => 0x1b,
        }
    }
}

/// What a virtual address translates to.
#[derive(Debug, PartialEq, Eq, Structural)]
pub enum TranslationResult {
    PageMapped4K { phys: u64 },
    PageMapped2M { phys: u64 },
    PageMapped1G { phys: u64 },
}

/// Whether the present bit of an entry is set.
pub open spec fn present(value: u64) -> bool {
    value & ATTR_PRESENT != 0
}

/// Whether the writable bit of an entry is set.
pub open spec fn writable(value: u64) -> bool {
    value & ATTR_WRITABLE != 0
}

/// Whether the user bit of an entry is set.
pub open spec fn user(value: u64) -> bool {
    value & ATTR_USER != 0
}

/// The physical frame that an entry names.
pub open spec fn frame_of(value: u64) -> u64 {
    value & FRAME_MASK
}

/// The attribute bits of an entry.
pub open spec fn attrs_of(value: u64) -> u64 {
    value & ATTR_MASK
}

/// The position of an address's index for a table of the given level.
pub open spec fn level_shift(level: usize) -> u64 {
    ((level - 1) * 9 + 12) as u64
}

/// The index that an address selects in a table of the given level.
pub open spec fn table_index(level: usize, addr: u64) -> int {
    ((addr >> level_shift(level)) & 0x1ff) as int
}

/// The address of entry `i` of a table at `addr`, wrapping at the end of the address space.
pub open spec fn entry_addr(addr: u64, i: int) -> u64 {
    if addr + 8 * i > u64::MAX {
        (addr + 8 * i - 0x1_0000_0000_0000_0000) as u64
    } else {
        (addr + 8 * i) as u64
    }
}

/// The mathematical value of an entry: its word, and the structure below it if it owns one.
pub struct EntryView<NV> {
    pub value: u64,
    pub next: Option<NV>,
}

/// What the entry of a missing table looks like: all bits clear, nothing below.
pub open spec fn clear_entry<NV>() -> EntryView<NV> {
    EntryView { value: 0, next: None }
}

/// The outcome of mapping one page into a structure: the result, the structure
/// and the heap after it.
pub type Mapped<V> = (Result<(), Error>, V, HeapModel);

/// What mapping a page through entry `index` of a table yields. A present entry
/// is descended; a missing one first gets a cleared structure from the heap, and
/// the mapping fails with `OutOfMemory`, leaving all as it was, if the heap has none.
pub open spec fn map_through<NV>(
    table: Seq<EntryView<NV>>,
    heap: HeapModel,
    index: int,
    fresh: NV,
    below: spec_fn(NV, HeapModel) -> Mapped<NV>,
) -> Mapped<Seq<EntryView<NV>>> {
    let e = table[index];
    if present(e.value) && e.next is Some {
        let m = below(e.next->0, heap);
        (m.0, table.update(index, EntryView { value: e.value, next: Some(m.1) }), m.2)
    } else {
        match heap.allocate(PAGE_SIZE, PAGE_SIZE).0 {
            Ok(addr) => {
                let m = below(fresh, heap.allocate(PAGE_SIZE, PAGE_SIZE).1);
                (
                    m.0,
                    table.update(
                        index,
                        EntryView { value: addr | PageAttr::ReadWriteKernel.spec_bits(), next: Some(m.1) },
                    ),
                    m.2,
                )
            },
            Err(_) => (Err(Error::OutOfMemory), table, heap),
        }
    }
}

/// The last-level entry that maps `page` at `phys` with `attr`: the word
/// `phys | attr`, above the page exactly if the word is present.
pub open spec fn leaf_entry_of<NV>(phys: u64, attr: PageAttr, page: NV) -> EntryView<NV> {
    EntryView {
        value: phys | attr.spec_bits(),
        next: if present(phys | attr.spec_bits()) {
            Some(page)
        } else {
            None
        },
    }
}

/// What setting entry `index` of a last-level table to `phys | attr` yields:
/// `Misaligned`, and the table as it was, unless `phys` is a multiple of the page size.
pub open spec fn map_leaf<NV>(
    table: Seq<EntryView<NV>>,
    heap: HeapModel,
    index: int,
    phys: u64,
    attr: PageAttr,
    page: NV,
) -> Mapped<Seq<EntryView<NV>>> {
    if phys & ATTR_MASK != 0 {
        (Err(Error::Misaligned), table, heap)
    } else {
        (Ok(()), table.update(index, leaf_entry_of(phys, attr, page)), heap)
    }
}

/// The word that a walk acts on: the entry it reached, or a cleared entry where a table is missing.
pub open spec fn word_of(leaf: Option<u64>) -> u64 {
    match leaf {
        Some(word) => word,
        None => 0,
    }
}

/// An index into a table is below the number of its entries.
pub proof fn lemma_table_index_bound(level: usize, addr: u64)
    ensures
        0 <= table_index(level, addr) < TABLE_ENTRIES,
{
    let shift = level_shift(level);
    assert((addr >> shift) & 0x1ff < 512) by (bit_vector);
}

/// A structure of the paging hierarchy: a table of some level, or a mapped page.
pub trait PageStructure: Sized + View {
    /// The level of the structure: 0 for a page, 1 to 4 for a table.
    spec fn level() -> nat;

    /// Whether the type stands for a structure of the hierarchy: a page, or a table
    /// of a level from 1 to 4 above a structure of the level below.
    spec fn level_ok() -> bool;

    /// Whether two addresses select the same entry at this level and at every level below.
    spec fn same_slot(a: u64, b: u64) -> bool;

    /// The invariant of the structure.
    spec fn wf(v: Self::V) -> bool;

    /// The structure with all bits clear.
    spec fn zeroed_view() -> Self::V;

    /// What mapping the page of `virt` to `phys` with `attr` below this structure yields.
    spec fn spec_map(v: Self::V, heap: HeapModel, virt: u64, phys: u64, attr: PageAttr) -> Mapped<
        Self::V,
    >;

    /// The last-level entry that the walk from `virt` reaches below this structure, if it reaches one.
    spec fn spec_leaf(v: Self::V, virt: u64) -> Option<u64>;

    /// The cleared structure is well formed, and maps nothing.
    proof fn lemma_zeroed_wf()
        requires
            Self::level_ok(),
        ensures
            Self::wf(Self::zeroed_view()),
            forall|virt: u64| word_of(#[trigger] Self::spec_leaf(Self::zeroed_view(), virt)) == 0,
    ;

    /// The walk from two addresses of the same slot reaches the same entry.
    proof fn lemma_leaf_by_slot(v: Self::V, a: u64, b: u64)
        requires
            Self::same_slot(a, b),
        ensures
            Self::spec_leaf(v, a) == Self::spec_leaf(v, b),
    ;

    /// Mapping a page keeps the structure and the heap well formed. It fails only
    /// for want of memory or for a misaligned `phys`. Where it succeeds, the walk
    /// from every address of the same slot reaches the word `phys | attr`. Whether
    /// it succeeds or not, the walk from an address of another slot reaches what it
    /// reached before, a missing table counting as a cleared entry; and where it
    /// fails, so does the walk from every address. A walk that reached an entry
    /// before still reaches one.
    proof fn lemma_map_page(v: Self::V, heap: HeapModel, virt: u64, phys: u64, attr: PageAttr, other: u64)
        requires
            Self::wf(v),
            heap.wf(),
        ensures
            ({
                let m = Self::spec_map(v, heap, virt, phys, attr);
                &&& Self::wf(m.1)
                &&& m.2.wf()
                &&& m.0 matches Err(e) ==> e == Error::OutOfMemory || (e == Error::Misaligned && phys
                    & ATTR_MASK != 0)
                &&& m.0 is Err || !Self::same_slot(virt, other) ==> word_of(Self::spec_leaf(m.1, other))
                    == word_of(Self::spec_leaf(v, other))
                &&& Self::spec_leaf(v, other) is Some ==> Self::spec_leaf(m.1, other) is Some
                &&& Self::level() >= 1 && m.0 is Ok ==> phys & ATTR_MASK == 0
                &&& Self::level() >= 1 && m.0 is Ok && Self::same_slot(virt, other) ==> Self::spec_leaf(
                    m.1,
                    other,
                ) == Some(phys | attr.spec_bits())
            }),
    ;

    /// A structure with all bits clear.
    fn zeroed() -> (r: Self)
        ensures
            r@ == Self::zeroed_view(),
    ;

    /// Maps the page of `virt` to `phys` with `attr` below this structure.
    fn map_page(&mut self, heap: &mut Allocator, virt: u64, phys: u64, attr: PageAttr) -> (r: Result<
        (),
        Error,
    >)
        requires
            Self::wf(old(self)@),
            old(heap).wf(),
        ensures
            Self::wf(final(self)@),
            final(heap).wf(),
            r == Self::spec_map(old(self)@, old(heap)@, virt, phys, attr).0,
            final(self)@ == Self::spec_map(old(self)@, old(heap)@, virt, phys, attr).1,
            final(heap)@ == Self::spec_map(old(self)@, old(heap)@, virt, phys, attr).2,
    ;

    /// The last-level entry that the walk from `virt` reaches below this structure.
    fn leaf(&self, virt: u64) -> (word: Option<u64>)
        requires
            Self::wf(self@),
        ensures
            word == Self::spec_leaf(self@, virt),
    ;
}

/// A mapped page: what a present last-level entry stands above. It stands for
/// the page's memory, which the hierarchy names but does not hold.
pub struct Page {}

impl View for Page {
    type V = ();

    open spec fn view(&self) -> () {
        ()
    }
}

impl PageStructure for Page {
    open spec fn level() -> nat {
        0
    }

    open spec fn level_ok() -> bool {
        true
    }

    open spec fn same_slot(a: u64, b: u64) -> bool {
        true
    }

    open spec fn wf(v: ()) -> bool {
        true
    }

    open spec fn zeroed_view() -> () {
        ()
    }

    open spec fn spec_map(v: (), heap: HeapModel, virt: u64, phys: u64, attr: PageAttr) -> Mapped<()> {
        (Ok(()), (), heap)
    }

    open spec fn spec_leaf(v: (), virt: u64) -> Option<u64> {
        None
    }

    proof fn lemma_zeroed_wf() {
    }

    proof fn lemma_leaf_by_slot(v: (), a: u64, b: u64) {
    }

    proof fn lemma_map_page(v: (), heap: HeapModel, virt: u64, phys: u64, attr: PageAttr, other: u64) {
    }

    fn zeroed() -> (r: Self) {
        Page {  }
    }

    fn map_page(&mut self, heap: &mut Allocator, virt: u64, phys: u64, attr: PageAttr) -> (r: Result<
        (),
        Error,
    >) {
        Ok(())
    }

    fn leaf(&self, virt: u64) -> (word: Option<u64>) {
        None
    }
}

/// An entry of a table of level `LEVEL`, above structures of type `NEXT`.
pub struct Entry<const LEVEL: usize, NEXT> {
    value: u64,
    next: Option<Box<NEXT>>,
}

/// A table of level `LEVEL`, above structures of type `NEXT`.
pub struct Table<const LEVEL: usize, NEXT> {
    entry: [Entry<LEVEL, NEXT>; TABLE_ENTRIES],
}

impl<const LEVEL: usize, NEXT: View> View for Entry<LEVEL, NEXT> {
    type V = EntryView<NEXT::V>;

    closed spec fn view(&self) -> EntryView<NEXT::V> {
        EntryView {
            value: self.value,
            next: match self.next {
                Some(b) => Some(b@),
                None => None,
            },
        }
    }
}

impl<const LEVEL: usize, NEXT: View> View for Table<LEVEL, NEXT> {
    type V = Seq<EntryView<NEXT::V>>;

    closed spec fn view(&self) -> Seq<EntryView<NEXT::V>> {
        Seq::new(self.entry@.len(), |i: int| self.entry@[i]@)
    }
}

/// The invariant of one entry of a table of the given level: it is present
/// exactly if it has a structure below it, which is well formed; and an entry
/// above the last level that names a table carries the attributes of kernel memory.
pub open spec fn entry_wf<NEXT: PageStructure>(level: usize, e: EntryView<NEXT::V>) -> bool {
    &&& present(e.value) <==> e.next is Some
    &&& level != 1 && present(e.value) ==> attrs_of(e.value) == PageAttr::ReadWriteKernel.spec_bits()
    &&& e.next matches Some(below) ==> NEXT::wf(below)
}

/// `core::array::from_fn` makes an array whose element at each index is what
/// the closure returns for that index: here an entry with all bits clear.
#[verifier::external_body]
fn cleared_entries<const LEVEL: usize, NEXT: PageStructure>() -> (entries: [Entry<LEVEL, NEXT>; TABLE_ENTRIES])
    ensures
        forall|i: int| 0 <= i < TABLE_ENTRIES ==> (#[trigger] entries@[i])@ == clear_entry::<NEXT::V>(),
{
    core::array::from_fn(|_index: usize| Entry::cleared())
}

impl<const LEVEL: usize, NEXT: PageStructure> Entry<LEVEL, NEXT> {
    /// An entry with all bits clear and nothing below it.
    fn cleared() -> (e: Self)
        ensures
            e@ == clear_entry::<NEXT::V>(),
    {
        Entry { value: 0, next: None }
    }

    /// The entry's word.
    pub fn read_value(&self) -> (v: u64)
        ensures
            v == self@.value,
    {
        self.value
    }

    /// Whether the entry names a table or a page.
    pub fn is_present(&self) -> (r: bool)
        ensures
            r == present(self@.value),
    {
        (self.read_value() & ATTR_PRESENT) != 0
    }

    /// Whether what the entry names may be written.
    pub fn is_writable(&self) -> (r: bool)
        ensures
            r == writable(self@.value),
    {
        (self.read_value() & ATTR_WRITABLE) != 0
    }

    /// Whether what the entry names may be used from user mode.
    pub fn is_user(&self) -> (r: bool)
        ensures
            r == user(self@.value),
    {
        (self.read_value() & ATTR_USER) != 0
    }

    /// The text of the entry, as it stands at address `addr`.
    pub open spec fn spec_format(v: EntryView<NEXT::V>, addr: u64) -> Seq<char> {
        seq!['L'] + dec_digits(LEVEL as nat) + "Entry @ "@ + hex_prefixed(addr as nat, 16, false)
            + " { "@ + hex_prefixed(v.value as nat, 16, true) + " "@ + (if present(v.value) {
            "P"@
        } else {
            "N"@
        }) + (if writable(v.value) {
            "W"@
        } else {
            "R"@
        }) + (if user(v.value) {
            "U"@
        } else {
            "S"@
        }) + " "@ + " }"@
    }

    /// The text of the entry, as it stands at address `addr`: level, address, word, and
    /// one letter each for present or not, writable or read-only, user or supervisor.
    pub fn format(&self, addr: u64) -> (text: String)
        ensures
            text@ == Self::spec_format(self@, addr),
    {
        let mut text = String::new();
        text.push('L');
        push_dec_right(&mut text, LEVEL as u64, 0);
        text.append("Entry @ ");
        push_hex_prefixed(&mut text, addr, 16, false);
        text.append(" { ");
        push_hex_prefixed(&mut text, self.read_value(), 16, true);
        text.append(" ");
        text.append(if self.is_present() { "P" } else { "N" });
        text.append(if self.is_writable() { "W" } else { "R" });
        text.append(if self.is_user() { "U" } else { "S" });
        text.append(" ");
        text.append(" }");
        assert(text@ =~= Self::spec_format(self@, addr));
        text
    }

    /// The structure below the entry; `OutOfRange` if the entry is not present.
    fn table(&self) -> (r: Result<&NEXT, Error>)
        ensures
            match r {
                Ok(t) => present(self@.value) && self@.next == Some(t@),
                Err(e) => e == Error::OutOfRange && !(present(self@.value) && self@.next is Some),
            },
    {
        if self.is_present() {
            match &self.next {
                Some(b) => Ok(&**b),
                None => Err(Error::OutOfRange),
            }
        } else {
            Err(Error::OutOfRange)
        }
    }

    /// The structure below the entry, to change it; `OutOfRange` if the entry is not present.
    fn table_mut(&mut self) -> (r: Result<&mut NEXT, Error>)
        ensures
            match r {
                Ok(t) => {
                    &&& present(old(self)@.value)
                    &&& old(self)@.next == Some(t@)
                    &&& final(self)@ == (EntryView { value: old(self)@.value, next: Some(final(t)@) })
                },
                Err(e) => {
                    &&& e == Error::OutOfRange
                    &&& !(present(old(self)@.value) && old(self)@.next is Some)
                    &&& final(self)@ == old(self)@
                },
            },
    {
        if self.is_present() {
            match &mut self.next {
                Some(b) => Ok(&mut **b),
                None => Err(Error::OutOfRange),
            }
        } else {
            Err(Error::OutOfRange)
        }
    }

    /// Makes the entry name the page at `phys` with `attr`, and stand above that
    /// page if it is present; `Misaligned`, and the entry as it was, unless
    /// `phys` is a multiple of the page size.
    fn set_page(&mut self, phys: u64, attr: PageAttr) -> (r: Result<(), Error>)
        ensures
            r == (if phys & ATTR_MASK == 0 {
                Ok::<(), Error>(())
            } else {
                Err::<(), Error>(Error::Misaligned)
            }),
            r is Err ==> final(self)@ == old(self)@,
            r is Ok ==> final(self)@ == leaf_entry_of(phys, attr, NEXT::zeroed_view()),
    {
        if phys & ATTR_MASK != 0 {
            Err(Error::Misaligned)
        } else {
            let value: u64 = phys | attr.bits();
            self.value = value;
            if value & ATTR_PRESENT != 0 {
                self.next = Some(Box::new(NEXT::zeroed()));
            } else {
                self.next = None;
            }
            Ok(())
        }
    }

    /// Gives a missing entry a cleared structure from the heap; `OutOfRange` if
    /// the entry is present already, `OutOfMemory` if the heap has no room.
    fn populate(&mut self, heap: &mut Allocator) -> (r: Result<(), Error>)
        requires
            old(heap).wf(),
        ensures
            final(heap).wf(),
            present(old(self)@.value) ==> r == Err::<(), Error>(Error::OutOfRange) && final(self)@ == old(
                self,
            )@ && final(heap)@ == old(heap)@,
            !present(old(self)@.value) ==> match old(heap)@.allocate(PAGE_SIZE, PAGE_SIZE).0 {
                Ok(addr) => {
                    &&& r == Ok::<(), Error>(())
                    &&& final(self)@ == (EntryView {
                        value: addr | PageAttr::ReadWriteKernel.spec_bits(),
                        next: Some(NEXT::zeroed_view()),
                    })
                    &&& final(heap)@ == old(heap)@.allocate(PAGE_SIZE, PAGE_SIZE).1
                    &&& present(final(self)@.value)
                    &&& attrs_of(final(self)@.value) == PageAttr::ReadWriteKernel.spec_bits()
                },
                Err(_) => {
                    &&& r == Err::<(), Error>(Error::OutOfMemory)
                    &&& final(self)@ == old(self)@
                    &&& final(heap)@ == old(heap)@
                },
            },
    {
        if self.is_present() {
            Err(Error::OutOfRange)
        } else {
            match heap.alloc_with_options(PAGE_SIZE, PAGE_SIZE) {
                Ok(addr) => {
                    assert(addr & 0xFFF == 0 && (addr | 3) & 1 != 0 && (addr | 3) & 0xFFF == 3)
                        by (bit_vector)
                        requires
                            addr % 4096 == 0,
                    ;
                    self.value = addr | PageAttr::ReadWriteKernel.bits();
                    self.next = Some(Box::new(NEXT::zeroed()));
                    Ok(())
                },
                Err(_) => Err(Error::OutOfMemory),
            }
        }
    }

    /// Gives the entry a cleared structure from the heap unless it is present;
    /// `OutOfMemory` if the heap has no room.
    fn ensure_populated(&mut self, heap: &mut Allocator) -> (r: Result<(), Error>)
        requires
            old(heap).wf(),
        ensures
            final(heap).wf(),
            present(old(self)@.value) ==> r == Ok::<(), Error>(()) && final(self)@ == old(self)@
                && final(heap)@ == old(heap)@,
            !present(old(self)@.value) ==> match old(heap)@.allocate(PAGE_SIZE, PAGE_SIZE).0 {
                Ok(addr) => {
                    &&& r == Ok::<(), Error>(())
                    &&& final(self)@ == (EntryView {
                        value: addr | PageAttr::ReadWriteKernel.spec_bits(),
                        next: Some(NEXT::zeroed_view()),
                    })
                    &&& final(heap)@ == old(heap)@.allocate(PAGE_SIZE, PAGE_SIZE).1
                    &&& present(final(self)@.value)
                    &&& attrs_of(final(self)@.value) == PageAttr::ReadWriteKernel.spec_bits()
                },
                Err(_) => {
                    &&& r == Err::<(), Error>(Error::OutOfMemory)
                    &&& final(self)@ == old(self)@
                    &&& final(heap)@ == old(heap)@
                },
            },
    {
        if self.is_present() {
            Ok(())
        } else {
            self.populate(heap)
        }
    }
}

impl<const LEVEL: usize, NEXT: PageStructure> Table<LEVEL, NEXT> {
    /// The position of an address's index for this table.
    pub fn index_shift() -> (shift: usize)
        requires
            1 <= LEVEL <= 4,
        ensures
            shift == level_shift(LEVEL),
            shift < 64,
    {
        (LEVEL - 1) * 9 + 12
    }

    /// The index that `addr` selects in this table.
    pub fn calc_index(&self, addr: u64) -> (index: usize)
        requires
            1 <= LEVEL <= 4,
        ensures
            index == table_index(LEVEL, addr),
            index < TABLE_ENTRIES,
    {
        let shift: u64 = Self::index_shift() as u64;
        assert((addr >> shift) & 0x1ff < 512) by (bit_vector);
        ((addr >> shift) & 0b1_1111_1111) as usize
    }

    /// The text of entry `i` of a table at `addr`: a line for a present entry, nothing else.
    pub open spec fn spec_entry_line(v: Seq<EntryView<NEXT::V>>, addr: u64, i: int) -> Seq<char> {
        if present(v[i].value) {
            "  entry["@ + pad_left(dec_digits(i as nat), 3, ' ') + "] = "@ + Entry::<
                LEVEL,
                NEXT,
            >::spec_format(v[i], entry_addr(addr, i)) + "\n"@
        } else {
            Seq::empty()
        }
    }

    /// The text of the first `n` entries of a table at `addr`.
    pub open spec fn spec_entry_lines(v: Seq<EntryView<NEXT::V>>, addr: u64, n: nat) -> Seq<char>
        decreases n,
    {
        if n == 0 {
            Seq::empty()
        } else {
            Self::spec_entry_lines(v, addr, (n - 1) as nat) + Self::spec_entry_line(v, addr, n - 1)
        }
    }

    /// The text of a table at `addr`.
    pub open spec fn spec_format(v: Seq<EntryView<NEXT::V>>, addr: u64) -> Seq<char> {
        seq!['L'] + dec_digits(LEVEL as nat) + "Table @ "@ + hex_prefixed(addr as nat, 16, false)
            + " {\n"@ + Self::spec_entry_lines(v, addr, v.len()) + "}\n"@
    }

    /// The line of entry `i` in the text of the table; empty unless the entry is present.
    fn entry_line(&self, addr: u64, i: usize) -> (line: String)
        requires
            i < self@.len() <= TABLE_ENTRIES,
        ensures
            line@ == Self::spec_entry_line(self@, addr, i as int),
    {
        let mut line = String::new();
        assert(self.entry@.len() == self@.len());
        let e = &self.entry[i];
        assert(self@[i as int] == e@);
        if e.is_present() {
            line.append("  entry[");
            push_dec_right(&mut line, i as u64, 3);
            line.append("] = ");
            let entry_text = e.format(addr.wrapping_add((8 * i) as u64));
            line.append(entry_text.as_str());
            line.append("\n");
            assert(line@ =~= Self::spec_entry_line(self@, addr, i as int));
        }
        line
    }

    /// The text of the table, as it stands at address `addr`: a heading with level
    /// and address, a line for each present entry with its index, and a closing line.
    pub fn format(&self, addr: u64) -> (text: String)
        ensures
            text@ == Self::spec_format(self@, addr),
    {
        assert(self@.len() == TABLE_ENTRIES);
        let mut text = String::new();
        text.push('L');
        push_dec_right(&mut text, LEVEL as u64, 0);
        text.append("Table @ ");
        push_hex_prefixed(&mut text, addr, 16, false);
        text.append(" {\n");
        let ghost head = text@;
        assert(head =~= seq!['L'] + dec_digits(LEVEL as nat) + "Table @ "@ + hex_prefixed(
            addr as nat,
            16,
            false,
        ) + " {\n"@);
        let mut i: usize = 0;
        while i < TABLE_ENTRIES
            invariant
                i <= TABLE_ENTRIES,
                self@.len() == TABLE_ENTRIES,
                text@ == head + Self::spec_entry_lines(self@, addr, i as nat),
            decreases TABLE_ENTRIES - i,
        {
            let line = self.entry_line(addr, i);
            text.append(line.as_str());
            i = i + 1;
            assert(text@ =~= head + Self::spec_entry_lines(self@, addr, i as nat));
        }
        text.append("}\n");
        assert(text@ =~= head + Self::spec_entry_lines(self@, addr, self@.len()) + "}\n"@);
        text
    }

    /// The structure below entry `index`: the table, or on the last level the
    /// page, that the entry names, if the index is in range and the entry is
    /// present. A well-formed table has it for every present entry.
    pub fn next_level(&self, index: usize) -> (below: Option<&NEXT>)
        ensures
            match below {
                Some(t) => index < self@.len() && present(self@[index as int].value)
                    && self@[index as int].next == Some(t@),
                None => !(index < self@.len() && present(self@[index as int].value)
                    && self@[index as int].next is Some),
            },
            <Self as PageStructure>::wf(self@) ==> (below is Some <==> index < TABLE_ENTRIES && present(
                self@[index as int].value,
            )),
    {
        if index < TABLE_ENTRIES {
            match self.entry[index].table() {
                Ok(t) => Some(t),
                Err(_) => None,
            }
        } else {
            None
        }
    }

    /// The word of entry `index`, if the index is in range.
    pub fn entry_value(&self, index: usize) -> (word: Option<u64>)
        ensures
            word == (if index < self@.len() {
                Some(self@[index as int].value)
            } else {
                None
            }),
    {
        if index < TABLE_ENTRIES {
            Some(self.entry[index].read_value())
        } else {
            None
        }
    }
}

impl<const LEVEL: usize, NEXT: PageStructure> PageStructure for Table<LEVEL, NEXT> {
    open spec fn level() -> nat {
        LEVEL as nat
    }

    open spec fn level_ok() -> bool {
        1 <= LEVEL <= 4 && NEXT::level() + 1 == LEVEL && NEXT::level_ok()
    }

    open spec fn same_slot(a: u64, b: u64) -> bool {
        table_index(LEVEL, a) == table_index(LEVEL, b) && (LEVEL == 1 || NEXT::same_slot(a, b))
    }

    open spec fn wf(v: Seq<EntryView<NEXT::V>>) -> bool {
        &&& Self::level_ok()
        &&& v.len() == TABLE_ENTRIES
        &&& forall|i: int| 0 <= i < v.len() ==> entry_wf::<NEXT>(LEVEL, #[trigger] v[i])
    }

    open spec fn zeroed_view() -> Seq<EntryView<NEXT::V>> {
        Seq::new(TABLE_ENTRIES as nat, |i: int| clear_entry())
    }

    open spec fn spec_map(
        v: Seq<EntryView<NEXT::V>>,
        heap: HeapModel,
        virt: u64,
        phys: u64,
        attr: PageAttr,
    ) -> Mapped<Seq<EntryView<NEXT::V>>> {
        if LEVEL == 1 {
            map_leaf(v, heap, table_index(LEVEL, virt), phys, attr, NEXT::zeroed_view())
        } else {
            map_through(
                v,
                heap,
                table_index(LEVEL, virt),
                NEXT::zeroed_view(),
                |below: NEXT::V, h: HeapModel| NEXT::spec_map(below, h, virt, phys, attr),
            )
        }
    }

    open spec fn spec_leaf(v: Seq<EntryView<NEXT::V>>, virt: u64) -> Option<u64> {
        let e = v[table_index(LEVEL, virt)];
        if LEVEL == 1 {
            Some(e.value)
        } else if present(e.value) && e.next is Some {
            NEXT::spec_leaf(e.next->0, virt)
        } else {
            None
        }
    }

    proof fn lemma_zeroed_wf() {
        assert(0u64 & 1u64 == 0) by (bit_vector);
        assert forall|virt: u64| word_of(#[trigger] Self::spec_leaf(Self::zeroed_view(), virt)) == 0 by {
            lemma_table_index_bound(LEVEL, virt);
        }
    }

    proof fn lemma_leaf_by_slot(v: Seq<EntryView<NEXT::V>>, a: u64, b: u64) {
        let e = v[table_index(LEVEL, a)];
        if LEVEL != 1 && present(e.value) && e.next is Some {
            NEXT::lemma_leaf_by_slot(e.next->0, a, b);
        }
    }

    proof fn lemma_map_page(
        v: Seq<EntryView<NEXT::V>>,
        heap: HeapModel,
        virt: u64,
        phys: u64,
        attr: PageAttr,
        other: u64,
    ) {
        let m = Self::spec_map(v, heap, virt, phys, attr);
        let i = table_index(LEVEL, virt);
        let j = table_index(LEVEL, other);
        lemma_table_index_bound(LEVEL, virt);
        lemma_table_index_bound(LEVEL, other);
        let e = v[i];
        assert(entry_wf::<NEXT>(LEVEL, e));
        assert(entry_wf::<NEXT>(LEVEL, v[j]));
        if LEVEL == 1 {
            if m.0 is Ok {
                NEXT::lemma_zeroed_wf();
                assert forall|k: int| 0 <= k < m.1.len() implies entry_wf::<NEXT>(LEVEL, #[trigger] m.1[k]) by {
                    if k != i {
                        assert(entry_wf::<NEXT>(LEVEL, v[k]));
                    }
                }
            }
        } else if present(e.value) {
            let child = e.next->0;
            NEXT::lemma_map_page(child, heap, virt, phys, attr, other);
            assert forall|k: int| 0 <= k < m.1.len() implies entry_wf::<NEXT>(LEVEL, #[trigger] m.1[k]) by {
                if k != i {
                    assert(entry_wf::<NEXT>(LEVEL, v[k]));
                }
            }
        } else {
            heap.lemma_allocate(PAGE_SIZE, PAGE_SIZE);
            match heap.allocate(PAGE_SIZE, PAGE_SIZE).0 {
                Ok(addr) => {
                    NEXT::lemma_zeroed_wf();
                    let heap1 = heap.allocate(PAGE_SIZE, PAGE_SIZE).1;
                    NEXT::lemma_map_page(NEXT::zeroed_view(), heap1, virt, phys, attr, other);
                    assert((addr | 3) & 1 != 0 && (addr | 3) & 0xFFF == 3) by (bit_vector)
                        requires
                            addr % 4096 == 0,
                    ;
                    assert forall|k: int| 0 <= k < m.1.len() implies entry_wf::<NEXT>(
                        LEVEL,
                        #[trigger] m.1[k],
                    ) by {
                        if k != i {
                            assert(entry_wf::<NEXT>(LEVEL, v[k]));
                        }
                    }
                },
                Err(_) => {},
            }
        }
    }

    fn zeroed() -> (r: Self) {
        let entry = cleared_entries::<LEVEL, NEXT>();
        let r = Table { entry };
        assert(r@ =~= Self::zeroed_view());
        r
    }

    fn map_page(&mut self, heap: &mut Allocator, virt: u64, phys: u64, attr: PageAttr) -> (r: Result<
        (),
        Error,
    >) {
        let index = self.calc_index(virt);
        let ghost before = self@;
        let ghost expect = Self::spec_map(before, heap@, virt, phys, attr);
        assert(self.entry@.len() == before.len());
        assert(before[index as int] == self.entry@[index as int]@);
        assert(entry_wf::<NEXT>(LEVEL, before[index as int]));
        let e = &mut self.entry[index];
        if LEVEL == 1 {
            let r = e.set_page(phys, attr);
            proof {
                NEXT::lemma_zeroed_wf();
                assert(self@ =~= expect.1);
                assert forall|k: int| 0 <= k < self@.len() implies entry_wf::<NEXT>(LEVEL, #[trigger] self@[k]) by {
                    if k != index {
                        assert(entry_wf::<NEXT>(LEVEL, before[k]));
                    }
                }
            }
            r
        } else {
            match e.ensure_populated(heap) {
                Ok(()) => {
                    proof {
                        NEXT::lemma_zeroed_wf();
                    }
                    match e.table_mut() {
                        Ok(below) => {
                            let r = below.map_page(heap, virt, phys, attr);
                            proof {
                                assert(self@ =~= expect.1);
                            }
                            r
                        },
                        Err(e) => {
                            proof {
                                assert(false);
                            }
                            Err(e)
                        },
                    }
                },
                Err(e) => {
                    proof {
                        assert(self@ =~= before);
                    }
                    Err(e)
                },
            }
        }
    }

    fn leaf(&self, virt: u64) -> (word: Option<u64>) {
        let index = self.calc_index(virt);
        assert(self.entry@.len() == self@.len());
        assert(self@[index as int] == self.entry@[index as int]@);
        assert(entry_wf::<NEXT>(LEVEL, self@[index as int]));
        if LEVEL == 1 {
            Some(self.entry[index].read_value())
        } else {
            match self.entry[index].table() {
                Ok(below) => below.leaf(virt),
                Err(_) => None,
            }
        }
    }
}

/// The last level: a table whose entries name mapped pages.
pub type PT = Table<1, Page>;

/// The page directory.
pub type PD = Table<2, PT>;

/// The page directory pointer table.
pub type PDPT = Table<3, PD>;

/// The root of the hierarchy.
pub type PML4 = Table<4, PDPT>;


/// What mapping the pages `virt`, `virt + 4096`, ... below `virt_end` to `phys`,
/// `phys + 4096`, ... yields: the pages are mapped in ascending order and the
/// first failure ends the mapping, with the pages before it mapped.
pub open spec fn map_range<T: PageStructure>(
    t: T::V,
    heap: HeapModel,
    virt: u64,
    virt_end: u64,
    phys: u64,
    attr: PageAttr,
) -> Mapped<T::V>
    decreases virt_end - virt,
{
    if virt >= virt_end {
        (Ok(()), t, heap)
    } else {
        let m = T::spec_map(t, heap, virt, phys, attr);
        if m.0 is Err || virt_end - virt <= PAGE_SIZE {
            m
        } else {
            map_range::<T>(
                m.1,
                m.2,
                (virt + PAGE_SIZE) as u64,
                virt_end,
                (phys + PAGE_SIZE) as u64,
                attr,
            )
        }
    }
}

/// What the walk from `virt` finds: the physical address behind it, if the page is present.
pub open spec fn spec_translate(leaf: Option<u64>, virt: u64) -> Option<TranslationResult> {
    match leaf {
        Some(word) => if present(word) {
            Some(TranslationResult::PageMapped4K { phys: frame_of(word) | (virt & ATTR_MASK) })
        } else {
            None
        },
        None => None,
    }
}

impl PML4 {
    /// The invariant of a hierarchy: every table has 512 entries, an entry of a
    /// table above the last level is present exactly if it owns the table below it,
    /// and such an entry carries the attributes of kernel memory.
    pub open spec fn inv(&self) -> bool {
        <PML4 as PageStructure>::wf(self@)
    }

    /// An empty root table.
    pub fn new() -> (root: Box<Self>)
        ensures
            root.inv(),
            root@ == <PML4 as PageStructure>::zeroed_view(),
    {
        proof {
            <PML4 as PageStructure>::lemma_zeroed_wf();
        }
        Box::new(<PML4 as PageStructure>::zeroed())
    }

    /// Maps the pages at `virt_start`, `virt_start + 4096`, ... below `virt_end`
    /// to `phys`, `phys + 4096`, ... with the attributes `attr`, taking missing
    /// tables from `heap`.
    ///
    /// `Misaligned` if the range is not empty and `phys` is no multiple of the page
    /// size; `OutOfMemory` if the heap cannot give a table that is needed. A page
    /// that is mapped already is overwritten.
    #[verifier::loop_isolation(false)]
    pub fn create_mapping(
        &mut self,
        virt_start: u64,
        virt_end: u64,
        phys: u64,
        attr: PageAttr,
        heap: &mut Allocator,
    ) -> (r: Result<(), Error>)
        requires
            old(self).inv(),
            old(heap).wf(),
            virt_start < virt_end ==> phys + (virt_end - virt_start) - 1 <= u64::MAX,
        ensures
            final(self).inv(),
            final(heap).wf(),
            r == map_range::<PML4>(old(self)@, old(heap)@, virt_start, virt_end, phys, attr).0,
            final(self)@ == map_range::<PML4>(old(self)@, old(heap)@, virt_start, virt_end, phys, attr).1,
            final(heap)@ == map_range::<PML4>(old(self)@, old(heap)@, virt_start, virt_end, phys, attr).2,
    {
        let mut virt: u64 = virt_start;
        let mut ph: u64 = phys;
        let ghost whole = map_range::<PML4>(old(self)@, old(heap)@, virt_start, virt_end, phys, attr);
        while virt < virt_end
            invariant
                self.inv(),
                heap.wf(),
                virt < virt_end ==> ph + (virt_end - virt) - 1 <= u64::MAX,
                whole == map_range::<PML4>(self@, heap@, virt, virt_end, ph, attr),
            decreases virt_end - virt,
        {
            match self.map_page(heap, virt, ph, attr) {
                Ok(()) => {},
                Err(e) => {
                    return Err(e);
                },
            }
            if virt_end - virt <= PAGE_SIZE as u64 {
                return Ok(());
            }
            virt = virt + PAGE_SIZE as u64;
            ph = ph + PAGE_SIZE as u64;
        }
        Ok(())
    }

    /// The last-level entry that the walk from `virt` reaches; `None` if a table on the way is missing.
    pub fn leaf_entry(&self, virt: u64) -> (word: Option<u64>)
        requires
            self.inv(),
        ensures
            word == <PML4 as PageStructure>::spec_leaf(self@, virt),
    {
        self.leaf(virt)
    }

    /// The physical address that `virt` translates to; `None` if no present page is mapped there.
    pub fn translate(&self, virt: u64) -> (found: Option<TranslationResult>)
        requires
            self.inv(),
        ensures
            found == spec_translate(<PML4 as PageStructure>::spec_leaf(self@, virt), virt),
    {
        match self.leaf(virt) {
            Some(word) => {
                if word & ATTR_PRESENT != 0 {
                    Some(TranslationResult::PageMapped4K { phys: (word & FRAME_MASK) | (virt & ATTR_MASK) })
                } else {
                    None
                }
            },
            None => None,
        }
    }
}


/// The number of the last-level entry that `virt` selects, among all of a hierarchy.
pub open spec fn slot(virt: u64) -> u64 {
    (virt >> 12) & 0xF_FFFF_FFFF
}

/// The address of page `k` of a range that starts at `start`.
pub open spec fn page_addr(start: u64, k: nat) -> u64 {
    (start + PAGE_SIZE * k) as u64
}

/// Two addresses select the same entries on the way down from the root exactly if they have the same slot.
pub proof fn lemma_same_slot(a: u64, b: u64)
    ensures
        <PML4 as PageStructure>::same_slot(a, b) <==> slot(a) == slot(b),
{
    assert(level_shift(4) == 39 && level_shift(3) == 30 && level_shift(2) == 21 && level_shift(1) == 12);
    assert(((a >> 39) & 0x1ff == (b >> 39) & 0x1ff && (a >> 30) & 0x1ff == (b >> 30) & 0x1ff && (a >> 21)
        & 0x1ff == (b >> 21) & 0x1ff && (a >> 12) & 0x1ff == (b >> 12) & 0x1ff) <==> ((a >> 12)
        & 0xF_FFFF_FFFF == (b >> 12) & 0xF_FFFF_FFFF)) by (bit_vector);
}

/// Two pages less than 2^48 bytes apart have different slots.
pub proof fn lemma_slots_apart(v: u64, d: u64)
    requires
        0 < d < 0x1_0000_0000_0000,
        d % 4096 == 0,
        v + d <= u64::MAX,
    ensures
        slot((v + d) as u64) != slot(v),
{
    let w: u64 = (v + d) as u64;
    assert((w >> 12) & 0xF_FFFF_FFFF != (v >> 12) & 0xF_FFFF_FFFF) by (bit_vector)
        requires
            0 < d < 0x1_0000_0000_0000,
            d % 4096 == 0,
            v <= 0xFFFF_FFFF_FFFF_FFFF - d,
            w == v + d,
    ;
}

/// Every address of a page has the slot of the page's first address.
pub proof fn lemma_slot_of_page(v: u64)
    ensures
        slot(v) == slot((v - v % 4096) as u64),
{
    let base: u64 = (v - v % 4096) as u64;
    assert((v >> 12) & 0xF_FFFF_FFFF == (base >> 12) & 0xF_FFFF_FFFF) by (bit_vector)
        requires
            base == v - v % 4096,
    ;
}

/// What holds of a mapped range, stated for page `k` of the range and for one
/// other address: the hierarchy and the heap stay well formed; the mapping fails
/// only for want of memory or for a misaligned `phys`; where it succeeds on a range
/// of at most 2^48 bytes, the walk from page `k` reaches `(phys + 4096 k) | attr`;
/// the walk from an address whose slot is that of no page of the range reaches
/// what it reached before; and a walk that reached an entry before still reaches one.
pub proof fn lemma_map_range(
    t: Seq<EntryView<Seq<EntryView<Seq<EntryView<Seq<EntryView<()>>>>>>>>,
    heap: HeapModel,
    virt: u64,
    virt_end: u64,
    phys: u64,
    attr: PageAttr,
    k: nat,
    other: u64,
)
    requires
        <PML4 as PageStructure>::wf(t),
        heap.wf(),
        virt < virt_end ==> phys + (virt_end - virt) - 1 <= u64::MAX,
    ensures
        ({
            let m = map_range::<PML4>(t, heap, virt, virt_end, phys, attr);
            &&& <PML4 as PageStructure>::wf(m.1)
            &&& m.2.wf()
            &&& m.0 matches Err(e) ==> e == Error::OutOfMemory || (e == Error::Misaligned && phys
                & ATTR_MASK != 0)
            &&& m.0 is Ok && virt < virt_end ==> phys & ATTR_MASK == 0
            &&& virt >= virt_end ==> m.0 is Ok && m.1 == t && m.2 == heap
            &&& m.0 is Ok && virt_end - virt <= 0x1_0000_0000_0000 && virt + PAGE_SIZE * k < virt_end
                ==> <PML4 as PageStructure>::spec_leaf(m.1, page_addr(virt, k)) == Some(
                page_addr(phys, k) | attr.spec_bits(),
            )
            &&& (forall|j: nat|
                virt + PAGE_SIZE * j < virt_end ==> slot(other) != slot(#[trigger] page_addr(virt, j)))
                ==> word_of(<PML4 as PageStructure>::spec_leaf(m.1, other)) == word_of(
                <PML4 as PageStructure>::spec_leaf(t, other),
            )
            &&& <PML4 as PageStructure>::spec_leaf(t, other) is Some ==> <PML4 as PageStructure>::spec_leaf(
                m.1,
                other,
            ) is Some
        }),
    decreases virt_end - virt,
{
    if virt < virt_end {
        let first = <PML4 as PageStructure>::spec_map(t, heap, virt, phys, attr);
        <PML4 as PageStructure>::lemma_map_page(t, heap, virt, phys, attr, other);
        <PML4 as PageStructure>::lemma_map_page(t, heap, virt, phys, attr, virt);
        lemma_same_slot(virt, other);
        lemma_same_slot(virt, virt);
        assert(page_addr(virt, 0) == virt);
        assert(page_addr(phys, 0) == phys);
        if first.0 is Err || virt_end - virt <= PAGE_SIZE {
            if k > 0 {
                assert(virt + PAGE_SIZE * k >= virt + PAGE_SIZE) by (nonlinear_arith)
                    requires
                        k >= 1,
                ;
            }
        } else {
            let next_virt = (virt + PAGE_SIZE) as u64;
            let next_phys = (phys + PAGE_SIZE) as u64;
            let m = map_range::<PML4>(first.1, first.2, next_virt, virt_end, next_phys, attr);
            assert(phys & ATTR_MASK == 0);
            assert(next_phys & ATTR_MASK == 0) by (bit_vector)
                requires
                    phys & 0xFFF == 0,
                    next_phys == phys + 4096,
            ;
            // what the rest does to `other`, and to the first page
            lemma_map_range(first.1, first.2, next_virt, virt_end, next_phys, attr, 0, other);
            lemma_map_range(first.1, first.2, next_virt, virt_end, next_phys, attr, 0, virt);
            assert forall|j: nat| next_virt + PAGE_SIZE * j < virt_end implies page_addr(next_virt, j)
                == page_addr(virt, j + 1) by {
                assert(next_virt + PAGE_SIZE * j == virt + PAGE_SIZE * (j + 1)) by (nonlinear_arith)
                    requires
                        next_virt == virt + PAGE_SIZE,
                ;
            }
            if forall|j: nat|
                virt + PAGE_SIZE * j < virt_end ==> slot(other) != slot(#[trigger] page_addr(virt, j)) {
                assert(slot(other) != slot(page_addr(virt, 0)));
                assert forall|j: nat| next_virt + PAGE_SIZE * j < virt_end implies slot(other) != slot(
                    #[trigger] page_addr(next_virt, j),
                ) by {
                    assert(next_virt + PAGE_SIZE * j == virt + PAGE_SIZE * (j + 1)) by (nonlinear_arith)
                        requires
                            next_virt == virt + PAGE_SIZE,
                    ;
                    assert(slot(other) != slot(page_addr(virt, j + 1)));
                }
            }
            if m.0 is Ok && virt_end - virt <= 0x1_0000_0000_0000 && virt + PAGE_SIZE * k < virt_end {
                if k == 0 {
                    assert forall|j: nat| next_virt + PAGE_SIZE * j < virt_end implies slot(virt) != slot(
                        #[trigger] page_addr(next_virt, j),
                    ) by {
                        let d: u64 = (PAGE_SIZE * (j + 1)) as u64;
                        assert(next_virt + PAGE_SIZE * j == virt + PAGE_SIZE * (j + 1)) by (nonlinear_arith)
                            requires
                                next_virt == virt + PAGE_SIZE,
                        ;
                        assert(d % 4096 == 0) by (nonlinear_arith)
                            requires
                                d == 4096 * (j + 1),
                        ;
                        lemma_slots_apart(virt, d);
                    }
                } else {
                    let k1 = (k - 1) as nat;
                    lemma_map_range(first.1, first.2, next_virt, virt_end, next_phys, attr, k1, other);
                    assert(next_virt + PAGE_SIZE * k1 == virt + PAGE_SIZE * k) by (nonlinear_arith)
                        requires
                            next_virt == virt + PAGE_SIZE,
                            k1 == k - 1,
                    ;
                    assert(next_phys + PAGE_SIZE * k1 == phys + PAGE_SIZE * k) by (nonlinear_arith)
                        requires
                            next_phys == phys + PAGE_SIZE,
                            k1 == k - 1,
                    ;
                }
            }
        }
    }
}


/// After a range of at most 2^48 bytes that starts on a page boundary has been
/// mapped, the walk from every address `v` of the range reaches a last-level
/// entry that holds the physical frame of `v`'s page, `phys` plus the distance of
/// that page from the start, together with exactly the attributes `attr`. Where
/// the physical range lies below 2^52, the entry's frame field is that frame, and
/// `v` translates to `phys + (v - virt_start)` unless `attr` is `NotPresent`.
pub proof fn lemma_mapped_range_walk(
    t: Seq<EntryView<Seq<EntryView<Seq<EntryView<Seq<EntryView<()>>>>>>>>,
    heap: HeapModel,
    virt_start: u64,
    virt_end: u64,
    phys: u64,
    attr: PageAttr,
    v: u64,
)
    requires
        <PML4 as PageStructure>::wf(t),
        heap.wf(),
        virt_start % 4096 == 0,
        virt_start <= v < virt_end,
        virt_end - virt_start <= 0x1_0000_0000_0000,
        phys + (virt_end - virt_start) - 1 <= u64::MAX,
        map_range::<PML4>(t, heap, virt_start, virt_end, phys, attr).0 is Ok,
    ensures
        ({
            let after = map_range::<PML4>(t, heap, virt_start, virt_end, phys, attr).1;
            let frame = (phys + (v - virt_start) - (v - virt_start) % 4096) as u64;
            let leaf = <PML4 as PageStructure>::spec_leaf(after, v);
            &&& leaf == Some(frame | attr.spec_bits())
            &&& attrs_of(leaf->0) == attr.spec_bits()
            &&& phys + (virt_end - virt_start) <= 0x10_0000_0000_0000 ==> frame_of(leaf->0) == frame
            &&& phys + (virt_end - virt_start) <= 0x10_0000_0000_0000 && attr != PageAttr::NotPresent
                ==> spec_translate(leaf, v) == Some(
                TranslationResult::PageMapped4K { phys: (phys + (v - virt_start)) as u64 },
            )
        }),
{
    let after = map_range::<PML4>(t, heap, virt_start, virt_end, phys, attr).1;
    let k = ((v - virt_start) / 4096) as nat;
    let base = (v - v % 4096) as u64;
    let frame = (phys + (v - virt_start) - (v - virt_start) % 4096) as u64;
    assert(virt_start + PAGE_SIZE * k == base);
    assert(phys + PAGE_SIZE * k == frame);
    lemma_map_range(t, heap, virt_start, virt_end, phys, attr, k, v);
    assert(page_addr(virt_start, k) == base);
    assert(page_addr(phys, k) == frame);
    lemma_slot_of_page(v);
    lemma_same_slot(v, base);
    <PML4 as PageStructure>::lemma_leaf_by_slot(after, v, base);
    let bits = attr.spec_bits();
    let word = frame | bits;
    assert(frame & 0xFFF == 0) by (bit_vector)
        requires
            phys & 0xFFF == 0,
            frame >= phys,
            (frame - phys) % 4096 == 0,
    ;
    assert(word & 0xFFF == bits && (bits != 0 ==> word & 1u64 != 0)) by (bit_vector)
        requires
            frame & 0xFFF == 0,
            bits == 0 || bits == 0x3 || bits == 0x1b,
            word == frame | bits,
    ;
    if phys + (virt_end - virt_start) <= 0x10_0000_0000_0000 {
        let target: u64 = (phys + (v - virt_start)) as u64;
        assert(word & 0x000F_FFFF_FFFF_F000 == frame && (word & 0x000F_FFFF_FFFF_F000) | (v & 0xFFF)
            == target) by (bit_vector)
            requires
                frame & 0xFFF == 0,
                frame < 0x10_0000_0000_0000,
                bits == 0 || bits == 0x3 || bits == 0x1b,
                word == frame | bits,
                target == frame + v % 4096,
        ;
    }
}

} // verus!
