//! Interrupts: the frame that the entry stubs build, the fault dispatcher's
//! diagnostic, and the interrupt descriptor table.

use vstd::prelude::*;
use vstd::string::StringExecFns;
use crate::error::Error;
use crate::bytes::{le_bytes, le_value, lemma_le_round_trip, push_u16, push_u32, push_u64, push_u8, read_u64};
use crate::text::{hex_padded, hex_prefixed, push_hex, push_hex_prefixed};

verus! {

/// Size of the area that holds the extended FPU state, at the start of the frame.
pub const FPU_AREA_SIZE: usize = 512;

/// Offset of the general registers in the frame: after the FPU area and 8 bytes of padding.
pub const GREG_OFFSET: usize = 520;

/// Offset of the error code in the frame.
pub const ERROR_CODE_OFFSET: usize = 640;

/// Offset of what the CPU pushed: RIP, CS, RFLAGS, RSP, SS.
pub const CONTEXT_OFFSET: usize = 648;

/// Size of the whole frame.
pub const FRAME_SIZE: usize = 688;

/// The general registers in the order in which the frame holds them.
#[derive(Debug, Clone, Copy, PartialEq, Eq, Structural)]
pub struct GeneralRegisterContext {
    pub rax: u64,
    pub rdx: u64,
    pub rbx: u64,
    pub rbp: u64,
    pub rsi: u64,
    pub rdi: u64,
    pub r8: u64,
    pub r9: u64,
    pub r10: u64,
    pub r11: u64,
    pub r12: u64,
    pub r13: u64,
    pub r14: u64,
    pub r15: u64,
    pub rcx: u64,
}

/// What the CPU pushes when it takes an interrupt.
#[derive(Debug, Clone, Copy, PartialEq, Eq, Structural)]
pub struct InterruptContext {
    pub rip: u64,
    pub cs: u64,
    pub rflags: u64,
    pub rsp: u64,
    pub ss: u64,
}

/// The registers of an interrupt frame.
#[derive(Debug, Clone, Copy, PartialEq, Eq, Structural)]
pub struct InterruptInfo {
    pub greg: GeneralRegisterContext,
    pub error_code: u64,
    pub ctx: InterruptContext,
}

/// The 64-bit register at `offset` of a frame.
pub open spec fn frame_register(frame: Seq<u8>, offset: int) -> u64 {
    le_value(frame, offset, 8) as u64
}

/// `prefix`, followed by `label` and `value` in upper-case hexadecimal after `0x`
/// with at least `digits` digits.
pub open spec fn with_field(prefix: Seq<char>, label: Seq<char>, value: u64, digits: nat) -> Seq<
    char,
> {
    prefix + label + hex_prefixed(value as nat, digits, true)
}

/// Appends `label` and `value` in upper-case hexadecimal after `0x` with at least `digits` digits.
fn push_field(out: &mut String, label: &str, value: u64, digits: usize)
    ensures
        final(out)@ == with_field(old(out)@, label@, value, digits as nat),
{
    out.append(label);
    push_hex_prefixed(out, value, digits, true);
}

impl InterruptInfo {
    /// The registers that a frame holds.
    pub open spec fn spec_from_bytes(frame: Seq<u8>) -> InterruptInfo {
        InterruptInfo {
            greg: GeneralRegisterContext {
                rax: frame_register(frame, 520),
                rdx: frame_register(frame, 528),
                rbx: frame_register(frame, 536),
                rbp: frame_register(frame, 544),
                rsi: frame_register(frame, 552),
                rdi: frame_register(frame, 560),
                r8: frame_register(frame, 568),
                r9: frame_register(frame, 576),
                r10: frame_register(frame, 584),
                r11: frame_register(frame, 592),
                r12: frame_register(frame, 600),
                r13: frame_register(frame, 608),
                r14: frame_register(frame, 616),
                r15: frame_register(frame, 624),
                rcx: frame_register(frame, 632),
            },
            error_code: frame_register(frame, 640),
            ctx: InterruptContext {
                rip: frame_register(frame, 648),
                cs: frame_register(frame, 656),
                rflags: frame_register(frame, 664),
                rsp: frame_register(frame, 672),
                ss: frame_register(frame, 680),
            },
        }
    }

    /// Reads the registers out of a frame as the entry stubs lay it out: the FPU
    /// area, 8 bytes of padding, the fifteen general registers, the error code, and
    /// what the CPU pushed. `None` unless the frame has the size of a frame.
    pub fn from_bytes(frame: &[u8]) -> (info: Option<InterruptInfo>)
        ensures
            info == (if frame@.len() == FRAME_SIZE {
                Some(Self::spec_from_bytes(frame@))
            } else {
                None
            }),
    {
        if frame.len() != FRAME_SIZE {
            return None;
        }
        Some(
            InterruptInfo {
                greg: GeneralRegisterContext {
                    rax: read_u64(frame, GREG_OFFSET),
                    rdx: read_u64(frame, GREG_OFFSET + 8),
                    rbx: read_u64(frame, GREG_OFFSET + 16),
                    rbp: read_u64(frame, GREG_OFFSET + 24),
                    rsi: read_u64(frame, GREG_OFFSET + 32),
                    rdi: read_u64(frame, GREG_OFFSET + 40),
                    r8: read_u64(frame, GREG_OFFSET + 48),
                    r9: read_u64(frame, GREG_OFFSET + 56),
                    r10: read_u64(frame, GREG_OFFSET + 64),
                    r11: read_u64(frame, GREG_OFFSET + 72),
                    r12: read_u64(frame, GREG_OFFSET + 80),
                    r13: read_u64(frame, GREG_OFFSET + 88),
                    r14: read_u64(frame, GREG_OFFSET + 96),
                    r15: read_u64(frame, GREG_OFFSET + 104),
                    rcx: read_u64(frame, GREG_OFFSET + 112),
                },
                error_code: read_u64(frame, ERROR_CODE_OFFSET),
                ctx: InterruptContext {
                    rip: read_u64(frame, CONTEXT_OFFSET),
                    cs: read_u64(frame, CONTEXT_OFFSET + 8),
                    rflags: read_u64(frame, CONTEXT_OFFSET + 16),
                    rsp: read_u64(frame, CONTEXT_OFFSET + 24),
                    ss: read_u64(frame, CONTEXT_OFFSET + 32),
                },
            },
        )
    }

    /// The text of the frame: one or two registers per line, each in hexadecimal.
    pub open spec fn spec_format(self) -> Seq<char> {
        let t = with_field(Seq::empty(), "InterruptInfo {\n    rip: "@, self.ctx.rip, 16);
        let t = with_field(t, ", CS: "@, self.ctx.cs, 4);
        let t = with_field(t, ",\n    rsp: "@, self.ctx.rsp, 16);
        let t = with_field(t, ", SS: "@, self.ctx.ss, 4);
        let t = with_field(t, ",\n    rbp: "@, self.greg.rbp, 16);
        let t = with_field(t, ",\n    rflags: "@, self.ctx.rflags, 16);
        let t = with_field(t, ",\n    error_code: "@, self.error_code, 16);
        let t = with_field(t, ",\n    rax: "@, self.greg.rax, 16);
        let t = with_field(t, ", rcx: "@, self.greg.rcx, 16);
        let t = with_field(t, ",\n    rdx: "@, self.greg.rdx, 16);
        let t = with_field(t, ", rbx: "@, self.greg.rbx, 16);
        let t = with_field(t, ",\n    rsi: "@, self.greg.rsi, 16);
        let t = with_field(t, ", rdi: "@, self.greg.rdi, 16);
        let t = with_field(t, ",\n    r8:  "@, self.greg.r8, 16);
        let t = with_field(t, ", r9:  "@, self.greg.r9, 16);
        let t = with_field(t, ",\n    r10: "@, self.greg.r10, 16);
        let t = with_field(t, ", r11: "@, self.greg.r11, 16);
        let t = with_field(t, ",\n    r12: "@, self.greg.r12, 16);
        let t = with_field(t, ", r13: "@, self.greg.r13, 16);
        let t = with_field(t, ",\n    r14: "@, self.greg.r14, 16);
        let t = with_field(t, ", r15: "@, self.greg.r15, 16);
        t + ",\n}"@
    }

    /// The text of the frame: one or two registers per line, each in hexadecimal.
    pub fn format(&self) -> (text: String)
        ensures
            text@ == self.spec_format(),
    {
        let mut text = String::new();
        push_field(&mut text, "InterruptInfo {\n    rip: ", self.ctx.rip, 16);
        push_field(&mut text, ", CS: ", self.ctx.cs, 4);
        push_field(&mut text, ",\n    rsp: ", self.ctx.rsp, 16);
        push_field(&mut text, ", SS: ", self.ctx.ss, 4);
        push_field(&mut text, ",\n    rbp: ", self.greg.rbp, 16);
        push_field(&mut text, ",\n    rflags: ", self.ctx.rflags, 16);
        push_field(&mut text, ",\n    error_code: ", self.error_code, 16);
        push_field(&mut text, ",\n    rax: ", self.greg.rax, 16);
        push_field(&mut text, ", rcx: ", self.greg.rcx, 16);
        push_field(&mut text, ",\n    rdx: ", self.greg.rdx, 16);
        push_field(&mut text, ", rbx: ", self.greg.rbx, 16);
        push_field(&mut text, ",\n    rsi: ", self.greg.rsi, 16);
        push_field(&mut text, ", rdi: ", self.greg.rdi, 16);
        push_field(&mut text, ",\n    r8:  ", self.greg.r8, 16);
        push_field(&mut text, ", r9:  ", self.greg.r9, 16);
        push_field(&mut text, ",\n    r10: ", self.greg.r10, 16);
        push_field(&mut text, ", r11: ", self.greg.r11, 16);
        push_field(&mut text, ",\n    r12: ", self.greg.r12, 16);
        push_field(&mut text, ", r13: ", self.greg.r13, 16);
        push_field(&mut text, ",\n    r14: ", self.greg.r14, 16);
        push_field(&mut text, ", r15: ", self.greg.r15, 16);
        text.append(",\n}");
        text
    }
}

/// The kind of memory access that a page fault interrupted.
#[derive(Debug, Clone, Copy, PartialEq, Eq, Structural)]
pub enum PageFaultAccess {
    InstructionFetch,
    DataWrite,
    DataRead,
}

/// What the error code of a page fault says.
#[derive(Debug, Clone, Copy, PartialEq, Eq, Structural)]
pub struct PageFaultCause {
    /// The access came from user mode (bit 2).
    pub user: bool,
    /// Instruction fetch (bit 4), else write (bit 1), else read.
    pub access: PageFaultAccess,
    /// The page was present (bit 0).
    pub present: bool,
    /// A reserved bit was set in a paging structure (bit 3).
    pub reserved: bool,
}

impl PageFaultCause {
    /// What an error code says.
    pub open spec fn spec_decode(error_code: u64) -> PageFaultCause {
        PageFaultCause {
            user: error_code & 0b0000_0100 != 0,
            access: if error_code & 0b0001_0000 != 0 {
                PageFaultAccess::InstructionFetch
            } else if error_code & 0b0010 != 0 {
                PageFaultAccess::DataWrite
            } else {
                PageFaultAccess::DataRead
            },
            present: error_code & 0b0001 != 0,
            reserved: error_code & 0b1000 != 0,
        }
    }

    /// Decodes the error code of a page fault.
    pub fn decode(error_code: u64) -> (cause: PageFaultCause)
        ensures
            cause == Self::spec_decode(error_code),
    {
        PageFaultCause {
            user: error_code & 0b0000_0100 != 0,
            access: if error_code & 0b0001_0000 != 0 {
                PageFaultAccess::InstructionFetch
            } else if error_code & 0b0010 != 0 {
                PageFaultAccess::DataWrite
            } else {
                PageFaultAccess::DataRead
            },
            present: error_code & 0b0001 != 0,
            reserved: error_code & 0b1000 != 0,
        }
    }

    /// The sentence that states the cause.
    pub open spec fn spec_describe(self) -> Seq<char> {
        Seq::empty() + "Caused by: A "@ + (if self.user {
            "user"@
        } else {
            "supervisor"@
        }) + " mode "@ + (match self.access {
            PageFaultAccess::InstructionFetch => "instruction fetch"@,
            PageFaultAccess::DataWrite => "data write"@,
            PageFaultAccess::DataRead => "data read"@,
        }) + " on a "@ + (if self.present {
            "present"@
        } else {
            "non-present"@
        }) + " page, page structures are "@ + (if self.reserved {
            "invalid"@
        } else {
            "valid"@
        })
    }

    /// The sentence that states the cause.
    pub fn describe(&self) -> (text: String)
        ensures
            text@ == self.spec_describe(),
    {
        let mut text = String::new();
        text.append("Caused by: A ");
        text.append(if self.user { "user" } else { "supervisor" });
        text.append(" mode ");
        text.append(
            match self.access {
                PageFaultAccess::InstructionFetch => "instruction fetch",
                PageFaultAccess::DataWrite => "data write",
                PageFaultAccess::DataRead => "data read",
            },
        );
        text.append(" on a ");
        text.append(if self.present { "present" } else { "non-present" });
        text.append(" page, page structures are ");
        text.append(if self.reserved { "invalid" } else { "valid" });
        text
    }
}

/// The first `n` bytes in two-digit upper-case hexadecimal, separated by `, `.
pub open spec fn hex_list(bytes: Seq<u8>, n: nat) -> Seq<char>
    decreases n,
{
    if n == 0 {
        Seq::empty()
    } else if n == 1 {
        hex_list(bytes, 0) + hex_padded(bytes[0] as nat, 2, true)
    } else {
        hex_list(bytes, (n - 1) as nat) + ", "@ + hex_padded(bytes[n - 1] as nat, 2, true)
    }
}

/// The line that shows the bytes at the faulting instruction.
pub open spec fn spec_code_line(code: Seq<u8>) -> Seq<char> {
    Seq::empty() + "  = ["@ + hex_list(code, code.len()) + "]"@
}

/// The line that shows the bytes at the faulting instruction.
fn code_line(code: &[u8]) -> (text: String)
    ensures
        text@ == spec_code_line(code@),
{
    let mut text = String::new();
    text.append("  = [");
    let mut list = String::new();
    let mut i: usize = 0;
    while i < code.len()
        invariant
            i <= code.len(),
            list@ == hex_list(code@, i as nat),
        decreases code.len() - i,
    {
        if i > 0 {
            list.append(", ");
        }
        push_hex(&mut list, code[i] as u64, 2, true);
        i = i + 1;
    }
    text.append(list.as_str());
    text.append("]");
    text
}

/// The lines of the diagnostic for an exception.
///
/// First the frame and the vector; next what the vector means: for a general
/// protection fault with the bytes at the faulting instruction, for a page fault
/// with the faulting address and the decoded error code.
pub open spec fn spec_inthandler(info: InterruptInfo, index: u64, cr2: u64, code: Seq<u8>) -> Seq<
    Seq<char>,
> {
    let head = seq![
        Seq::empty() + "Interrupt Info: "@ + info.spec_format(),
        Seq::empty() + "Exception "@ + hex_prefixed(index as nat, 2, true) + ": "@,
    ];
    if index == 3 {
        head.push("Breakpoint"@)
    } else if index == 6 {
        head.push("Invalid Opcode"@)
    } else if index == 8 {
        head.push("Double Fault"@)
    } else if index == 13 {
        head.push("General Protection Fault"@).push(
            Seq::empty() + "Bytes @ RIP("@ + hex_prefixed(info.ctx.rip as nat, 16, true) + "):"@,
        ).push(spec_code_line(code))
    } else if index == 14 {
        head.push("Page Fault"@).push(
            Seq::empty() + "CR2="@ + hex_prefixed(cr2 as nat, 16, true),
        ).push(PageFaultCause::spec_decode(info.error_code).spec_describe())
    } else {
        head.push("Not handled"@)
    }
}

/// The text of each line.
pub open spec fn lines_view(lines: Seq<String>) -> Seq<Seq<char>> {
    lines.map_values(|line: String| line@)
}

/// How the dispatcher ends: with the lines of its diagnostic and the fault on
/// which the kernel gives up. There is no other end: the interrupted code is
/// never resumed.
pub struct FatalException {
    pub lines: Vec<String>,
    pub fault: Error,
}

/// The dispatcher for exception `index` with frame `info`. Every vector is
/// fatal, the listed ones and all others alike: the result holds the lines to
/// print and the hardware fault of that vector, on which the kernel stops.
/// `cr2` is the faulting address of a page fault, `code` the bytes at the
/// faulting instruction.
pub fn inthandler(info: &InterruptInfo, index: u64, cr2: u64, code: &[u8]) -> (end: FatalException)
    ensures
        lines_view(end.lines@) == spec_inthandler(*info, index, cr2, code@),
        end.fault == Error::HardwareFault(index),
{
    let mut lines: Vec<String> = Vec::new();
    let mut first = String::new();
    first.append("Interrupt Info: ");
    let frame_text = info.format();
    first.append(frame_text.as_str());
    lines.push(first);
    let mut second = String::new();
    second.append("Exception ");
    push_hex_prefixed(&mut second, index, 2, true);
    second.append(": ");
    lines.push(second);
    if index == 3 {
        lines.push(String::from_str("Breakpoint"));
    } else if index == 6 {
        lines.push(String::from_str("Invalid Opcode"));
    } else if index == 8 {
        lines.push(String::from_str("Double Fault"));
    } else if index == 13 {
        lines.push(String::from_str("General Protection Fault"));
        let mut bytes_at = String::new();
        bytes_at.append("Bytes @ RIP(");
        push_hex_prefixed(&mut bytes_at, info.ctx.rip, 16, true);
        bytes_at.append("):");
        lines.push(bytes_at);
        lines.push(code_line(code));
    } else if index == 14 {
        lines.push(String::from_str("Page Fault"));
        let mut address = String::new();
        address.append("CR2=");
        push_hex_prefixed(&mut address, cr2, 16, true);
        lines.push(address);
        lines.push(PageFaultCause::decode(info.error_code).describe());
    } else {
        lines.push(String::from_str("Not handled"));
    }
    assert(lines_view(lines@) =~= spec_inthandler(*info, index, cr2, code@));
    FatalException { lines, fault: Error::HardwareFault(index) }
}


/// The attribute bits that make a descriptor an interrupt gate.
pub const BIT_FLAGS_INTGATE: u8 = 0b0000_1110u8;

/// The attribute bit of a gate that is present.
pub const BIT_FLAGS_PRESENT: u8 = 0b1000_0000u8;

/// The attribute bits of privilege level 0.
pub const BIT_FLAGS_DPL0: u8 = 0 << 5;

/// The attribute bits of privilege level 3.
pub const BIT_FLAGS_DPL3: u8 = 3 << 5;

/// Number of gates of the table.
pub const IDT_ENTRIES: usize = 0x100;

/// The attribute byte of a gate.
#[derive(Debug, Clone, Copy, PartialEq, Eq, Structural)]
pub enum IdtAttr {
    NotPresent,
    /// A present interrupt gate that only ring 0 may invoke by software.
    IntGateDPL0,
    /// A present interrupt gate that ring 3 may invoke by software.
    IntGateDPL3,
}

impl IdtAttr {
    /// The attribute byte: gate type in bits 0 to 3, privilege level in bits 5 and 6, present in bit 7.
    pub open spec fn spec_bits(self) -> u8 {
        match self {
            IdtAttr::NotPresent => 0,
            IdtAttr::IntGateDPL0 => 0x8E,
            IdtAttr::IntGateDPL3 => 0xEE,
        }
    }

    /// The attribute byte: gate type in bits 0 to 3, privilege level in bits 5 and 6, present in bit 7.
    #[verifier::when_used_as_spec(spec_bits)]
    pub fn bits(self) -> (b: u8)
        ensures
            b == self.spec_bits(),
            b == match self {
                IdtAttr::NotPresent => 0,
                IdtAttr::IntGateDPL0 => BIT_FLAGS_INTGATE | BIT_FLAGS_PRESENT | BIT_FLAGS_DPL0,
                IdtAttr::IntGateDPL3 => BIT_FLAGS_INTGATE | BIT_FLAGS_PRESENT | BIT_FLAGS_DPL3,
            },
    {
        assert(0x8Eu8 == 0b0000_1110u8 | 0b1000_0000u8 | (0u8 << 5) && 0xEEu8 == 0b0000_1110u8
            | 0b1000_0000u8 | (3u8 << 5)) by (bit_vector);
        match self {
            IdtAttr::NotPresent => 0,
            IdtAttr::IntGateDPL0 => 0x8E,
            IdtAttr::IntGateDPL3 => 0xEE,
        }
    }
}

/// A gate of the interrupt descriptor table, field by field as the CPU reads it.
#[derive(Debug, Clone, Copy, PartialEq, Eq, Structural)]
pub struct IdtDescriptor {
    pub offset_low: u16,
    pub segment_selector: u16,
    pub ist_index: u8,
    pub attr: IdtAttr,
    pub offset_mid: u16,
    pub offset_high: u32,
    pub reserved: u32,
}

impl IdtDescriptor {
    /// An interrupt gate for a handler at address `handler`.
    pub open spec fn spec_new(segment_selector: u16, ist_index: u8, attr: IdtAttr, handler: u64) -> IdtDescriptor {
        IdtDescriptor {
            offset_low: (handler % 0x1_0000) as u16,
            segment_selector,
            ist_index,
            attr,
            offset_mid: ((handler / 0x1_0000) % 0x1_0000) as u16,
            offset_high: (handler / 0x1_0000_0000) as u32,
            reserved: 0,
        }
    }

    /// The address of the handler that this descriptor names.
    pub open spec fn spec_offset(self) -> u64 {
        (self.offset_low + self.offset_mid * 0x1_0000 + self.offset_high * 0x1_0000_0000) as u64
    }

    /// An interrupt gate for a handler at address `handler`: the address is split over the
    /// three offset fields, low 16 bits, next 16 bits and high 32 bits.
    pub fn new(segment_selector: u16, ist_index: u8, attr: IdtAttr, handler: u64) -> (gate: IdtDescriptor)
        ensures
            gate == Self::spec_new(segment_selector, ist_index, attr, handler),
            gate.spec_offset() == handler,
    {
        assert(handler as u16 == handler % 0x1_0000 && (handler >> 16) as u16 == (handler / 0x1_0000)
            % 0x1_0000 && (handler >> 32) as u32 == handler / 0x1_0000_0000) by (bit_vector);
        IdtDescriptor {
            offset_low: handler as u16,
            offset_mid: (handler >> 16) as u16,
            offset_high: (handler >> 32) as u32,
            segment_selector,
            ist_index,
            attr,
            reserved: 0,
        }
    }

    /// The 16 bytes of the descriptor as the CPU reads them: the low part of the
    /// offset, the selector, the stack index, the attributes, the middle and the
    /// high part of the offset, and 4 bytes that are reserved; numbers least
    /// significant byte first.
    pub open spec fn spec_to_bytes(self) -> Seq<u8> {
        Seq::empty() + le_bytes(self.offset_low as nat, 2) + le_bytes(self.segment_selector as nat, 2)
            + le_bytes(self.ist_index as nat, 1) + le_bytes(self.attr.spec_bits() as nat, 1) + le_bytes(
            self.offset_mid as nat,
            2,
        ) + le_bytes(self.offset_high as nat, 4) + le_bytes(self.reserved as nat, 4)
    }

    /// The 16 bytes of the descriptor as the CPU reads them.
    pub fn to_bytes(&self) -> (bytes: Vec<u8>)
        ensures
            bytes@ == self.spec_to_bytes(),
            bytes@.len() == 16,
    {
        let mut bytes: Vec<u8> = Vec::new();
        push_u16(&mut bytes, self.offset_low);
        push_u16(&mut bytes, self.segment_selector);
        push_u8(&mut bytes, self.ist_index);
        push_u8(&mut bytes, self.attr.bits());
        push_u16(&mut bytes, self.offset_mid);
        push_u32(&mut bytes, self.offset_high);
        push_u32(&mut bytes, self.reserved);
        proof {
            lemma_le_round_trip(self.offset_low as nat, 2);
            lemma_le_round_trip(self.segment_selector as nat, 2);
            lemma_le_round_trip(self.ist_index as nat, 1);
            lemma_le_round_trip(self.attr.spec_bits() as nat, 1);
            lemma_le_round_trip(self.offset_mid as nat, 2);
            lemma_le_round_trip(self.offset_high as nat, 4);
            lemma_le_round_trip(self.reserved as nat, 4);
        }
        bytes
    }

    /// The address of the handler that this descriptor names.
    pub fn offset(&self) -> (handler: u64)
        ensures
            handler == self.spec_offset(),
    {
        self.offset_low as u64 + self.offset_mid as u64 * 0x1_0000 + self.offset_high as u64
            * 0x1_0000_0000
    }
}

/// The addresses of the interrupt entry stubs.
#[derive(Debug, Clone, Copy, PartialEq, Eq, Structural)]
pub struct InterruptStubs {
    /// Vector 3.
    pub breakpoint: u64,
    /// Vector 6.
    pub invalid_opcode: u64,
    /// Vector 8.
    pub double_fault: u64,
    /// Vector 13.
    pub general_protection: u64,
    /// Vector 14.
    pub page_fault: u64,
    /// Vector 32.
    pub timer: u64,
    /// Every other vector.
    pub unimplemented: u64,
}

impl InterruptStubs {
    /// The stub that serves a vector.
    pub open spec fn spec_stub_for(self, vector: int) -> u64 {
        if vector == 3 {
            self.breakpoint
        } else if vector == 6 {
            self.invalid_opcode
        } else if vector == 8 {
            self.double_fault
        } else if vector == 13 {
            self.general_protection
        } else if vector == 14 {
            self.page_fault
        } else if vector == 32 {
            self.timer
        } else {
            self.unimplemented
        }
    }

    /// The stub that serves a vector.
    pub fn stub_for(&self, vector: usize) -> (stub: u64)
        ensures
            stub == self.spec_stub_for(vector as int),
    {
        if vector == 3 {
            self.breakpoint
        } else if vector == 6 {
            self.invalid_opcode
        } else if vector == 8 {
            self.double_fault
        } else if vector == 13 {
            self.general_protection
        } else if vector == 14 {
            self.page_fault
        } else if vector == 32 {
            self.timer
        } else {
            self.unimplemented
        }
    }
}

/// What a vector's descriptor holds: its stub, the given code segment, interrupt stack 2 for
/// the double fault and 1 for all others, open to ring 3 for the breakpoint only.
pub open spec fn gate_for(vector: int, segment_selector: u16, stubs: InterruptStubs) -> IdtDescriptor {
    IdtDescriptor::spec_new(
        segment_selector,
        if vector == 8 {
            2
        } else {
            1
        },
        if vector == 3 {
            IdtAttr::IntGateDPL3
        } else {
            IdtAttr::IntGateDPL0
        },
        stubs.spec_stub_for(vector),
    )
}

/// What the CPU is told to find a descriptor table: the table's last byte and its address.
#[derive(Debug, Clone, Copy, PartialEq, Eq, Structural)]
pub struct TableRegister {
    pub limit: u16,
    pub base: u64,
}

impl TableRegister {
    /// The 10 bytes that the CPU reads to load the register: the limit in 2
    /// bytes and the base in 8, least significant byte first.
    pub open spec fn spec_to_bytes(self) -> Seq<u8> {
        Seq::empty() + le_bytes(self.limit as nat, 2) + le_bytes(self.base as nat, 8)
    }

    /// The 10 bytes that the CPU reads to load the register.
    pub fn to_bytes(&self) -> (bytes: Vec<u8>)
        ensures
            bytes@ == self.spec_to_bytes(),
            bytes@.len() == 10,
    {
        let mut bytes: Vec<u8> = Vec::new();
        push_u16(&mut bytes, self.limit);
        push_u64(&mut bytes, self.base);
        proof {
            lemma_le_round_trip(self.limit as nat, 2);
            lemma_le_round_trip(self.base as nat, 8);
        }
        bytes
    }
}

/// The bytes of the first `n` descriptors, one after the other.
pub open spec fn descriptors_bytes(gates: Seq<IdtDescriptor>, n: nat) -> Seq<u8>
    decreases n,
{
    if n == 0 {
        Seq::empty()
    } else {
        descriptors_bytes(gates, (n - 1) as nat) + gates[n - 1].spec_to_bytes()
    }
}

/// The interrupt descriptor table.
pub struct Idt {
    entries: [IdtDescriptor; IDT_ENTRIES],
}

impl View for Idt {
    type V = Seq<IdtDescriptor>;

    closed spec fn view(&self) -> Seq<IdtDescriptor> {
        self.entries@
    }
}

impl Idt {
    /// Builds the table: 256 gates, each as `gate_for` gives it. Every vector
    /// starts with the stub for what is not implemented; the six vectors that
    /// the kernel handles get their own.
    pub fn new(segment_selector: u16, stubs: &InterruptStubs) -> (idt: Idt)
        ensures
            idt@.len() == IDT_ENTRIES,
            forall|vector: int|
                0 <= vector < IDT_ENTRIES ==> #[trigger] idt@[vector] == gate_for(
                    vector,
                    segment_selector,
                    *stubs,
                ),
    {
        let mut entries = [IdtDescriptor::new(
            segment_selector,
            1,
            IdtAttr::IntGateDPL0,
            stubs.unimplemented,
        ); IDT_ENTRIES];
        entries[3] = IdtDescriptor::new(segment_selector, 1, IdtAttr::IntGateDPL3, stubs.breakpoint);
        entries[6] = IdtDescriptor::new(segment_selector, 1, IdtAttr::IntGateDPL0, stubs.invalid_opcode);
        entries[8] = IdtDescriptor::new(segment_selector, 2, IdtAttr::IntGateDPL0, stubs.double_fault);
        entries[13] = IdtDescriptor::new(segment_selector, 1, IdtAttr::IntGateDPL0, stubs.general_protection);
        entries[14] = IdtDescriptor::new(segment_selector, 1, IdtAttr::IntGateDPL0, stubs.page_fault);
        entries[32] = IdtDescriptor::new(segment_selector, 1, IdtAttr::IntGateDPL0, stubs.timer);
        Idt { entries }
    }

    /// The descriptor of a vector, if the table has it.
    pub fn entry(&self, vector: usize) -> (gate: Option<IdtDescriptor>)
        ensures
            gate == (if vector < self@.len() {
                Some(self@[vector as int])
            } else {
                None
            }),
            self@.len() == IDT_ENTRIES,
    {
        if vector < IDT_ENTRIES {
            Some(self.entries[vector])
        } else {
            None
        }
    }

    /// The table as the CPU reads it: its descriptors, 16 bytes each, in the order of the vectors.
    pub fn to_bytes(&self) -> (bytes: Vec<u8>)
        ensures
            bytes@ == descriptors_bytes(self@, self@.len()),
            bytes@.len() == 16 * self@.len(),
    {
        let mut bytes: Vec<u8> = Vec::new();
        let mut vector: usize = 0;
        while vector < IDT_ENTRIES
            invariant
                vector <= IDT_ENTRIES,
                self.entries@.len() == IDT_ENTRIES,
                bytes@ == descriptors_bytes(self.entries@, vector as nat),
                bytes@.len() == 16 * vector,
            decreases IDT_ENTRIES - vector,
        {
            let mut gate = self.entries[vector].to_bytes();
            bytes.append(&mut gate);
            vector = vector + 1;
        }
        bytes
    }

    /// What to load into the CPU for a table of 256 gates of 16 bytes at `base`.
    pub fn register(&self, base: u64) -> (idtr: TableRegister)
        ensures
            idtr == (TableRegister { limit: 4095, base }),
    {
        TableRegister { limit: 4095, base }
    }
}

} // verus!
