use wasabi::error::Error;
use wasabi::interrupt::{
    inthandler, GeneralRegisterContext, Idt, IdtAttr, IdtDescriptor, InterruptContext, InterruptInfo,
    InterruptStubs, PageFaultAccess, PageFaultCause, TableRegister, FRAME_SIZE,
};
use wasabi::qemu::QemuExitCode;

fn frame() -> InterruptInfo {
    InterruptInfo {
        greg: GeneralRegisterContext {
            rax: 0x1,
            rdx: 0x2,
            rbx: 0x3,
            rbp: 0x4,
            rsi: 0x5,
            rdi: 0x6,
            r8: 0x8,
            r9: 0x9,
            r10: 0x10,
            r11: 0x11,
            r12: 0x12,
            r13: 0x13,
            r14: 0x14,
            r15: 0x15,
            rcx: 0xc,
        },
        error_code: 0xec,
        ctx: InterruptContext { rip: 0xdead_beef, cs: 0x8, rflags: 0x202, rsp: 0xffff_8000_0000_1000, ss: 0x10 },
    }
}

fn frame_bytes(info: &InterruptInfo) -> Vec<u8> {
    let mut bytes = vec![0xAAu8; 512];
    bytes.extend([0x55u8; 8]);
    let g = &info.greg;
    for r in [g.rax, g.rdx, g.rbx, g.rbp, g.rsi, g.rdi, g.r8, g.r9, g.r10, g.r11, g.r12, g.r13, g.r14, g.r15, g.rcx] {
        bytes.extend(r.to_le_bytes());
    }
    bytes.extend(info.error_code.to_le_bytes());
    let c = &info.ctx;
    for r in [c.rip, c.cs, c.rflags, c.rsp, c.ss] {
        bytes.extend(r.to_le_bytes());
    }
    bytes
}

#[test]
fn frame_layout_agrees_with_the_entry_stubs() {
    let info = frame();
    let bytes = frame_bytes(&info);
    assert_eq!(bytes.len(), FRAME_SIZE);
    assert_eq!(FRAME_SIZE, 512 + 8 + 15 * 8 + 8 + 5 * 8);
    assert_eq!(InterruptInfo::from_bytes(&bytes), Some(info));
    assert_eq!(InterruptInfo::from_bytes(&bytes[..FRAME_SIZE - 1]), None);
    let mut long = bytes.clone();
    long.push(0);
    assert_eq!(InterruptInfo::from_bytes(&long), None);
    // a synthetic frame in memory, through the dispatcher
    let lines = inthandler(&InterruptInfo::from_bytes(&bytes).unwrap(), 3, 0, &[]).lines;
    assert_eq!(lines[2], "Breakpoint");
    assert!(lines[0].contains("rip: 0x00000000DEADBEEF"));
}

#[test]
fn frame_text() {
    let text = frame().format();
    let expected = "InterruptInfo {
    rip: 0x00000000DEADBEEF, CS: 0x0008,
    rsp: 0xFFFF800000001000, SS: 0x0010,
    rbp: 0x0000000000000004,
    rflags: 0x0000000000000202,
    error_code: 0x00000000000000EC,
    rax: 0x0000000000000001, rcx: 0x000000000000000C,
    rdx: 0x0000000000000002, rbx: 0x0000000000000003,
    rsi: 0x0000000000000005, rdi: 0x0000000000000006,
    r8:  0x0000000000000008, r9:  0x0000000000000009,
    r10: 0x0000000000000010, r11: 0x0000000000000011,
    r12: 0x0000000000000012, r13: 0x0000000000000013,
    r14: 0x0000000000000014, r15: 0x0000000000000015,
}";
    assert_eq!(text, expected);
    // a segment register wider than four digits is printed in full
    let mut wide = frame();
    wide.ctx.cs = 0x12345;
    assert!(wide.format().contains("CS: 0x12345,"));
}

#[test]
fn fatal_fault() {
    // a read of virtual address 0 in supervisor mode, page not present
    let mut info = frame();
    info.error_code = 0;
    let end = inthandler(&info, 14, 0, &[]);
    assert_eq!(end.fault, Error::HardwareFault(14));
    assert_eq!(end.fault.message(), "fatal exception");
    let lines = end.lines;
    assert_eq!(lines.len(), 5);
    assert_eq!(lines[0], format!("Interrupt Info: {}", info.format()));
    assert_eq!(lines[1], "Exception 0x0E: ");
    assert_eq!(lines[2], "Page Fault");
    assert_eq!(lines[3], "CR2=0x0000000000000000");
    assert!(lines[3].starts_with("CR2=0x0"));
    assert_eq!(
        lines[4],
        "Caused by: A supervisor mode data read on a non-present page, page structures are valid"
    );
    assert_eq!(PageFaultCause::decode(0).present, false);
    // the harness reports the failure to the host
    assert_eq!(QemuExitCode::Fail.host_exit_code(), 5);
}

#[test]
fn page_fault_causes() {
    assert_eq!(
        PageFaultCause::decode(0b0_0111),
        PageFaultCause { user: true, access: PageFaultAccess::DataWrite, present: true, reserved: false }
    );
    assert_eq!(
        PageFaultCause::decode(0b1_1010),
        PageFaultCause { user: false, access: PageFaultAccess::InstructionFetch, present: false, reserved: true }
    );
    assert_eq!(PageFaultCause::decode(0b0_0001).access, PageFaultAccess::DataRead);
    assert_eq!(
        PageFaultCause::decode(0b1_1111).describe(),
        "Caused by: A user mode instruction fetch on a present page, page structures are invalid"
    );
    assert_eq!(
        PageFaultCause::decode(0b0_0110).describe(),
        "Caused by: A user mode data write on a non-present page, page structures are valid"
    );
}

#[test]
fn dispatcher_lines_for_each_vector() {
    let info = frame();
    assert_eq!(inthandler(&info, 3, 0, &[]).lines[2], "Breakpoint");
    assert_eq!(inthandler(&info, 6, 0, &[]).lines[2], "Invalid Opcode");
    assert_eq!(inthandler(&info, 8, 0, &[]).lines[2], "Double Fault");
    assert_eq!(inthandler(&info, 32, 0, &[]).lines[2], "Not handled");
    assert_eq!(inthandler(&info, 0, 0, &[]).lines[1], "Exception 0x00: ");
    assert_eq!(inthandler(&info, 255, 0, &[]).lines[1], "Exception 0xFF: ");
    assert_eq!(inthandler(&info, 0x1234, 0, &[]).lines[1], "Exception 0x1234: ");
    assert_eq!(inthandler(&info, 3, 0, &[]).lines.len(), 3);
    // every vector ends in the fault of that vector, handled or not
    for index in [0u64, 3, 6, 8, 13, 14, 32, 255, 0x1234, u64::MAX] {
        assert_eq!(inthandler(&info, index, 0, &[]).fault, Error::HardwareFault(index));
    }
    let code = [0x0f, 0x0b, 0x90, 0xcc, 0, 1, 2, 3, 4, 5, 6, 7, 8, 9, 0xAB, 0xff];
    let lines = inthandler(&info, 13, 0, &code).lines;
    assert_eq!(lines.len(), 5);
    assert_eq!(lines[2], "General Protection Fault");
    assert_eq!(lines[3], "Bytes @ RIP(0x00000000DEADBEEF):");
    assert_eq!(lines[4], format!("  = {:02X?}", code));
    assert_eq!(inthandler(&info, 13, 0, &[]).lines[4], "  = []");
    assert_eq!(inthandler(&info, 13, 0, &[7]).lines[4], "  = [07]");
    let lines = inthandler(&info, 14, 0xFFFF_8000_1234_5678, &[]).lines;
    assert_eq!(lines[3], "CR2=0xFFFF800012345678");
}

fn stubs() -> InterruptStubs {
    InterruptStubs {
        breakpoint: 0x1000_0003,
        invalid_opcode: 0x1000_0006,
        double_fault: 0x1000_0008,
        general_protection: 0x1000_000d,
        page_fault: 0x1000_000e,
        timer: 0x1000_0020,
        unimplemented: 0xFFFF_8000_1234_5678,
    }
}

#[test]
fn idt_gates() {
    let stubs = stubs();
    let idt = Idt::new(8, &stubs);
    for vector in 0..256usize {
        let gate = idt.entry(vector).unwrap();
        assert_eq!(gate.segment_selector, 8);
        assert_eq!(gate.reserved, 0);
        assert_eq!(gate.ist_index, if vector == 8 { 2 } else { 1 });
        assert_eq!(gate.attr, if vector == 3 { IdtAttr::IntGateDPL3 } else { IdtAttr::IntGateDPL0 });
        let handler = match vector {
            3 => stubs.breakpoint,
            6 => stubs.invalid_opcode,
            8 => stubs.double_fault,
            13 => stubs.general_protection,
            14 => stubs.page_fault,
            32 => stubs.timer,
            _ => stubs.unimplemented,
        };
        assert_eq!(gate.offset(), handler);
        assert_eq!(stubs.stub_for(vector), handler);
    }
    assert_eq!(idt.entry(256), None);
    assert_eq!(idt.register(0x5000), TableRegister { limit: 4095, base: 0x5000 });
}

#[test]
fn gate_fields() {
    let gate = IdtDescriptor::new(0x10, 3, IdtAttr::IntGateDPL0, 0x1122_3344_5566_7788);
    assert_eq!(gate.offset_low, 0x7788);
    assert_eq!(gate.offset_mid, 0x5566);
    assert_eq!(gate.offset_high, 0x1122_3344);
    assert_eq!(gate.segment_selector, 0x10);
    assert_eq!(gate.ist_index, 3);
    assert_eq!(gate.offset(), 0x1122_3344_5566_7788);
    assert_eq!(IdtAttr::NotPresent.bits(), 0);
    assert_eq!(IdtAttr::IntGateDPL0.bits(), 0b1000_1110);
    assert_eq!(IdtAttr::IntGateDPL3.bits(), 0b1110_1110);
}

#[test]
fn descriptor_tables_as_the_cpu_reads_them() {
    let gate = IdtDescriptor::new(0x0008, 2, IdtAttr::IntGateDPL3, 0x1122_3344_5566_7788);
    assert_eq!(
        gate.to_bytes(),
        vec![0x88, 0x77, 0x08, 0x00, 0x02, 0xEE, 0x66, 0x55, 0x44, 0x33, 0x22, 0x11, 0, 0, 0, 0]
    );
    assert_eq!(
        TableRegister { limit: 4095, base: 0x0102_0304_0506_0708 }.to_bytes(),
        vec![0xff, 0x0f, 0x08, 0x07, 0x06, 0x05, 0x04, 0x03, 0x02, 0x01]
    );
    let stubs = stubs();
    let idt = Idt::new(8, &stubs);
    let bytes = idt.to_bytes();
    assert_eq!(bytes.len(), 4096);
    for vector in 0..256 {
        assert_eq!(&bytes[16 * vector..16 * vector + 16], &idt.entry(vector).unwrap().to_bytes()[..]);
    }
    assert_eq!(bytes[16 * 8 + 4], 2);
    assert_eq!(bytes[16 * 3 + 5], 0xEE);
    assert_eq!(bytes[16 * 14 + 5], 0x8E);
}
