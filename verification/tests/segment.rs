use wasabi::allocator::Allocator;
use wasabi::error::Error;
use wasabi::interrupt::{InterruptStubs, TableRegister};
use wasabi::segment::{
    init_exceptions, load_sequence, Gdt, GdtAttr, GdtSegmentDescriptor, GdtWrapper, LoadStep,
    TaskStateSegment64, TaskStateSegment64Descriptor, HANDLER_STACK_SIZE, KERNEL_CS, KERNEL_DS, TSS64_SEL,
};

fn heap() -> Allocator {
    let mut heap = Allocator::new();
    assert!(heap.add_region(0x100_0000, 0x200_0000));
    heap
}

#[test]
fn segment_descriptors() {
    assert_eq!(GdtSegmentDescriptor::null().value, 0);
    assert_eq!(GdtAttr::KernelCode.bits(), (0b11 << 43) | (1 << 47) | (1 << 53) | (1 << 41));
    assert_eq!(GdtAttr::KernelData.bits(), (0b10 << 43) | (1 << 47) | (1 << 41));
    assert_eq!(GdtSegmentDescriptor::new(GdtAttr::KernelCode).value, 0x0020_9A00_0000_0000);
    assert_eq!(GdtSegmentDescriptor::new(GdtAttr::KernelData).value, 0x0000_9200_0000_0000);
    assert_eq!(KERNEL_CS, 8);
    assert_eq!(KERNEL_DS, 16);
    assert_eq!(TSS64_SEL, 24);
}

#[test]
fn segment_descriptor_text() {
    for value in [0u64, 0x0020_9A00_0000_0000, u64::MAX, 0x1234] {
        assert_eq!(GdtSegmentDescriptor { value }.format(), format!("{:#18X}", value));
    }
}

#[test]
fn tss_descriptor_fields() {
    let d = TaskStateSegment64Descriptor::new(0x1122_3344_5566_7788);
    assert_eq!(d.limit_low, 103);
    assert_eq!(d.attr, 0x8089);
    assert_eq!(d.base_low, 0x7788);
    assert_eq!(d.base_mid_low, 0x66);
    assert_eq!(d.base_mid_high, 0x55);
    assert_eq!(d.base_high, 0x1122_3344);
    assert_eq!(d.reserved, 0);
    assert_eq!(d.base(), 0x1122_3344_5566_7788);
}

#[test]
fn tss_stacks_come_from_the_heap() {
    let mut heap = heap();
    let tss = TaskStateSegment64::new(&mut heap).unwrap();
    let size = HANDLER_STACK_SIZE as u64;
    assert_eq!(size, 64 * 1024);
    // eight stacks and the segment itself
    assert_eq!(heap.live_blocks(), 9);
    assert_eq!(tss.rsp(0), Some(0x100_0000 + size));
    assert_eq!(tss.rsp(1), Some(0));
    assert_eq!(tss.rsp(2), Some(0));
    assert_eq!(tss.rsp(3), None);
    assert_eq!(tss.ist(0), Some(0));
    let mut tops = vec![tss.rsp(0).unwrap()];
    for i in 1..8 {
        let top = tss.ist(i).unwrap();
        assert_eq!(top, 0x100_0000 + (i as u64 + 1) * size);
        tops.push(top);
    }
    assert_eq!(tss.ist(8), None);
    for (i, a) in tops.iter().enumerate() {
        for b in &tops[i + 1..] {
            assert!(a + size <= *b || b + size <= *a);
        }
    }
    assert_eq!(tss.phys_addr(), 0x100_0000 + 8 * size);
}

#[test]
fn tss_without_memory() {
    let mut heap = Allocator::new();
    assert!(TaskStateSegment64::new(&mut heap).is_err());
    // room for three stacks only
    let mut heap = Allocator::new();
    assert!(heap.add_region(0x100_0000, 0x103_0000));
    match TaskStateSegment64::new(&mut heap) {
        Err(e) => assert_eq!(e, Error::OutOfMemory),
        Ok(_) => panic!("built a task state segment without memory"),
    }
    assert_eq!(heap.live_blocks(), 3);
}

#[test]
fn gdt_names_the_tss() {
    let mut heap = heap();
    let bundle = GdtWrapper::new(&mut heap).unwrap();
    let gdt = bundle.gdt();
    assert_eq!(gdt, Gdt::new(bundle.tss().phys_addr()));
    assert_eq!(gdt.null_segment.value, 0);
    assert_eq!(gdt.kernel_code_segment.value, GdtAttr::KernelCode.bits());
    assert_eq!(gdt.kernel_data_segment.value, GdtAttr::KernelData.bits());
    assert_eq!(gdt.task_state_segment.base(), bundle.tss().phys_addr());
    assert_eq!(gdt.task_state_segment.limit_low, 103);
    let gdtr = bundle.register();
    assert_eq!(gdtr.limit, 39);
    assert_eq!(gdtr.base, bundle.tss().phys_addr() + 128);
    assert_eq!(heap.live_blocks(), 10);
}

#[test]
fn tables_are_loaded_in_one_order() {
    let gdtr = TableRegister { limit: 39, base: 0x1000 };
    let idtr = TableRegister { limit: 4095, base: 0x2000 };
    assert_eq!(
        load_sequence(gdtr, idtr),
        vec![
            LoadStep::LoadGdt(gdtr),
            LoadStep::WriteCs(8),
            LoadStep::WriteSs(16),
            LoadStep::WriteDs(16),
            LoadStep::WriteEs(16),
            LoadStep::WriteFs(16),
            LoadStep::WriteGs(16),
            LoadStep::LoadTr(24),
            LoadStep::LoadIdt(idtr),
        ]
    );
}

#[test]
fn exception_tables() {
    let stubs = InterruptStubs {
        breakpoint: 3,
        invalid_opcode: 6,
        double_fault: 8,
        general_protection: 13,
        page_fault: 14,
        timer: 32,
        unimplemented: 0xbad,
    };
    let mut heap = heap();
    let (gdt, idt) = init_exceptions(&mut heap, &stubs).unwrap();
    assert_eq!(gdt.gdt().task_state_segment.base(), gdt.tss().phys_addr());
    assert_eq!(idt.entry(14).unwrap().offset(), 14);
    assert_eq!(idt.entry(14).unwrap().segment_selector, KERNEL_CS);
    assert_eq!(idt.entry(100).unwrap().offset(), 0xbad);
    let mut empty = Allocator::new();
    assert!(init_exceptions(&mut empty, &stubs).is_err());
}

#[test]
fn segment_tables_as_the_cpu_reads_them() {
    assert_eq!(GdtSegmentDescriptor::new(GdtAttr::KernelCode).to_bytes(), vec![0, 0, 0, 0, 0, 0x9A, 0x20, 0]);
    let d = TaskStateSegment64Descriptor::new(0x1122_3344_5566_7788);
    assert_eq!(
        d.to_bytes(),
        vec![103, 0, 0x88, 0x77, 0x66, 0x89, 0x80, 0x55, 0x44, 0x33, 0x22, 0x11, 0, 0, 0, 0]
    );
    let gdt = Gdt::new(0x1122_3344_5566_7788);
    let bytes = gdt.to_bytes();
    assert_eq!(bytes.len(), 40);
    assert_eq!(&bytes[0..8], &[0u8; 8]);
    assert_eq!(&bytes[8..16], &GdtAttr::KernelCode.bits().to_le_bytes());
    assert_eq!(&bytes[16..24], &GdtAttr::KernelData.bits().to_le_bytes());
    assert_eq!(&bytes[24..40], &d.to_bytes()[..]);

    let mut heap = heap();
    let tss = TaskStateSegment64::new(&mut heap).unwrap();
    let bytes = tss.to_bytes();
    assert_eq!(bytes.len(), 104);
    assert_eq!(&bytes[0..4], &[0u8; 4]);
    assert_eq!(&bytes[4..12], &tss.rsp(0).unwrap().to_le_bytes());
    assert_eq!(&bytes[12..28], &[0u8; 16]);
    assert_eq!(&bytes[28..36], &[0u8; 8]);
    for i in 1..8 {
        assert_eq!(&bytes[28 + 8 * i..36 + 8 * i], &tss.ist(i).unwrap().to_le_bytes());
    }
    assert_eq!(&bytes[92..104], &[0u8; 12]);
}
