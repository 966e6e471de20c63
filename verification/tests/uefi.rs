use wasabi::allocator::Allocator;
use wasabi::error::{Error, FirmwareCall};
use wasabi::uefi::{
    address_at, begin_exit_boot_services, exit_boot_services, graphics_output_protocol_guid, init_vram,
    total_line, Cursor, EfiBootServicesTable, EfiGraphicsOutputProtocol, EfiGraphicsOutputProtocolMode,
    EfiGraphicsOutputProtocolPixelInfo, EfiMemoryDescriptor, EfiMemoryType, EfiStatus, EfiSystemTable,
    ExitState, FirmwareAction, FirmwareEvent, Glyph, MemoryMapHolder, VramTextWriter,
};

fn descriptor_bytes(kind: u32, start: u64, pages: u64, stride: usize) -> Vec<u8> {
    let mut bytes = vec![0xEEu8; stride];
    bytes[0..4].copy_from_slice(&kind.to_le_bytes());
    bytes[4..8].copy_from_slice(&[0, 0, 0, 0]);
    bytes[8..16].copy_from_slice(&start.to_le_bytes());
    bytes[16..24].copy_from_slice(&0x1122_3344_5566_7788u64.to_le_bytes());
    bytes[24..32].copy_from_slice(&pages.to_le_bytes());
    bytes[32..40].copy_from_slice(&0xfu64.to_le_bytes());
    bytes
}

fn map_of(descriptors: &[(u32, u64, u64)], stride: usize) -> MemoryMapHolder {
    let mut buffer: Vec<u8> = Vec::new();
    for (kind, start, pages) in descriptors {
        buffer.extend(descriptor_bytes(*kind, *start, *pages, stride));
    }
    let mut holder = MemoryMapHolder::new();
    let size = buffer.len();
    assert_eq!(holder.get_memory_map(EfiStatus::Success, &buffer, size, 77, stride, 1), Ok(()));
    holder
}

#[test]
fn memory_map_sums() {
    let holder = map_of(
        &[(7, 0x10_0000, 100), (7, 0x100_0000, 200), (11, 0xF000_0000, 1000), (7, 0x1000_0000, 300)],
        48,
    );
    let mut total = 0;
    let mut it = holder.iter();
    while let Some(desc) = it.next() {
        if desc.memory_type() != EfiMemoryType::CONVENTIONAL_MEMORY {
            continue;
        }
        total += desc.number_of_pages();
    }
    assert_eq!(total, 600);
    assert_eq!(holder.total_conventional_pages(), 600);
    assert_eq!(600 * 4096 / 1024, 2400);
    assert_eq!(total_line(holder.total_conventional_pages()), "Total: 600 pages = 2 MiB 400 KiB");
}

#[test]
fn total_is_reported_in_mib_and_kib() {
    assert_eq!(total_line(0), "Total: 0 pages = 0 MiB 0 KiB");
    assert_eq!(total_line(1), "Total: 1 pages = 0 MiB 4 KiB");
    assert_eq!(total_line(249), "Total: 249 pages = 0 MiB 996 KiB");
    assert_eq!(total_line(250), "Total: 250 pages = 1 MiB 0 KiB");
    assert_eq!(total_line(600), "Total: 600 pages = 2 MiB 400 KiB");
    assert_eq!(total_line(32_000), "Total: 32000 pages = 128 MiB 0 KiB");
    assert_eq!(
        total_line(u64::MAX),
        format!("Total: {} pages = {} MiB {} KiB", u64::MAX, u64::MAX / 250, (u64::MAX % 250) * 4)
    );
}

#[test]
fn iterator_visits_size_over_stride_entries_in_order() {
    let holder = map_of(&[(1, 0x1000, 1), (2, 0x2000, 2), (3, 0x3000, 3), (4, 0x4000, 4), (7, 0x5000, 5)], 48);
    assert_eq!(holder.len(), 5);
    let mut it = holder.iter();
    let mut seen = Vec::new();
    while let Some(d) = it.next() {
        seen.push((d.physical_start, d.number_of_pages));
    }
    assert_eq!(seen, vec![(0x1000, 1), (0x2000, 2), (0x3000, 3), (0x4000, 4), (0x5000, 5)]);
    assert_eq!(it.next(), None);
    assert_eq!(holder.descriptors().len(), 5);
    assert_eq!(holder.get(4).map(|d| d.physical_start), Some(0x5000));
    assert_eq!(holder.get(5), None);
}

#[test]
fn a_last_part_shorter_than_the_stride_is_no_entry() {
    let mut buffer = descriptor_bytes(7, 0x1000, 1, 48);
    buffer.extend(descriptor_bytes(7, 0x2000, 1, 48));
    buffer.extend(vec![0u8; 47]);
    let mut holder = MemoryMapHolder::new();
    assert_eq!(holder.get_memory_map(EfiStatus::Success, &buffer, 48 * 2 + 47, 1, 48, 1), Ok(()));
    assert_eq!(holder.len(), 2);
    assert_eq!(holder.descriptors().len(), 2);
    // only what the firmware said it wrote counts
    assert_eq!(holder.get_memory_map(EfiStatus::Success, &buffer, 48, 1, 48, 1), Ok(()));
    assert_eq!(holder.len(), 1);
}

#[test]
fn new_holder_has_no_descriptors() {
    let holder = MemoryMapHolder::new();
    assert_eq!(holder.len(), 0);
    assert_eq!(holder.iter().next(), None);
    assert_eq!(holder.map_key(), 0);
    assert_eq!(holder.descriptor_size(), 0);
    assert_eq!(holder.total_conventional_pages(), 0);
}

#[test]
fn descriptor_fields_are_read_little_endian() {
    let bytes = descriptor_bytes(7, 0x0102_0304_0506_0708, 0x1112_1314_1516_1718, 40);
    let d = EfiMemoryDescriptor::decode(&bytes, 0);
    assert_eq!(
        d,
        EfiMemoryDescriptor {
            memory_type: EfiMemoryType::CONVENTIONAL_MEMORY,
            physical_start: 0x0102_0304_0506_0708,
            virtual_start: 0x1122_3344_5566_7788,
            number_of_pages: 0x1112_1314_1516_1718,
            attribute: 0xf,
        }
    );
    assert_eq!(d.memory_type(), EfiMemoryType::CONVENTIONAL_MEMORY);
    assert_eq!(d.number_of_pages(), 0x1112_1314_1516_1718);
}

#[test]
fn memory_kinds() {
    assert_eq!(EfiMemoryType::from_u32(0), Some(EfiMemoryType::RESERVED));
    assert_eq!(EfiMemoryType::from_u32(3), Some(EfiMemoryType::BOOT_SERVICES_CODE));
    assert_eq!(EfiMemoryType::from_u32(7), Some(EfiMemoryType::CONVENTIONAL_MEMORY));
    assert_eq!(EfiMemoryType::from_u32(14), Some(EfiMemoryType::PERSISTENT_MEMORY));
    assert_eq!(EfiMemoryType::from_u32(15), None);
    assert_eq!(EfiMemoryType::from_u32(0x8000_0000), None);
    assert!(EfiMemoryType::CONVENTIONAL_MEMORY.is_reusable());
    assert!(EfiMemoryType::BOOT_SERVICES_CODE.is_reusable());
    assert!(EfiMemoryType::BOOT_SERVICES_DATA.is_reusable());
    assert!(!EfiMemoryType::RUNTIME_SERVICES_DATA.is_reusable());
    assert!(!EfiMemoryType::MEMORY_MAPPED_IO.is_reusable());
    // a kind that is none of the fifteen reads as reserved
    let d = EfiMemoryDescriptor::decode(&descriptor_bytes(0x7000_0001, 0, 1, 40), 0);
    assert_eq!(d.memory_type, EfiMemoryType::RESERVED);
}

#[test]
fn memory_map_that_the_firmware_did_not_deliver() {
    let buffer = descriptor_bytes(7, 0x1000, 1, 48);
    let failed = Err(Error::FirmwareCallFailed(FirmwareCall::GetMemoryMap));
    let mut holder = map_of(&[(7, 0x9000, 9)], 48);
    assert_eq!(holder.get_memory_map(EfiStatus::Failure(5), &buffer, 48, 1, 48, 1), failed);
    assert_eq!(holder.get_memory_map(EfiStatus::Success, &buffer, 49, 1, 48, 1), failed);
    assert_eq!(holder.get_memory_map(EfiStatus::Success, &buffer, 48, 1, 39, 1), failed);
    assert_eq!(holder.get_memory_map(EfiStatus::Success, &buffer, 48, 1, 0, 1), failed);
    let large = vec![0u8; 0x8001];
    assert_eq!(holder.get_memory_map(EfiStatus::Success, &large, 0x8001, 1, 48, 1), failed);
    // the holder kept what it had
    assert_eq!(holder.map_key(), 77);
    assert_eq!(holder.get(0).map(|d| d.physical_start), Some(0x9000));
    assert_eq!(holder.get_memory_map(EfiStatus::Success, &large, 0x8000, 3, 40, 1), Ok(()));
    assert_eq!(holder.len(), 0x8000 / 40);
    assert_eq!(holder.map_key(), 3);
    assert_eq!(Error::FirmwareCallFailed(FirmwareCall::GetMemoryMap).message(), "Failed to get memory map");
}

#[test]
fn status_from_the_firmware() {
    assert_eq!(EfiStatus::from_raw(0), EfiStatus::Success);
    assert_eq!(EfiStatus::from_raw(0x8000_0000_0000_0002), EfiStatus::Failure(0x8000_0000_0000_0002));
    assert!(EfiStatus::Success.is_success());
    assert!(!EfiStatus::Failure(1).is_success());
}

#[test]
fn map_key_retry() {
    // the firmware refuses the first request to end the boot services
    let mut firmware_refusals = 1;
    let mut map_calls = 0;
    let mut exit_calls = 0;
    let (mut state, mut action) = begin_exit_boot_services();
    let mut steps = 0;
    loop {
        steps += 1;
        assert!(steps <= 8, "the hand-over did not end");
        let event = match action {
            FirmwareAction::GetMemoryMap => {
                map_calls += 1;
                FirmwareEvent::MemoryMap { status: EfiStatus::Success, map_key: 100 + map_calls }
            }
            FirmwareAction::ExitBootServices { map_key } => {
                exit_calls += 1;
                // the key is the one of the latest memory map
                assert_eq!(map_key, 100 + map_calls);
                if firmware_refusals > 0 {
                    firmware_refusals -= 1;
                    FirmwareEvent::ExitBootServices { status: EfiStatus::Failure(2) }
                } else {
                    FirmwareEvent::ExitBootServices { status: EfiStatus::Success }
                }
            }
            FirmwareAction::Done => break,
            FirmwareAction::Fail(e) => panic!("hand-over failed: {:?}", e),
        };
        let next = exit_boot_services(state, event);
        state = next.0;
        action = next.1;
    }
    assert_eq!(state, ExitState::Exited);
    assert_eq!(map_calls, 2);
    assert_eq!(exit_calls, 2);
}

#[test]
fn hand_over_fails_without_memory_map_and_on_stray_events() {
    let failed_map = FirmwareEvent::MemoryMap { status: EfiStatus::Failure(9), map_key: 0 };
    assert_eq!(
        exit_boot_services(ExitState::AwaitMemoryMap, failed_map),
        (ExitState::Failed, FirmwareAction::Fail(Error::FirmwareCallFailed(FirmwareCall::GetMemoryMap)))
    );
    let exited = FirmwareEvent::ExitBootServices { status: EfiStatus::Success };
    assert_eq!(
        exit_boot_services(ExitState::AwaitMemoryMap, exited),
        (ExitState::Failed, FirmwareAction::Fail(Error::FirmwareCallFailed(FirmwareCall::ExitBootServices)))
    );
    let map = FirmwareEvent::MemoryMap { status: EfiStatus::Success, map_key: 1 };
    for state in [ExitState::AwaitExit { map_key: 1 }, ExitState::Exited, ExitState::Failed] {
        assert_eq!(
            exit_boot_services(state, map),
            (ExitState::Failed, FirmwareAction::Fail(Error::FirmwareCallFailed(FirmwareCall::GetMemoryMap)))
        );
    }
    assert_eq!(exit_boot_services(ExitState::Exited, exited).0, ExitState::Failed);
    assert_eq!(exit_boot_services(ExitState::AwaitExit { map_key: 5 }, exited), (ExitState::Exited, FirmwareAction::Done));
}

fn protocol() -> EfiGraphicsOutputProtocol {
    EfiGraphicsOutputProtocol {
        mode: EfiGraphicsOutputProtocolMode {
            max_mode: 4,
            mode: 1,
            info: EfiGraphicsOutputProtocolPixelInfo {
                version: 0,
                horizontal_resolution: 800,
                vertical_resolution: 600,
                pixels_per_scan_line: 832,
            },
            size_of_info: 36,
            frame_buffer_base: 0x8000_0000,
            frame_buffer_size: 832 * 600 * 4,
        },
    }
}

#[test]
fn frame_buffer_of_the_graphics_mode() {
    let vram = init_vram(Ok(protocol())).unwrap();
    assert_eq!(vram.width, 800);
    assert_eq!(vram.height, 600);
    assert_eq!(vram.width(), 800);
    assert_eq!(vram.height(), 600);
    assert_eq!(vram.pixels_per_line(), 832);
    assert_eq!(vram.bytes_per_pixel(), 4);
    assert_eq!(vram.buf_mut(), 0x8000_0000);
    assert_eq!(
        init_vram(Err(EfiStatus::Failure(14))),
        Err(Error::FirmwareCallFailed(FirmwareCall::LocateProtocol))
    );
    assert_eq!(
        Error::FirmwareCallFailed(FirmwareCall::LocateProtocol).message(),
        "Failed to locate graphics output protocol"
    );
}

#[test]
fn pixels_outside_the_screen_are_out_of_range() {
    let vram = init_vram(Ok(protocol())).unwrap();
    assert_eq!(vram.pixel_index(0, 0), Ok(0));
    assert_eq!(vram.pixel_index(799, 0), Ok(799));
    assert_eq!(vram.pixel_index(0, 1), Ok(832));
    assert_eq!(vram.pixel_index(799, 599), Ok(599 * 832 + 799));
    assert_eq!(vram.pixel_index(800, 0), Err(Error::OutOfRange));
    assert_eq!(vram.pixel_index(0, 600), Err(Error::OutOfRange));
    assert_eq!(vram.pixel_index(-1, 0), Err(Error::OutOfRange));
    assert_eq!(vram.pixel_index(0, -1), Err(Error::OutOfRange));
    // a line that is shorter than what is visible bounds x, too
    let mut narrow = protocol();
    narrow.mode.info.pixels_per_scan_line = 640;
    let vram = init_vram(Ok(narrow)).unwrap();
    assert_eq!(vram.pixel_index(639, 1), Ok(640 + 639));
    assert_eq!(vram.pixel_index(640, 1), Err(Error::OutOfRange));
}

#[test]
fn text_writer_moves_the_cursor() {
    let vram = init_vram(Ok(protocol())).unwrap();
    let mut writer = VramTextWriter::new(&vram);
    assert_eq!(writer.position(), Cursor { x: 0, y: 0 });
    let glyphs = writer.write_str("ab\nc");
    assert_eq!(
        glyphs,
        vec![
            Glyph { x: 0, y: 0, color: 0xffffff, ch: 'a' },
            Glyph { x: 8, y: 0, color: 0xffffff, ch: 'b' },
            Glyph { x: 0, y: 16, color: 0xffffff, ch: 'c' },
        ]
    );
    assert_eq!(writer.position(), Cursor { x: 8, y: 16 });
    assert_eq!(writer.write_str("\n\n"), vec![]);
    assert_eq!(writer.position(), Cursor { x: 0, y: 48 });
    assert_eq!(writer.write_str(""), vec![]);
    // a character of several bytes is one glyph
    assert_eq!(writer.write_str("é"), vec![Glyph { x: 0, y: 48, color: 0xffffff, ch: 'é' }]);
    assert_eq!(writer.position(), Cursor { x: 8, y: 48 });
}

#[test]
fn heap_takes_the_conventional_memory_of_the_map() {
    // kernel image at 0x20_0000..0x30_0000
    let holder = map_of(
        &[
            (7, 0x10_0000, 16),      // conventional, 64 KiB
            (4, 0x40_0000, 100),     // boot services data: not taken
            (7, 0x28_0000, 256),     // overlaps the kernel image: not taken
            (7, 0x100_0000, 1024),   // conventional, 4 MiB
            (7, 0x50_0000, 0),       // empty: not taken
            (7, 0x100_1000, 1),      // overlaps a region that was taken: not taken
            (7, 0xFFFF_FFFF_FFFF_F000, 2), // reaches beyond the address space: not taken
            (7, 0, 2),               // starts at address 0: taken without its first page
            (7, 0, 1),               // nothing but the page at address 0: not taken
        ],
        48,
    );
    let mut heap = Allocator::new();
    heap.init_with_mmap(&holder, 0x20_0000, 0x30_0000);
    // the larger region is used first
    assert_eq!(heap.alloc_with_options(4096, 4096), Ok(0x100_0000));
    assert_eq!(heap.alloc_with_options(0x20_0000, 1), Ok(0x120_0000));
    assert_eq!(heap.alloc_with_options(0x20_0000, 1), Err(Error::OutOfMemory));
    // the large region is used up: the small one serves
    assert_eq!(heap.alloc_with_options(0x1_0000, 1), Ok(0x10_0000));
    // what is left is the second page of the region at address 0
    assert_eq!(heap.alloc_with_options(0x1000, 1), Ok(0x1000));
    assert_eq!(heap.alloc_with_options(1, 1), Err(Error::OutOfMemory));
}

#[test]
fn firmware_tables_are_read_at_their_offsets() {
    let mut system = vec![0u8; 104];
    system[96..104].copy_from_slice(&0x1122_3344_5566_7788u64.to_le_bytes());
    assert_eq!(EfiSystemTable::from_bytes(&system), Some(EfiSystemTable { boot_services: 0x1122_3344_5566_7788 }));
    assert_eq!(EfiSystemTable::from_bytes(&system[..103]), None);

    let mut services = vec![0u8; 328];
    services[56..64].copy_from_slice(&0xAAu64.to_le_bytes());
    services[232..240].copy_from_slice(&0xBBu64.to_le_bytes());
    services[320..328].copy_from_slice(&0xCC00_0000_0000_0001u64.to_le_bytes());
    assert_eq!(
        EfiBootServicesTable::from_bytes(&services),
        Some(EfiBootServicesTable {
            get_memory_map: 0xAA,
            exit_boot_services: 0xBB,
            locate_protocol: 0xCC00_0000_0000_0001,
        })
    );
    assert_eq!(EfiBootServicesTable::from_bytes(&services[..327]), None);

    let mut info = vec![0xEEu8; 36];
    info[0..4].copy_from_slice(&0u32.to_le_bytes());
    info[4..8].copy_from_slice(&1024u32.to_le_bytes());
    info[8..12].copy_from_slice(&768u32.to_le_bytes());
    info[32..36].copy_from_slice(&1056u32.to_le_bytes());
    let mut mode = vec![0u8; 40];
    mode[0..4].copy_from_slice(&5u32.to_le_bytes());
    mode[4..8].copy_from_slice(&2u32.to_le_bytes());
    mode[8..16].copy_from_slice(&0x7000u64.to_le_bytes());
    mode[16..24].copy_from_slice(&36u64.to_le_bytes());
    mode[24..32].copy_from_slice(&0x8000_0000u64.to_le_bytes());
    mode[32..40].copy_from_slice(&(1056u64 * 768 * 4).to_le_bytes());
    assert_eq!(EfiGraphicsOutputProtocolMode::info_address(&mode), Some(0x7000));
    let read = EfiGraphicsOutputProtocolMode::from_bytes(&mode, &info).unwrap();
    assert_eq!(read.max_mode, 5);
    assert_eq!(read.mode, 2);
    assert_eq!(read.size_of_info, 36);
    assert_eq!(read.frame_buffer_base, 0x8000_0000);
    assert_eq!(read.frame_buffer_size, 1056 * 768 * 4);
    assert_eq!(
        read.info,
        EfiGraphicsOutputProtocolPixelInfo {
            version: 0,
            horizontal_resolution: 1024,
            vertical_resolution: 768,
            pixels_per_scan_line: 1056,
        }
    );
    assert_eq!(EfiGraphicsOutputProtocolMode::from_bytes(&mode[..39], &info), None);
    assert_eq!(EfiGraphicsOutputProtocolMode::from_bytes(&mode, &info[..35]), None);
    let mut protocol = vec![0u8; 32];
    protocol[24..32].copy_from_slice(&0x6000u64.to_le_bytes());
    assert_eq!(EfiGraphicsOutputProtocol::mode_address(&protocol), Some(0x6000));
    assert_eq!(EfiGraphicsOutputProtocol::mode_address(&protocol[..31]), None);
    assert_eq!(address_at(&protocol, usize::MAX), None);

    let guid = graphics_output_protocol_guid();
    assert_eq!(
        guid.to_bytes(),
        vec![0xde, 0xa9, 0x42, 0x90, 0xdc, 0x23, 0x38, 0x4a, 0x96, 0xfb, 0x7a, 0xde, 0xd0, 0x80, 0x51, 0x6a]
    );
}
