use wasabi::error::{Error, FirmwareCall};
use wasabi::hpet::{busy_sleep_done, deadline_after, Hpet};
use wasabi::init::{FailureSignal, InitSequence, InitStep};
use wasabi::qemu::{exit_qemu, QemuExitCode, EXIT_PORT};
use wasabi::test_runner::{finish, panic_line, pass_line, running_line, start_line};

#[test]
fn exit_codes() {
    let exit = exit_qemu(QemuExitCode::Success);
    assert_eq!(exit.message, format!("[EXIT] Sending exit code: {:?}\n", QemuExitCode::Success));
    assert_eq!(exit.port, 0xf4);
    assert_eq!(exit.value, 0x1);
    let exit = exit_qemu(QemuExitCode::Fail);
    assert_eq!(exit.message, "[EXIT] Sending exit code: Fail\n");
    assert_eq!(exit.port, EXIT_PORT);
    assert_eq!(exit.value, 0x2);
    assert_eq!(QemuExitCode::Success.host_exit_code(), 3);
    assert_eq!(QemuExitCode::Fail.host_exit_code(), 5);
    assert_eq!(QemuExitCode::Success.port_value(), 1);
}

#[test]
fn clock_counts_nanoseconds_since_boot() {
    // 10 MHz: 100 ns per tick
    let clock = Hpet::new(100_000_000, 1000);
    assert_eq!(clock.now_ns(1000), 0);
    assert_eq!(clock.now_ns(1001), 100);
    assert_eq!(clock.now_ns(1000 + 10_000_000), 1_000_000_000);
    // a counter value from before the boot counts as the boot
    assert_eq!(clock.now_ns(999), 0);
    // about 69.8 ns per tick: whole nanoseconds, rounded down
    let clock = Hpet::new(69_841_279, 0);
    assert_eq!(clock.now_ns(1), 69);
    assert_eq!(clock.now_ns(3), 209);
    assert_eq!(clock.now_ns(14_318_180), 1_000_000_004);
    // never more than the largest time
    let fast = Hpet::new(u32::MAX, 0);
    assert_eq!(fast.now_ns(u64::MAX), u64::MAX);
    assert_eq!(Hpet::new(0, 0).now_ns(12345), 0);
    let mut last = 0;
    for counter in [0u64, 1, 2, 100, 1 << 20, 1 << 40, 1 << 63, u64::MAX] {
        let now = clock.now_ns(counter);
        assert!(now >= last);
        last = now;
    }
}

#[test]
fn deadlines_saturate() {
    assert_eq!(deadline_after(100, 50), 150);
    assert_eq!(deadline_after(u64::MAX - 1, 50), u64::MAX);
    assert!(!busy_sleep_done(100, 50, 149));
    assert!(busy_sleep_done(100, 50, 150));
    assert!(busy_sleep_done(100, 0, 100));
    assert!(!busy_sleep_done(u64::MAX - 1, 50, u64::MAX - 1));
    assert!(busy_sleep_done(u64::MAX - 1, 50, u64::MAX));
}

#[test]
fn start_has_one_legal_order() {
    let order = [
        InitStep::LocateGraphics,
        InitStep::LocateAcpi,
        InitStep::CaptureMemoryMap,
        InitStep::ExitBootServices,
        InitStep::InitAllocator,
        InitStep::InstallDescriptorTables,
        InitStep::ActivatePaging,
        InitStep::InitTimer,
        InitStep::RegisterTextSink,
        InitStep::EnterExecutor,
    ];
    let mut sequence = InitSequence::new();
    for (i, step) in order.iter().enumerate() {
        assert_eq!(step.order() as usize, i + 1);
        assert_eq!(InitStep::at(i as u8 + 1), Some(*step));
        assert_eq!(sequence.next_step(), Some(*step));
        assert_eq!(sequence.firmware_available(), i < 4);
        assert_eq!(
            sequence.failure_signal(),
            if i < 9 { FailureSignal::QemuExitFail } else { FailureSignal::PrintThenHalt }
        );
        // every other step is refused
        for other in order.iter() {
            if other != step {
                assert!(!sequence.complete(*other));
                assert_eq!(sequence.done as usize, i);
            }
        }
        assert!(sequence.complete(*step));
        assert_eq!(sequence.done as usize, i + 1);
    }
    assert_eq!(sequence.next_step(), None);
    assert!(!sequence.firmware_available());
    assert_eq!(sequence.failure_signal(), FailureSignal::PrintThenHalt);
    for step in order {
        assert!(!sequence.complete(step));
    }
    assert_eq!(InitStep::at(0), None);
    assert_eq!(InitStep::at(11), None);
}

#[test]
fn harness_lines() {
    assert_eq!(start_line(2), "Running 2 tests...\n");
    assert_eq!(start_line(0), "Running 0 tests...\n");
    assert_eq!(running_line("wasabi::tests::malloc_align_test"), "[RUNNING] >>> wasabi::tests::malloc_align_test\n");
    assert_eq!(pass_line("malloc_dealloc_test"), "[PASS   ] <<< malloc_dealloc_test\n");
    assert_eq!(panic_line("boom"), "PANIC during test: boom\n");
    let (line, exit) = finish(true);
    assert_eq!(line, "All tests passed.\n");
    assert_eq!((exit.port, exit.value), (0xf4, 1));
    let (line, exit) = finish(false);
    assert_eq!(line, "");
    assert_eq!((exit.port, exit.value), (0xf4, 2));
}

#[test]
fn error_messages() {
    assert_eq!(Error::OutOfMemory.message(), "Out of memory");
    assert_eq!(Error::OutOfRange.message(), "Out of range");
    assert_eq!(Error::HardwareFault(14).message(), "fatal exception");
    assert_eq!(Error::FirmwareCallFailed(FirmwareCall::ExitBootServices).message(), "Failed to exit boot services");
}
