use wasabi::error::Error;
use wasabi::print::{
    global_print, hexdump, hexdump_to, log_line, print_to, register_in, register_writer, set_global_vram,
    GlobalPrinter, LogLevel, Registration, Screen,
};
use wasabi::uefi::{Cursor, Glyph, VramBufferInfo, VramTextWriter};

fn vram() -> VramBufferInfo {
    VramBufferInfo { buf: 0x8000_0000, width: 800, height: 600, pixels_per_line: 800 }
}

#[test]
fn log_lines() {
    assert_eq!(log_line(LogLevel::Info, "src/main.rs", 7, "info"), "[INFO]  src/main.rs:7  : info\n");
    assert_eq!(log_line(LogLevel::Warn, "src/main.rs", 42, "warn"), "[WARN]  src/main.rs:42 : warn\n");
    assert_eq!(log_line(LogLevel::Error, "src/x86.rs", 652, "error"), "[ERROR] src/x86.rs:652: error\n");
    assert_eq!(log_line(LogLevel::Error, "a.rs", 1234, ""), "[ERROR] a.rs:1234: \n");
    assert_eq!(
        log_line(LogLevel::Info, "f", 5, "x"),
        format!("[INFO]  {}:{:<3}: {}\n", "f", 5, "x")
    );
}

fn expected_dump(bytes: &[u8], tail_last: u8) -> String {
    let mut out = String::new();
    for (k, chunk) in bytes.chunks(16).enumerate() {
        out += &format!("{:08X}: ", k * 16);
        for b in chunk {
            out += &format!("{:02X} ", b);
        }
        for _ in chunk.len()..16 {
            out += "   ";
        }
        out += "|";
        let last = if chunk.len() == 16 { 0x7e } else { tail_last };
        for b in chunk {
            out.push(if (0x20..=last).contains(b) { *b as char } else { '.' });
        }
        out += "|\n";
    }
    out
}

#[test]
fn hex_dump_of_a_full_and_a_partial_line() {
    let bytes: Vec<u8> = (0x41u8..0x41 + 19).collect();
    let text = hexdump(&bytes);
    assert_eq!(
        text,
        "00000000: 41 42 43 44 45 46 47 48 49 4A 4B 4C 4D 4E 4F 50 |ABCDEFGHIJKLMNOP|\n\
         00000010: 51 52 53                                        |QRS|\n"
    );
    let mut out = String::from("dump:\n");
    hexdump_to(&bytes, &mut out);
    assert_eq!(out, format!("dump:\n{}", text));
}

#[test]
fn hex_dump_shows_a_dot_for_what_is_not_printable() {
    let bytes: Vec<u8> = (0u8..=255).collect();
    assert_eq!(hexdump(&bytes), expected_dump(&bytes, 0x7f));
    let mut out = String::new();
    hexdump_to(&bytes, &mut out);
    assert_eq!(out, expected_dump(&bytes, 0x7e));
    assert!(out.contains("|pqrstuvwxyz{|}~.|"));
    assert!(out.starts_with("00000000: 00 01 02"));
    assert!(out.contains("|................|\n00000020: 20 21"));
    assert_eq!(hexdump(&[]), "");
    // the byte after the tilde: a dot in a full line, itself in a last line that is not full
    assert_eq!(hexdump(&[0x7f; 16]), format!("00000000: {}|................|\n", "7F ".repeat(16)));
    assert_eq!(hexdump(&[0x7f]), format!("00000000: 7F {}|\u{7f}|\n", "   ".repeat(15)));
    let mut out = String::new();
    hexdump_to(&[0x7f], &mut out);
    assert_eq!(out, format!("00000000: 7F {}|.|\n", "   ".repeat(15)));
}

#[test]
fn hex_dump_counts_the_offset_in_hexadecimal() {
    let bytes = vec![0x20u8; 0x1000 + 5];
    let text = hexdump(&bytes);
    assert_eq!(text, expected_dump(&bytes, 0x7f));
    assert!(text.contains("\n00000FF0: "));
    assert!(text.ends_with("00001000: 20 20 20 20 20                                  |     |\n"));
}

#[test]
fn sink_slot_prints_to_serial_and_screen() {
    let mut slot: Option<VramTextWriter> = None;
    let out = print_to(&mut slot, "before\n");
    assert_eq!(out.serial, "before\n");
    assert_eq!(out.screen, Screen::Drawn(vec![]));
    assert!(slot.is_none());
    register_writer(&mut slot, &vram());
    assert_eq!(slot.as_ref().unwrap().position(), Cursor { x: 0, y: 0 });
    let out = print_to(&mut slot, "a\nb");
    assert_eq!(out.serial, "a\nb");
    assert_eq!(
        out.screen,
        Screen::Drawn(vec![
            Glyph { x: 0, y: 0, color: 0xffffff, ch: 'a' },
            Glyph { x: 0, y: 16, color: 0xffffff, ch: 'b' }
        ])
    );
    assert_eq!(slot.as_ref().unwrap().position(), Cursor { x: 8, y: 16 });
    let out = print_to(&mut slot, "");
    assert_eq!(out.serial, "");
    assert_eq!(out.screen, Screen::Drawn(vec![]));
}

#[test]
fn global_sink_prints_to_serial_and_screen() {
    let printer = GlobalPrinter::new();
    let out = global_print(&printer, "no screen yet");
    assert_eq!(out.serial, "no screen yet");
    assert_eq!(out.screen, Screen::Drawn(vec![]));
    assert_eq!(set_global_vram(&printer, vram()), Registration::Registered);
    let out = global_print(&printer, "Hi");
    assert_eq!(out.serial, "Hi");
    assert_eq!(
        out.screen,
        Screen::Drawn(vec![
            Glyph { x: 0, y: 0, color: 0xffffff, ch: 'H' },
            Glyph { x: 8, y: 0, color: 0xffffff, ch: 'i' }
        ])
    );
    let out = global_print(&printer, "!\n");
    assert_ne!(out.screen, Screen::Failed(Error::OutOfRange));
    assert_eq!(out.screen, Screen::Drawn(vec![Glyph { x: 16, y: 0, color: 0xffffff, ch: '!' }]));
    assert_eq!(
        global_print(&printer, "x").screen,
        Screen::Drawn(vec![Glyph { x: 0, y: 16, color: 0xffffff, ch: 'x' }])
    );
}

#[test]
fn second_registration_is_refused_and_keeps_the_first() {
    let printer = GlobalPrinter::new();
    assert_eq!(set_global_vram(&printer, vram()), Registration::Registered);
    assert!(matches!(global_print(&printer, "ab").screen, Screen::Drawn(glyphs) if glyphs.len() == 2));
    let other = VramBufferInfo { buf: 0x9000_0000, width: 640, height: 480, pixels_per_line: 640 };
    assert_eq!(set_global_vram(&printer, other), Registration::AlreadyRegistered);
    assert_eq!(set_global_vram(&printer, vram()), Registration::AlreadyRegistered);
    // the first writer is as it was: its cursor stands behind what was printed
    assert_eq!(
        global_print(&printer, "c").screen,
        Screen::Drawn(vec![Glyph { x: 16, y: 0, color: 0xffffff, ch: 'c' }])
    );
}

#[test]
fn slot_takes_one_frame_buffer_once() {
    let mut slot: Option<VramTextWriter> = None;
    assert_eq!(register_in(&mut slot, &vram()), Registration::Registered);
    assert_eq!(slot.as_ref().unwrap().position(), Cursor { x: 0, y: 0 });
    let out = print_to(&mut slot, "abc");
    assert!(matches!(out.screen, Screen::Drawn(glyphs) if glyphs.len() == 3));
    let other = VramBufferInfo { buf: 0x9000_0000, width: 640, height: 480, pixels_per_line: 640 };
    assert_eq!(register_in(&mut slot, &other), Registration::AlreadyRegistered);
    // the writer of the first registration stays, with its cursor
    assert_eq!(slot.as_ref().unwrap().position(), Cursor { x: 24, y: 0 });
    assert_eq!(
        print_to(&mut slot, "d").screen,
        Screen::Drawn(vec![Glyph { x: 24, y: 0, color: 0xffffff, ch: 'd' }])
    );
}
