//! What the kernel prints: log lines, hex dumps, and the text sink that feeds
//! the serial line and the screen.

use vstd::prelude::*;
use vstd::string::StringExecFns;
use vstd::string::StrSliceExecFns;
use crate::error::Error;
use crate::text::{dec_digits, hex_padded, pad_right, push_dec_left, push_hex, repeat};
use crate::uefi::{cursor_after, glyphs_of, Cursor, Glyph, VramBufferInfo, VramTextWriter, GLYPH_HEIGHT, GLYPH_WIDTH};

verus! {

/// The severity of a log line.
#[derive(Debug, Clone, Copy, PartialEq, Eq, Structural)]
pub enum LogLevel {
    Info,
    Warn,
    Error,
}

impl LogLevel {
    /// The tag that starts a line of this severity.
    pub open spec fn spec_tag(self) -> Seq<char> {
        match self {
            LogLevel::Info => "[INFO]  "@,
            LogLevel::Warn => "[WARN]  "@,
            LogLevel::Error => "[ERROR] "@,
        }
    }

    /// The tag that starts a line of this severity.
    pub fn tag(&self) -> (tag: &'static str)
        ensures
            tag@ == self.spec_tag(),
    {
        match self {
            LogLevel::Info => "[INFO]  ",
            LogLevel::Warn => "[WARN]  ",
            LogLevel::Error => "[ERROR] ",
        }
    }
}

/// A log line: the tag of the severity, the place in the source as file and
/// line number, the latter filled with spaces to three characters, and the message.
pub open spec fn spec_log_line(level: LogLevel, file: Seq<char>, line: u32, message: Seq<char>) -> Seq<
    char,
> {
    Seq::empty() + level.spec_tag() + file + ":"@ + pad_right(dec_digits(line as nat), 3, ' ') + ": "@
        + message + "\n"@
}

/// The text of a log line for `message`, written at `line` of `file`.
pub fn log_line(level: LogLevel, file: &str, line: u32, message: &str) -> (text: String)
    ensures
        text@ == spec_log_line(level, file@, line, message@),
{
    let mut text = String::new();
    text.append(level.tag());
    text.append(file);
    text.append(":");
    push_dec_left(&mut text, line as u64, 3);
    text.append(": ");
    text.append(message);
    text.append("\n");
    text
}

/// The character that a dump shows for a byte: the byte itself from the space
/// up to `last`, a dot for any other.
pub open spec fn shown(byte: u8, last: u8) -> char {
    if 0x20 <= byte <= last {
        byte as char
    } else {
        '.'
    }
}

/// The first `n` bytes, each in two hexadecimal digits and a space.
pub open spec fn hex_columns(bytes: Seq<u8>, n: nat) -> Seq<char>
    decreases n,
{
    if n == 0 {
        Seq::empty()
    } else {
        hex_columns(bytes, (n - 1) as nat) + hex_padded(bytes[n - 1] as nat, 2, true) + " "@
    }
}

/// The first `n` bytes as characters.
pub open spec fn text_columns(bytes: Seq<u8>, n: nat, last: u8) -> Seq<char>
    decreases n,
{
    if n == 0 {
        Seq::empty()
    } else {
        text_columns(bytes, (n - 1) as nat, last).push(shown(bytes[n - 1], last))
    }
}

/// One line of a dump: the offset in eight hexadecimal digits, the bytes in
/// hexadecimal, filled up to sixteen columns, and the bytes as characters
/// between bars.
pub open spec fn dump_line(chunk: Seq<u8>, offset: nat, last: u8) -> Seq<char> {
    Seq::empty() + hex_padded(offset, 8, true) + ": "@ + hex_columns(chunk, chunk.len()) + repeat(
        ' ',
        (3 * (16 - chunk.len())) as nat,
    ) + "|"@ + text_columns(chunk, chunk.len(), last) + "|\n"@
}

/// The first `lines` full lines of a dump of `bytes`.
pub open spec fn dump_full_lines(bytes: Seq<u8>, lines: nat) -> Seq<char>
    decreases lines,
{
    if lines == 0 {
        Seq::empty()
    } else {
        dump_full_lines(bytes, (lines - 1) as nat) + dump_line(
            bytes.subrange(16 * (lines - 1), 16 * lines as int),
            (16 * (lines - 1)) as nat,
            0x7e,
        )
    }
}

/// The dump of `bytes`: sixteen bytes to a line. In full lines the characters up
/// to `~` are shown as they are; in a last line that is not full, those up to `tail_last`.
pub open spec fn spec_dump(bytes: Seq<u8>, tail_last: u8) -> Seq<char> {
    let full = bytes.len() / 16;
    if bytes.len() % 16 == 0 {
        dump_full_lines(bytes, full)
    } else {
        dump_full_lines(bytes, full) + dump_line(
            bytes.subrange(16 * full as int, bytes.len() as int),
            16 * full,
            tail_last,
        )
    }
}

/// Appends one line of a dump: the bytes from `from` to `to`.
fn push_dump_line(out: &mut String, bytes: &[u8], from: usize, to: usize, last: u8)
    requires
        from <= to <= bytes@.len(),
        to - from <= 16,
    ensures
        final(out)@ == old(out)@ + dump_line(bytes@.subrange(from as int, to as int), from as nat, last),
{
    let ghost chunk = bytes@.subrange(from as int, to as int);
    let mut line = String::new();
    push_hex(&mut line, from as u64, 8, true);
    line.append(": ");
    let ghost head = line@;
    let mut i: usize = from;
    while i < to
        invariant
            from <= i <= to <= bytes@.len(),
            chunk == bytes@.subrange(from as int, to as int),
            line@ == head + hex_columns(chunk, (i - from) as nat),
        decreases to - i,
    {
        assert(chunk[i - from] == bytes@[i as int]);
        push_hex(&mut line, bytes[i] as u64, 2, true);
        line.append(" ");
        i = i + 1;
        assert(line@ =~= head + hex_columns(chunk, (i - from) as nat));
    }
    let mut missing: usize = 16 - (to - from);
    crate::text::push_repeat(&mut line, ' ', 3 * missing);
    line.append("|");
    let ghost middle = line@;
    let mut i: usize = from;
    while i < to
        invariant
            from <= i <= to <= bytes@.len(),
            chunk == bytes@.subrange(from as int, to as int),
            line@ == middle + text_columns(chunk, (i - from) as nat, last),
        decreases to - i,
    {
        assert(chunk[i - from] == bytes@[i as int]);
        let b: u8 = bytes[i];
        let c: char = if 0x20 <= b && b <= last { b as char } else { '.' };
        line.push(c);
        i = i + 1;
        assert(line@ =~= middle + text_columns(chunk, (i - from) as nat, last));
    }
    line.append("|\n");
    assert(line@ =~= dump_line(chunk, from as nat, last));
    out.append(line.as_str());
}

/// Appends the dump of `bytes`.
fn push_dump(out: &mut String, bytes: &[u8], tail_last: u8)
    ensures
        final(out)@ == old(out)@ + spec_dump(bytes@, tail_last),
{
    let full: usize = bytes.len() / 16;
    let mut k: usize = 0;
    while k < full
        invariant
            k <= full,
            full == bytes@.len() / 16,
            bytes@.len() <= usize::MAX,
            out@ == old(out)@ + dump_full_lines(bytes@, k as nat),
        decreases full - k,
    {
        push_dump_line(out, bytes, 16 * k, 16 * k + 16, 0x7e);
        k = k + 1;
        assert(out@ =~= old(out)@ + dump_full_lines(bytes@, k as nat));
    }
    if bytes.len() % 16 != 0 {
        push_dump_line(out, bytes, 16 * full, bytes.len(), tail_last);
        assert(out@ =~= old(out)@ + spec_dump(bytes@, tail_last));
    }
}

/// The dump of `bytes` as the kernel prints it: in a last line that is not full
/// the character after `~` is shown as it is, too.
fn hexdump_bytes(bytes: &[u8]) -> (text: String)
    ensures
        text@ == spec_dump(bytes@, 0x7f),
{
    let mut text = String::new();
    push_dump(&mut text, bytes, 0x7f);
    assert(text@ =~= spec_dump(bytes@, 0x7f));
    text
}

/// The dump of the bytes of a value, as the kernel prints it.
pub fn hexdump(data: &[u8]) -> (text: String)
    ensures
        text@ == spec_dump(data@, 0x7f),
{
    hexdump_bytes(data)
}

/// Appends the dump of the bytes of a value to `writer`: sixteen bytes to a
/// line, with the offset, the bytes in hexadecimal, and the bytes as characters,
/// a dot for each that is not printable.
pub fn hexdump_to(data: &[u8], writer: &mut String)
    ensures
        final(writer)@ == old(writer)@ + spec_dump(data@, 0x7e),
{
    push_dump(writer, data, 0x7e);
}

/// What became of a text on the screen.
#[derive(Debug, PartialEq, Eq)]
pub enum Screen {
    /// The glyphs to draw: none while no frame buffer is registered.
    Drawn(Vec<Glyph>),
    /// The error that kept the text from the screen.
    Failed(Error),
    /// The sink stayed in use for as long as the call waited: the text did not
    /// reach the screen, and the screen's writer is as it was.
    Busy,
}

/// What one call of the sink sends out: the text for the serial line, and
/// what became of it on the screen.
pub struct PrintOutput {
    pub serial: String,
    pub screen: Screen,
}

/// How an attempt to register the frame buffer ended.
#[derive(Debug, Clone, Copy, PartialEq, Eq, Structural)]
pub enum Registration {
    Registered,
    /// A frame buffer was registered before; it stays.
    AlreadyRegistered,
    /// The sink stayed in use for as long as the attempt waited.
    Busy,
}

/// Whether a writer can take `chars` more characters without its cursor leaving the range of its coordinates.
pub open spec fn cursor_has_room(cursor: Cursor, chars: nat) -> bool {
    &&& 0 <= cursor.x
    &&& 0 <= cursor.y
    &&& cursor.x + GLYPH_WIDTH * chars <= i64::MAX
    &&& cursor.y + GLYPH_HEIGHT * chars <= i64::MAX
}

/// Registers the frame buffer with the sink's slot, which must be empty: a
/// sink takes one frame buffer, once. The slot holds a writer for the frame
/// buffer afterwards, with the cursor in the top left corner.
pub fn register_writer(slot: &mut Option<VramTextWriter>, vram: &VramBufferInfo)
    requires
        *old(slot) is None,
    ensures
        *final(slot) matches Some(w) && w.vram() == *vram && w.cursor() == (Cursor { x: 0, y: 0 }),
{
    *slot = Some(VramTextWriter::new(vram));
}

/// Registers the frame buffer with the sink's slot if the slot is empty, and
/// refuses if it holds a writer already: the first registration stays, with
/// its cursor where it stood.
pub fn register_in(slot: &mut Option<VramTextWriter>, vram: &VramBufferInfo) -> (r: Registration)
    ensures
        *old(slot) is None ==> r == Registration::Registered && (*final(slot) matches Some(w) && w.vram()
            == *vram && w.cursor() == (Cursor { x: 0, y: 0 })),
        *old(slot) is Some ==> r == Registration::AlreadyRegistered && *final(slot) == *old(slot),
{
    if slot.is_none() {
        register_writer(slot, vram);
        Registration::Registered
    } else {
        Registration::AlreadyRegistered
    }
}

/// Prints `text` through the sink's slot. The text goes to the serial line as
/// it is, whatever becomes of the screen. It goes to the screen if a frame
/// buffer is registered, through its writer; if the writer's cursor has no
/// room for the text, the screen fails with `OutOfRange` and the writer stays as
/// it was. The slot is at hand, so the screen is never `Busy`.
pub fn print_to(slot: &mut Option<VramTextWriter>, text: &str) -> (out: PrintOutput)
    ensures
        out.serial@ == text@,
        match *old(slot) {
            None => {
                &&& *final(slot) == *old(slot)
                &&& out.screen matches Screen::Drawn(glyphs) && glyphs@ == Seq::<Glyph>::empty()
            },
            Some(before) => if cursor_has_room(before.cursor(), text@.len()) {
                &&& out.screen matches Screen::Drawn(glyphs) && glyphs@ == glyphs_of(
                    before.cursor(),
                    text@,
                    text@.len(),
                )
                &&& *final(slot) matches Some(after) && after.vram() == before.vram() && after.cursor().x
                    == cursor_after(before.cursor(), text@, text@.len()).0 && after.cursor().y
                    == cursor_after(before.cursor(), text@, text@.len()).1
            } else {
                &&& out.screen matches Screen::Failed(e) && e == Error::OutOfRange
                &&& *final(slot) == *old(slot)
            },
        },
{
    let serial = String::from_str(text);
    match slot {
        None => PrintOutput { serial, screen: Screen::Drawn(Vec::new()) },
        Some(writer) => {
            let at = writer.position();
            let chars: usize = text.unicode_len();
            let fits_x = at.x >= 0 && (chars as u64) <= ((i64::MAX - at.x) / GLYPH_WIDTH) as u64;
            let fits_y = at.y >= 0 && (chars as u64) <= ((i64::MAX - at.y) / GLYPH_HEIGHT) as u64;
            if fits_x && fits_y {
                let glyphs = writer.write_str(text);
                PrintOutput { serial, screen: Screen::Drawn(glyphs) }
            } else {
                PrintOutput { serial, screen: Screen::Failed(Error::OutOfRange) }
            }
        },
    }
}

/// `spin::mutex::Mutex`: a lock around a value, taken by spinning.
#[verifier::external_type_specification]
#[verifier::external_body]
#[verifier::reject_recursive_types(T)]
#[verifier::reject_recursive_types(R)]
pub struct ExMutex<T: ?Sized, R>(spin::mutex::Mutex<T, R>);

/// `spin::mutex::MutexGuard`: the access to the value of a lock that is held.
#[verifier::external_type_specification]
#[verifier::external_body]
#[verifier::reject_recursive_types(T)]
pub struct ExMutexGuard<'a, T: 'a + ?Sized>(spin::mutex::MutexGuard<'a, T>);

/// `spin::relax::Spin`: the way in which a waiting lock passes its time.
#[verifier::external_type_specification]
#[verifier::external_body]
pub struct ExSpin(spin::relax::Spin);

/// `spin::mutex::Mutex::new` makes a lock around the given value. Nothing is claimed of it.
pub assume_specification<T, R>[ spin::mutex::Mutex::<T, R>::new ](value: T) -> (lock: spin::mutex::Mutex<
    T,
    R,
>)
;

/// `spin::mutex::Mutex::try_lock` takes the lock if no one holds it, without
/// waiting. Nothing is claimed of whether it does, nor of the value it gives access to.
pub assume_specification<T: ?Sized, R>[ spin::mutex::Mutex::<T, R>::try_lock ](
    lock: &spin::mutex::Mutex<T, R>,
) -> (guard: Option<spin::mutex::MutexGuard<'_, T>>)
;

/// `MutexGuard::deref_mut` gives the value behind a lock that is held. Nothing is claimed of the value.
pub assume_specification<'a, 'b, T: ?Sized>[ <spin::mutex::MutexGuard<'a, T> as core::ops::DerefMut>::deref_mut ](
    guard: &'b mut spin::mutex::MutexGuard<'a, T>,
) -> (value: &'b mut T)
;

/// `core::hint::spin_loop` tells the processor that the caller waits in a loop. It has no result.
pub assume_specification[ core::hint::spin_loop ]()
;

/// How often the sink tries to take its lock before it gives up.
pub const SPIN_LIMIT: u32 = 1000;

/// Takes the lock by spinning, for a short while: `None` if the lock did not
/// come free within `SPIN_LIMIT` tries.
fn acquire<'a>(lock: &'a spin::mutex::Mutex<Option<VramTextWriter>, spin::relax::Spin>) -> (guard: Option<
    spin::mutex::MutexGuard<'a, Option<VramTextWriter>>,
>) {
    let mut tries: u32 = 0;
    while tries < SPIN_LIMIT
        invariant
            tries <= SPIN_LIMIT,
        decreases SPIN_LIMIT - tries,
    {
        match lock.try_lock() {
            Some(guard) => {
                return Some(guard);
            },
            None => {
                core::hint::spin_loop();
            },
        }
        tries = tries + 1;
    }
    None
}

/// The text sink: one lock around the screen's writer.
pub struct GlobalPrinter {
    vram_writer: spin::mutex::Mutex<Option<VramTextWriter>, spin::relax::Spin>,
}

impl GlobalPrinter {
    /// A sink without a screen.
    pub fn new() -> (printer: GlobalPrinter) {
        GlobalPrinter { vram_writer: spin::mutex::Mutex::new(None) }
    }
}

/// Registers the frame buffer with the sink, so that what is printed from now
/// on appears on the screen, too. A sink takes one frame buffer, once: a second
/// registration is refused and leaves the first as it is. What is done with the
/// sink's slot, once the lock is held, is what `register_in` does; the attempt
/// is `Busy`, and nothing is registered, if the lock does not come free within
/// a short spin.
pub fn set_global_vram(printer: &GlobalPrinter, vram: VramBufferInfo) -> (r: Registration) {
    match acquire(&printer.vram_writer) {
        Some(mut guard) => {
            let slot: &mut Option<VramTextWriter> = &mut *guard;
            register_in(slot, &vram)
        },
        None => Registration::Busy,
    }
}

/// Prints `text` through the sink. The text always goes to the serial line. It
/// goes to the screen, as `print_to` sends it, if the sink's lock comes free
/// within a short spin: the glyphs are those that the text draws from where
/// the screen's cursor stood, none if no frame buffer is registered, and the
/// screen fails with `OutOfRange` if its writer has no room for the text. If
/// the lock stays taken the screen is `Busy`.
pub fn global_print(printer: &GlobalPrinter, text: &str) -> (out: PrintOutput)
    ensures
        out.serial@ == text@,
        out.screen matches Screen::Failed(e) ==> e == Error::OutOfRange,
        out.screen matches Screen::Drawn(glyphs) ==> glyphs@.len() == 0 || exists|cursor: Cursor|
            glyphs@ == #[trigger] glyphs_of(cursor, text@, text@.len()),
{
    match acquire(&printer.vram_writer) {
        Some(mut guard) => {
            let slot: &mut Option<VramTextWriter> = &mut *guard;
            let ghost before = *slot;
            let out = print_to(slot, text);
            proof {
                if let Some(writer) = before {
                    if cursor_has_room(writer.cursor(), text@.len()) {
                        assert(out.screen->Drawn_0@ == glyphs_of(writer.cursor(), text@, text@.len()));
                    }
                }
            }
            out
        },
        None => PrintOutput { serial: String::from_str(text), screen: Screen::Busy },
    }
}

} // verus!
