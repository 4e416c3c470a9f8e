use std::cell::Cell;

use jonathan_os::interrupts::{PicInterruptIndex, PIC_1_OFFSET, PIC_2_OFFSET};
use jonathan_os::vga_buffer::{Color, ColorCode, Writer, BUFFER_HEIGHT, BUFFER_WIDTH};
use jonathan_os::{test_runner, QemuExitCode, Testable};

#[test]
fn pic_vectors_follow_offset() {
    assert_eq!(PIC_1_OFFSET, 32);
    assert_eq!(PIC_2_OFFSET, 40);
    assert_eq!(PicInterruptIndex::Timer.as_u8(), 32);
    assert_eq!(PicInterruptIndex::Keyboard.as_u8(), 33);
    assert_eq!(PicInterruptIndex::Timer.as_usize(), 32);
    assert_eq!(PicInterruptIndex::Keyboard.as_usize(), 33);
}

#[test]
fn color_code_packs_background_high() {
    assert_eq!(ColorCode::new(Color::Black, Color::Green), ColorCode(0x02));
    assert_eq!(ColorCode::new(Color::Blue, Color::White), ColorCode(0x1f));
    assert_eq!(ColorCode::new(Color::White, Color::Black), ColorCode(0xf0));
    assert_eq!(Color::Yellow.as_u8(), 14);
}

#[test]
fn qemu_exit_codes() {
    assert_eq!(QemuExitCode::Success.code(), 0x10);
    assert_eq!(QemuExitCode::Failed.code(), 0x11);
}

struct Counting<'a>(&'a Cell<u32>);

impl Testable for Counting<'_> {
    fn run(&self) {
        self.0.set(self.0.get() + 1);
    }
}

#[test]
fn test_runner_runs_every_test() {
    let count = Cell::new(0);
    let tests = [Counting(&count), Counting(&count), Counting(&count)];
    assert_eq!(test_runner(&tests), QemuExitCode::Success);
    assert_eq!(count.get(), 3);
}

fn writer() -> Writer {
    Writer::new(ColorCode::new(Color::Black, Color::Green))
}

#[test]
fn writer_writes_on_bottom_row() {
    let mut w = writer();
    w.write_string("ab");
    let last = BUFFER_HEIGHT - 1;
    assert_eq!(w.char_at(last, 0).ascii_char, b'a');
    assert_eq!(w.char_at(last, 1).ascii_char, b'b');
    assert_eq!(w.char_at(last, 1).color, ColorCode(0x02));
    assert_eq!(w.char_at(last, 2).ascii_char, b' ');
    assert_eq!(w.column(), 2);
}

#[test]
fn writer_newline_scrolls_up() {
    let mut w = writer();
    w.write_string("a\nb");
    let last = BUFFER_HEIGHT - 1;
    assert_eq!(w.char_at(last - 1, 0).ascii_char, b'a');
    assert_eq!(w.char_at(last, 0).ascii_char, b'b');
    assert_eq!(w.column(), 1);
}

#[test]
fn writer_wraps_full_row() {
    let mut w = writer();
    for _ in 0..BUFFER_WIDTH {
        w.write_byte(b'x');
    }
    assert_eq!(w.column(), BUFFER_WIDTH);
    w.write_byte(b'y');
    let last = BUFFER_HEIGHT - 1;
    assert_eq!(w.char_at(last - 1, BUFFER_WIDTH - 1).ascii_char, b'x');
    assert_eq!(w.char_at(last, 0).ascii_char, b'y');
    assert_eq!(w.char_at(last, 1).ascii_char, b' ');
}

#[test]
fn writer_replaces_unprintable_bytes() {
    let mut w = writer();
    w.write_string("\u{e9}~\t");
    let last = BUFFER_HEIGHT - 1;
    assert_eq!(w.char_at(last, 0).ascii_char, 0xfe);
    assert_eq!(w.char_at(last, 1).ascii_char, 0xfe);
    assert_eq!(w.char_at(last, 2).ascii_char, b'~');
    assert_eq!(w.char_at(last, 3).ascii_char, 0xfe);
}

#[test]
fn writer_top_row_lost_after_full_scroll() {
    let mut w = writer();
    w.write_byte(b'z');
    for _ in 0..BUFFER_HEIGHT {
        w.write_byte(b'\n');
    }
    for row in 0..BUFFER_HEIGHT {
        assert_eq!(w.char_at(row, 0).ascii_char, b' ');
    }
}
