use std::cell::Cell;

use rust_os::block::AllocError;
use rust_os::bump::{BumpAllocator, Dummy};
use rust_os::heap::heap_page_range;
use rust_os::interrupts::{InterruptIndex, PIC_1_OFFSET, PIC_2_OFFSET};
use rust_os::vga_buffer::{Color, ColorCode};
use rust_os::{test_runner, QemuExitCode, Testable};

#[test]
fn bump_allocates_upwards_and_aligned() {
    let mut bump = BumpAllocator::new();
    bump.init(0x1000, 64);
    assert_eq!(bump.allocate(3, 1), Ok(0x1000));
    assert_eq!(bump.allocate(8, 8), Ok(0x1008));
    assert_eq!(bump.allocate(49, 16), Err(AllocError::OutOfMemory));
    assert_eq!(bump.allocate(32, 16), Ok(0x1010));
    assert_eq!(bump.allocate(16, 1), Ok(0x1030));
    assert_eq!(bump.allocate(1, 1), Err(AllocError::OutOfMemory));
}

#[test]
fn bump_reclaims_only_when_all_are_returned() {
    let mut bump = BumpAllocator::new();
    bump.init(0x1000, 32);
    let a = bump.allocate(16, 1).unwrap();
    let b = bump.allocate(16, 1).unwrap();
    bump.deallocate(a, 16, 1);
    assert_eq!(bump.allocate(1, 1), Err(AllocError::OutOfMemory));
    bump.deallocate(b, 16, 1);
    assert_eq!(bump.allocate(32, 1), Ok(0x1000));
}

#[test]
fn bump_before_init_has_no_room() {
    let mut bump = BumpAllocator::new();
    assert!(!bump.initialized());
    assert_eq!(bump.allocate(1, 1), Err(AllocError::Uninitialized));
    assert_eq!(bump.allocate(0, 1), Err(AllocError::Uninitialized));
    assert_eq!(bump.allocate(0, 1), Err(AllocError::Uninitialized));
    bump.init(0x1000, 16);
    assert!(bump.initialized());
    assert_eq!(bump.allocate(0, 1), Ok(0x1000));
}

#[test]
fn bump_oversized_request_fails() {
    let mut bump = BumpAllocator::new();
    bump.init(0x1000, 64);
    assert_eq!(bump.allocate(65, 1), Err(AllocError::OutOfMemory));
    assert_eq!(bump.allocate(64, 1), Ok(0x1000));
}

#[test]
fn heap_pages_cover_the_region() {
    assert_eq!(heap_page_range(0x4444_4444_0000, 100 * 1024), (0x4444_4444_0000, 0x4444_4445_8000));
    assert_eq!(heap_page_range(0x1fff, 2), (0x1000, 0x2000));
    assert_eq!(heap_page_range(0x3000, 1), (0x3000, 0x3000));
}

#[test]
fn dummy_never_allocates() {
    let d = Dummy;
    assert_eq!(d.allocate(8, 8), Err(AllocError::OutOfMemory));
    assert_eq!(d.allocate(0, 1), Err(AllocError::OutOfMemory));
}

#[test]
fn interrupt_vectors_follow_the_primary_offset() {
    assert_eq!(PIC_1_OFFSET, 32);
    assert_eq!(PIC_2_OFFSET, 40);
    assert_eq!(InterruptIndex::Timer.as_u8(), 32);
    assert_eq!(InterruptIndex::Keyboard.as_u8(), 33);
    assert_eq!(InterruptIndex::Keyboard.as_usize(), 33);
}

#[test]
fn exit_codes() {
    assert_eq!(QemuExitCode::Success.code(), 0x10);
    assert_eq!(QemuExitCode::Failed.code(), 0x11);
}

#[test]
fn color_code_packs_background_high() {
    assert_eq!(ColorCode::new(Color::Yellow, Color::Black).0, 0x0e);
    assert_eq!(ColorCode::new(Color::White, Color::Blue).0, 0x1f);
    assert_eq!(ColorCode::new(Color::Black, Color::White).0, 0xf0);
    assert_eq!(Color::LightGray.as_u8(), 7);
}

struct Counted<'a> {
    runs: &'a Cell<u32>,
}

impl Testable for Counted<'_> {
    fn run(&self) {
        self.runs.set(self.runs.get() + 1);
    }
}

#[test]
fn runner_runs_each_test_once() {
    let runs = Cell::new(0);
    let tests = [Counted { runs: &runs }, Counted { runs: &runs }, Counted { runs: &runs }];
    assert_eq!(test_runner(&tests), QemuExitCode::Success);
    assert_eq!(runs.get(), 3);
    let none: [Counted; 0] = [];
    assert_eq!(test_runner(&none), QemuExitCode::Success);
}

use rust_os::vga_buffer::{ScreenChar, Writer, BUFFER_HEIGHT, BUFFER_WIDTH};

fn yellow() -> ColorCode {
    ColorCode::new(Color::Yellow, Color::Black)
}

fn bottom_row(w: &Writer) -> Vec<u8> {
    (0..BUFFER_WIDTH).map(|c| w.char_at(BUFFER_HEIGHT - 1, c).ascii_character).collect()
}

#[test]
fn writer_fills_the_bottom_row() {
    let mut w = Writer::new(yellow());
    w.write_string("Hello");
    assert_eq!(w.column_position(), 5);
    assert_eq!(&bottom_row(&w)[..6], b"Hello ");
    assert_eq!(
        w.char_at(BUFFER_HEIGHT - 1, 0),
        ScreenChar { ascii_character: b'H', color_code: yellow() }
    );
}

#[test]
fn writer_newline_scrolls_up() {
    let mut w = Writer::new(yellow());
    w.write_string("ab\ncd");
    assert_eq!(w.char_at(BUFFER_HEIGHT - 2, 0).ascii_character, b'a');
    assert_eq!(w.char_at(BUFFER_HEIGHT - 2, 1).ascii_character, b'b');
    assert_eq!(&bottom_row(&w)[..3], b"cd ");
    assert_eq!(w.column_position(), 2);
    assert_eq!(w.char_at(0, 0).ascii_character, b' ');
}

#[test]
fn writer_wraps_at_the_right_edge() {
    let mut w = Writer::new(yellow());
    for _ in 0..BUFFER_WIDTH {
        w.write_byte(b'x');
    }
    assert_eq!(w.column_position(), BUFFER_WIDTH);
    w.write_byte(b'y');
    assert_eq!(w.column_position(), 1);
    assert_eq!(w.char_at(BUFFER_HEIGHT - 2, BUFFER_WIDTH - 1).ascii_character, b'x');
    assert_eq!(&bottom_row(&w)[..2], b"y ");
}

#[test]
fn writer_shows_non_ascii_as_a_square() {
    let mut w = Writer::new(yellow());
    w.write_string("a\u{e9}\tb");
    // the two bytes of the accented letter and the tab become squares
    assert_eq!(&bottom_row(&w)[..5], &[b'a', 0xfe, 0xfe, 0xfe, b'b']);
}
