use riscvrogue::boot::{boot_seed, mix64};
use riscvrogue::devices::{
    is_virtio, is_wanted_device, slot_base, Claim, DeviceKind, DeviceScan, GraphicsInitError, DEVICE_ID_GPU,
    DEVICE_ID_INPUT, VIRTIO_MAGIC,
};
use riscvrogue::framebuffer::{fill_pixels, put_pixel, scroll_up, Rgb, TEXT_ROW_BYTES, VISIBLE_BYTES};
use riscvrogue::keyboard::{map_keycode, Keyboard, EV_KEY, KEY_PRESS, KEY_RELEASE, KEY_REPEAT};
use riscvrogue::serial::{needs_carriage_return, received_byte};
use riscvrogue::terminal::{get_param, Effects, Terminal, COLS, ROWS};

fn feed(t: &mut Terminal, bytes: &[u8]) -> Vec<Effects> {
    bytes.iter().map(|&b| t.feed_ansi(b)).collect()
}

fn drawn(fx: &[Effects]) -> Vec<(u8, usize, usize)> {
    fx.iter().filter_map(|e| e.draw).collect()
}

#[test]
fn terminal_draws_text_at_the_cursor() {
    let mut t = Terminal::new();
    let fx = feed(&mut t, b"AB");
    assert_eq!(drawn(&fx), vec![(b'A', 0, 0), (b'B', 1, 0)]);
    assert_eq!(t.cursor(), (2, 0));
    let fx = feed(&mut t, b"\nC");
    assert_eq!(drawn(&fx), vec![(b'C', 0, 1)]);
    assert!(fx.iter().all(|e| !e.clear && !e.scroll));
}

#[test]
fn terminal_clear_and_home() {
    let mut t = Terminal::new();
    feed(&mut t, b"hello\nworld");
    let fx = feed(&mut t, b"\x1b[2J");
    assert!(fx.last().unwrap().clear);
    assert_eq!(t.cursor(), (0, 0));
    // Any other mode of J does nothing.
    feed(&mut t, b"ab");
    let fx = feed(&mut t, b"\x1b[1J");
    assert!(fx.iter().all(|e| !e.clear && e.draw.is_none()));
    assert_eq!(t.cursor(), (2, 0));
}

#[test]
fn terminal_cursor_position() {
    let mut t = Terminal::new();
    feed(&mut t, b"\x1b[5;10H");
    assert_eq!(t.cursor(), (9, 4));
    feed(&mut t, b"\x1b[H");
    assert_eq!(t.cursor(), (0, 0));
    feed(&mut t, b"\x1b[999;999f");
    assert_eq!(t.cursor(), (COLS - 1, ROWS - 1));
    feed(&mut t, b"\x1b[;3H");
    assert_eq!(t.cursor(), (2, 0));
    // The private font escape selects a font and draws nothing.
    assert_eq!(t.font(), 0);
    let fx = feed(&mut t, b"\x1b[2z");
    assert!(fx.iter().all(|e| e.draw.is_none() && !e.clear));
    assert_eq!(t.cursor(), (2, 0));
    assert_eq!(t.font(), 2);
    feed(&mut t, b"\x1b[1z");
    assert_eq!(t.font(), 1);
    // A font that does not exist leaves the font alone; no number means 0.
    feed(&mut t, b"\x1b[7z");
    assert_eq!(t.font(), 1);
    feed(&mut t, b"\x1b[z");
    assert_eq!(t.font(), 0);
}

#[test]
fn terminal_wraps_and_scrolls() {
    let mut t = Terminal::new();
    let line = vec![b'x'; COLS];
    let fx = feed(&mut t, &line);
    assert_eq!(fx.last().unwrap().draw, Some((b'x', COLS - 1, 0)));
    assert_eq!(t.cursor(), (COLS, 0));
    let fx = feed(&mut t, b"y");
    assert_eq!(fx[0].draw, Some((b'y', 0, 1)));
    // Go to the last row; a line feed there scrolls.
    feed(&mut t, b"\x1b[50;1H");
    let fx = feed(&mut t, b"\n");
    assert!(fx[0].scroll);
    assert_eq!(t.cursor(), (0, ROWS - 1));
}

#[test]
fn terminal_control_bytes() {
    let mut t = Terminal::new();
    feed(&mut t, b"abc\t");
    assert_eq!(t.cursor(), (8, 0));
    feed(&mut t, b"\t");
    assert_eq!(t.cursor(), (16, 0));
    feed(&mut t, b"\x08");
    assert_eq!(t.cursor(), (15, 0));
    feed(&mut t, b"\r");
    assert_eq!(t.cursor(), (0, 0));
    feed(&mut t, b"\x08");
    assert_eq!(t.cursor(), (0, 0));
    // Other control bytes draw nothing.
    let fx = feed(&mut t, b"\x07\x01");
    assert!(fx.iter().all(|e| e.draw.is_none()));
    // ESC followed by anything but '[' returns to text.
    let fx = feed(&mut t, b"\x1bZq");
    assert_eq!(drawn(&fx), vec![(b'q', 0, 0)]);
    t.clear_screen();
    assert_eq!(t.cursor(), (0, 0));
}

#[test]
fn terminal_params() {
    let params = [5u16, 0, 7, 0];
    assert_eq!(get_param(&params, 3, 0, 1), 5);
    assert_eq!(get_param(&params, 3, 1, 1), 1);
    assert_eq!(get_param(&params, 3, 2, 1), 7);
    assert_eq!(get_param(&params, 3, 3, 9), 9);
    // Large numbers saturate.
    let mut t = Terminal::new();
    feed(&mut t, b"\x1b[99999999;2H");
    assert_eq!(t.cursor(), (1, ROWS - 1));
}

#[test]
fn keycodes() {
    assert_eq!(map_keycode(30, false), Some(b'a'));
    assert_eq!(map_keycode(30, true), Some(b'A'));
    assert_eq!(map_keycode(2, true), Some(b'!'));
    assert_eq!(map_keycode(11, false), Some(b'0'));
    assert_eq!(map_keycode(28, true), Some(b'\n'));
    assert_eq!(map_keycode(57, false), Some(b' '));
    assert_eq!(map_keycode(105, false), Some(b'h'));
    assert_eq!(map_keycode(103, false), Some(b'k'));
    assert_eq!(map_keycode(106, false), Some(b'l'));
    assert_eq!(map_keycode(108, false), Some(b'j'));
    assert_eq!(map_keycode(79, false), Some(b'1'));
    assert_eq!(map_keycode(73, true), Some(b'9'));
    assert_eq!(map_keycode(107, false), Some(b'1'));
    assert_eq!(map_keycode(104, false), Some(b'9'));
    assert_eq!(map_keycode(1, false), None);
    assert_eq!(map_keycode(42, false), None);
}

#[test]
fn keyboard_queue_is_fifo() {
    let mut k = Keyboard::new();
    assert_eq!(k.dequeue_key(), None);
    k.enqueue_key(b'a');
    k.enqueue_key(b'b');
    k.enqueue_key(b'c');
    assert_eq!(k.dequeue_key(), Some(b'a'));
    k.enqueue_key(b'd');
    assert_eq!(k.dequeue_key(), Some(b'b'));
    assert_eq!(k.dequeue_key(), Some(b'c'));
    assert_eq!(k.dequeue_key(), Some(b'd'));
    assert_eq!(k.dequeue_key(), None);
}

#[test]
fn keyboard_queue_holds_63_keys() {
    let mut k = Keyboard::new();
    for i in 0..100u8 {
        k.enqueue_key(i);
    }
    for i in 0..63u8 {
        assert_eq!(k.dequeue_key(), Some(i));
    }
    assert_eq!(k.dequeue_key(), None);
}

#[test]
fn keyboard_events() {
    let mut k = Keyboard::new();
    k.process_event(EV_KEY, 35, KEY_PRESS);
    k.process_event(EV_KEY, 35, KEY_RELEASE);
    k.process_event(EV_KEY, 42, KEY_PRESS);
    k.process_event(EV_KEY, 35, KEY_REPEAT);
    k.process_event(EV_KEY, 54, KEY_RELEASE);
    k.process_event(EV_KEY, 35, KEY_PRESS);
    // Not a key event.
    k.process_event(0x02, 35, KEY_PRESS);
    // An unmapped key.
    k.process_event(EV_KEY, 1, KEY_PRESS);
    assert_eq!(k.dequeue_key(), Some(b'h'));
    assert_eq!(k.dequeue_key(), Some(b'H'));
    assert_eq!(k.dequeue_key(), Some(b'h'));
    assert_eq!(k.dequeue_key(), None);
}

#[test]
fn framebuffer_fill_whole_pixels() {
    let mut fb = vec![7u8; 10];
    fill_pixels(&mut fb, Rgb { r: 1, g: 2, b: 3 });
    assert_eq!(fb, vec![3, 2, 1, 0xff, 3, 2, 1, 0xff, 7, 7]);
}

#[test]
fn framebuffer_put_pixel() {
    let mut fb = vec![0u8; 2 * 3 * 4];
    let c = Rgb { r: 0x10, g: 0x20, b: 0x30 };
    put_pixel(&mut fb, 2, 3, 1, 2, c);
    assert_eq!(&fb[20..24], &[0x30, 0x20, 0x10, 0xff]);
    assert!(fb[..20].iter().all(|&b| b == 0));
    // Off the picture: nothing changes.
    let before = fb.clone();
    put_pixel(&mut fb, 2, 3, 2, 0, c);
    put_pixel(&mut fb, 2, 3, -1, 0, c);
    put_pixel(&mut fb, 2, 3, 0, 3, c);
    assert_eq!(fb, before);
}

#[test]
fn framebuffer_scroll() {
    let mut fb: Vec<u8> = (0..VISIBLE_BYTES + 3).map(|i| (i % 251) as u8).collect();
    let before = fb.clone();
    scroll_up(&mut fb, Rgb { r: 9, g: 8, b: 7 });
    assert_eq!(fb[0], before[TEXT_ROW_BYTES]);
    assert_eq!(fb[12345], before[12345 + TEXT_ROW_BYTES]);
    let last = VISIBLE_BYTES - TEXT_ROW_BYTES;
    assert_eq!(fb[last - 1], before[VISIBLE_BYTES - 1]);
    assert_eq!(&fb[last..last + 8], &[7, 8, 9, 0xff, 7, 8, 9, 0xff]);
    assert_eq!(&fb[VISIBLE_BYTES - 4..VISIBLE_BYTES], &[7, 8, 9, 0xff]);
    assert_eq!(&fb[VISIBLE_BYTES..], &before[VISIBLE_BYTES..]);
}

#[test]
fn device_scan_takes_first_of_each() {
    assert_eq!(slot_base(0), 0x1000_1000);
    assert_eq!(slot_base(7), 0x1000_8000);
    assert!(is_virtio(VIRTIO_MAGIC));
    assert!(is_virtio(0x7472_6976));
    assert!(!is_virtio(0));
    assert!(is_wanted_device(DEVICE_ID_GPU));
    assert!(is_wanted_device(DEVICE_ID_INPUT));
    assert!(!is_wanted_device(2));

    let mut scan = DeviceScan::new();
    assert!(matches!(scan.finish(), Err(GraphicsInitError::MissingGpu)));
    assert!(scan.claim(0, DeviceKind::Other) == Claim::Ignore);
    assert!(scan.claim(1, DeviceKind::Input) == Claim::Input);
    assert!(matches!(scan.finish(), Err(GraphicsInitError::MissingGpu)));
    assert!(scan.claim(2, DeviceKind::Input) == Claim::Ignore);
    assert!(!scan.complete());
    assert!(scan.claim(3, DeviceKind::Gpu) == Claim::Gpu);
    assert!(scan.claim(4, DeviceKind::Gpu) == Claim::Ignore);
    assert!(scan.complete());
    assert!(matches!(scan.finish(), Ok((3, 1))));

    let mut only_gpu = DeviceScan::new();
    only_gpu.claim(5, DeviceKind::Gpu);
    assert!(matches!(only_gpu.finish(), Err(GraphicsInitError::MissingKeyboard)));
}

#[test]
fn serial_console_bytes() {
    assert_eq!(received_byte(usize::MAX), None);
    assert_eq!(received_byte(0x41), Some(b'A'));
    assert_eq!(received_byte(0x141), Some(b'A'));
    assert_eq!(received_byte(0), Some(0));
    assert!(needs_carriage_return(b'\n'));
    assert!(!needs_carriage_return(b'\r'));
    assert!(!needs_carriage_return(b'a'));
}

#[test]
fn boot_seed_mixing() {
    assert_eq!(mix64(0), 0);
    assert_eq!(mix64(1), 0x5692_161d_100b_05e5);
    assert_eq!(mix64(0x1234), 0xbbab_031d_6fc0_f336);
    assert_eq!(boot_seed(1, 0x8700_0000, 5), 0xe77e_4cb9_7bdd_0c8c);
    assert_eq!(boot_seed(0, 0, 0), 0);
    assert_ne!(boot_seed(0, 0, 1), boot_seed(1, 0, 1));
}
