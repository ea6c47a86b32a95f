use osirs::clock::{clock_on_scancode, clock_reading, show_time, time_text, ClockDisplay, ClockInput};
use osirs::keyboard::{next_key, InterruptIndex, Key, KeyDecoder, ScancodeQueue, PIC_1_OFFSET, PIC_2_OFFSET};
use osirs::message::{show_message, words_to_bytes};
use osirs::screen::Screen;
use osirs::wc::{count_bytes, count_lines, count_words, wc_counts};

#[test]
fn interrupt_vectors() {
    assert_eq!(PIC_1_OFFSET, 32);
    assert_eq!(PIC_2_OFFSET, 40);
    assert_eq!(InterruptIndex::Timer.as_u8(), 32);
    assert_eq!(InterruptIndex::Keyboard.as_u8(), 33);
    assert_eq!(InterruptIndex::Keyboard.as_usize(), 33);
}

#[test]
fn scancodes_come_out_in_order() {
    let mut q = ScancodeQueue::new();
    assert_eq!(q.pop_scancode(), None);
    assert!(q.push_scancode(0x1e));
    assert!(q.push_scancode(0x30));
    assert_eq!(q.pop_scancode(), Some(0x1e));
    assert_eq!(q.pop_scancode(), Some(0x30));
    assert_eq!(q.pop_scancode(), None);
}

#[test]
fn full_ring_drops_scancodes() {
    let mut q = ScancodeQueue::new();
    for i in 0..63u8 {
        assert!(q.push_scancode(i));
    }
    assert!(!q.push_scancode(200));
    assert_eq!(q.pop_scancode(), Some(0));
    assert!(q.push_scancode(201));
    let all = q.drain();
    let mut expected: Vec<u8> = (1..63u8).collect();
    expected.push(201);
    assert_eq!(all, expected);
    assert_eq!(q.pop_scancode(), None);
}

#[test]
fn ring_wraps_around() {
    let mut q = ScancodeQueue::new();
    for round in 0..200u32 {
        assert!(q.push_scancode(round as u8));
        assert!(q.push_scancode((round + 1) as u8));
        assert_eq!(q.pop_scancode(), Some(round as u8));
        assert_eq!(q.pop_scancode(), Some((round + 1) as u8));
    }
}

#[test]
fn clock_takes_six_digits() {
    let mut c = ClockInput::new();
    assert!(!c.on_key('x', 1));
    for (i, ch) in "23595".chars().enumerate() {
        assert!(c.on_key(ch, 10 + i));
        assert!(!c.running());
    }
    assert!(c.on_key('9', 77));
    assert!(c.running());
    assert_eq!(c.start_ticks(), 77);
    assert_eq!(c.digits(), &vec![2, 3, 5, 9, 5, 9]);
    assert!(!c.on_key('1', 80));
    assert_eq!(c.digits(), &vec![2, 3, 5, 9, 5, 9]);
}

#[test]
fn clock_reading_rolls_over_midnight() {
    let d = [2, 3, 5, 9, 5, 9];
    assert_eq!(clock_reading(&d, 100, 100), (23, 59, 59));
    assert_eq!(clock_reading(&d, 117, 100), (23, 59, 59));
    assert_eq!(clock_reading(&d, 118, 100), (0, 0, 0));
    assert_eq!(clock_reading(&[1, 2, 0, 0, 0, 0], 18 * 3661, 0), (13, 1, 1));
}

#[test]
fn clock_display_shows_each_second_once() {
    let d = [0, 0, 0, 0, 0, 0];
    let mut disp = ClockDisplay::new();
    let f = disp.step(false, 5, 0, &d);
    assert!(!f.clear_screen && f.time.is_none());
    let f = disp.step(true, 5, 5, &d);
    assert!(f.clear_screen);
    assert_eq!(f.time, Some((0, 0, 0)));
    let f = disp.step(true, 10, 5, &d);
    assert!(!f.clear_screen);
    assert_eq!(f.time, None);
    let f = disp.step(true, 23, 5, &d);
    assert_eq!(f.time, Some((0, 0, 1)));
}

#[test]
fn wc_counts_text() {
    let t: Vec<char> = "hello world\nfoo".chars().collect();
    assert_eq!(wc_counts(&t), (2, 3, 15));
    let e: Vec<char> = Vec::new();
    assert_eq!(wc_counts(&e), (0, 0, 0));
}

#[test]
fn wc_line_endings() {
    let a: Vec<char> = "a\n".chars().collect();
    let b: Vec<char> = "a".chars().collect();
    let c: Vec<char> = "\n\n".chars().collect();
    let d: Vec<char> = "a\r\nb\r\n".chars().collect();
    assert_eq!(count_lines(&a), 1);
    assert_eq!(count_lines(&b), 1);
    assert_eq!(count_lines(&c), 2);
    assert_eq!(count_lines(&d), 2);
}

#[test]
fn wc_unicode_whitespace_and_bytes() {
    let t: Vec<char> = "a\u{3000}b\u{a0} é \t\n".chars().collect();
    assert_eq!(count_words(&t), 3);
    assert_eq!(count_bytes(&t), "a\u{3000}b\u{a0} é \t\n".len());
    let s = "  \u{1F600}x  y ";
    let v: Vec<char> = s.chars().collect();
    assert_eq!(count_words(&v), 2);
    assert_eq!(count_bytes(&v), s.len());
    assert_eq!(count_words(&v), s.split_whitespace().count());
}

#[test]
fn words_spell_hello_world() {
    let words = [0x6C6C6548, 0x6F77206F, 0x21646C72];
    assert_eq!(words_to_bytes(&words), b"Hello world!".to_vec());
    let alt = [1819043144, 1870078063, 560229490];
    assert_eq!(words_to_bytes(&alt), b"Hello world!".to_vec());
    assert_eq!(words_to_bytes(&[-1]), vec![255, 255, 255, 255]);
}

#[test]
fn message_shows_top_left() {
    let mut s = Screen::new();
    show_message(&mut s, &[0x6C6C6548, 0x6F77206F, 0x21646C72]);
    assert_eq!(s.read_char(0, 0), b'H');
    assert_eq!(s.read_char(0, 11), b'!');
    assert_eq!(s.read_color(0, 11), 0x0f);
    assert_eq!(s.read_char(0, 12), 0);
}

#[test]
fn decoder_turns_scancodes_into_keys() {
    let mut d = KeyDecoder::new();
    assert!(matches!(d.decode(0x1E), Some(Key::Unicode('a'))));
    assert!(d.decode(0x9E).is_none());
    assert!(matches!(d.decode(0x02), Some(Key::Unicode('1'))));
    assert!(matches!(d.decode(0x2A), Some(Key::Raw(pc_keyboard::KeyCode::LShift, n)) if n == pc_keyboard::KeyCode::LShift as u8));
    assert!(matches!(d.decode(0x1E), Some(Key::Unicode('A'))));
}

#[test]
fn next_key_pops_and_decodes() {
    let mut q = ScancodeQueue::new();
    let mut d = KeyDecoder::new();
    assert!(next_key(&mut q, &mut d).is_none());
    q.push_scancode(0x23);
    q.push_scancode(0xA3);
    q.push_scancode(0x17);
    assert!(matches!(next_key(&mut q, &mut d), Some(Key::Unicode('h'))));
    assert!(next_key(&mut q, &mut d).is_none());
    assert!(!q.is_empty());
    assert!(matches!(next_key(&mut q, &mut d), Some(Key::Unicode('i'))));
    assert!(q.is_empty());
}

#[test]
fn clock_takes_digits_from_scancodes() {
    let mut c = ClockInput::new();
    let mut d = KeyDecoder::new();
    // '1' '2' press, '2' release, 'a' press, then '3' '4' '5' '6'
    assert_eq!(clock_on_scancode(&mut c, &mut d, 0x02, 1), Some('1'));
    assert_eq!(clock_on_scancode(&mut c, &mut d, 0x03, 2), Some('2'));
    assert_eq!(clock_on_scancode(&mut c, &mut d, 0x83, 3), None);
    assert_eq!(clock_on_scancode(&mut c, &mut d, 0x1E, 4), None);
    for (code, ch) in [(0x04, '3'), (0x05, '4'), (0x06, '5')] {
        assert_eq!(clock_on_scancode(&mut c, &mut d, code, 5), Some(ch));
    }
    assert!(!c.running());
    assert_eq!(clock_on_scancode(&mut c, &mut d, 0x07, 42), Some('6'));
    assert!(c.running());
    assert_eq!(c.start_ticks(), 42);
    assert_eq!(c.digits(), &vec![1, 2, 3, 4, 5, 6]);
    assert_eq!(clock_on_scancode(&mut c, &mut d, 0x08, 50), None);
}

#[test]
fn time_is_shown_in_place() {
    assert_eq!(time_text((9, 5, 30)), b"09:05:30".to_vec());
    let mut w = osirs::vga::Writer::new();
    w.write_str("\n\n");
    show_time(&mut w, (23, 59, 59));
    show_time(&mut w, (0, 0, 1));
    let row: Vec<u8> = (0..8).map(|c| w.screen().read_char(2, c)).collect();
    assert_eq!(row, b"00:00:01".to_vec());
    assert_eq!(w.row(), 2);
    assert_eq!(w.screen().read_char(3, 0), 0);
}

#[test]
fn raw_keys_carry_their_code() {
    let mut q = ScancodeQueue::new();
    let mut d = KeyDecoder::new();
    q.push_scancode(0x3A);
    match next_key(&mut q, &mut d) {
        Some(Key::Raw(code, n)) => {
            assert_eq!(code, pc_keyboard::KeyCode::CapsLock);
            assert_eq!(n, pc_keyboard::KeyCode::CapsLock as u8);
        }
        other => panic!("expected a raw key, got {:?}", other),
    }
}

#[test]
fn long_message_goes_on_next_row() {
    let mut s = Screen::new();
    let words = [0x41414141i32; 21];
    show_message(&mut s, &words);
    assert_eq!(s.read_char(0, 79), b'A');
    assert_eq!(s.read_char(1, 3), b'A');
    assert_eq!(s.read_char(1, 4), 0);
}
