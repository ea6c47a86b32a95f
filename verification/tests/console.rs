use osirs::graphics::{colors, image, Color, Writer as Painter};
use osirs::vga::Writer;
use osirs::vga_line::Writer as LineWriter;
use osirs::screen::Screen;

#[test]
fn console_writes_at_cursor() {
    let mut w = Writer::new();
    w.write_str("Hi");
    assert_eq!(w.screen().read_char(0, 0), b'H');
    assert_eq!(w.screen().read_char(0, 1), b'i');
    assert_eq!(w.screen().read_color(0, 1), 0x0f);
}

#[test]
fn console_newline_moves_down() {
    let mut w = Writer::new();
    w.write_str("a\nb");
    assert_eq!(w.screen().read_char(0, 0), b'a');
    assert_eq!(w.screen().read_char(1, 0), b'b');
}

#[test]
fn console_wraps_full_line() {
    let mut w = Writer::new();
    for _ in 0..80 {
        w.write_byte(b'x');
    }
    w.write_byte(b'y');
    assert_eq!(w.screen().read_char(0, 79), b'x');
    assert_eq!(w.screen().read_char(1, 0), b'y');
}

#[test]
fn console_scrolls_keeping_colours() {
    let mut w = Writer::new();
    for i in 0..25u8 {
        w.write_byte(b'A' + i);
        w.write_byte(b'\n');
    }
    // 25 newlines from row 0: the last one scrolled once
    assert_eq!(w.screen().read_char(0, 0), b'B');
    assert_eq!(w.screen().read_color(0, 0), 0x0f);
    assert_eq!(w.screen().read_char(23, 0), b'Y');
    assert_eq!(w.screen().read_char(24, 0), b' ');
    assert_eq!(w.screen().read_color(24, 0), 0x0f);
    w.write_byte(b'Z');
    assert_eq!(w.screen().read_char(24, 0), b'Z');
}

#[test]
fn line_writer_wraps_to_first_column() {
    let mut w = LineWriter::new();
    for _ in 0..80 {
        w.write_byte(b'a');
    }
    w.write_str("bc\nd");
    assert_eq!(w.screen().read_char(0, 0), b'd');
    assert_eq!(w.screen().read_char(0, 1), b'c');
    assert_eq!(w.screen().read_char(0, 2), b'a');
    assert_eq!(w.screen().read_char(1, 0), 0);
}

#[test]
fn color_from_wraps_modulo_sixteen() {
    assert_eq!(Color::from(0), Color::Black);
    assert_eq!(Color::from(15), Color::White);
    assert_eq!(Color::from(17), Color::Blue);
    assert_eq!(Color::from(255), Color::White);
    assert_eq!(Color::from(12).value(), 12);
}

#[test]
fn set_bg_color_sets_background_nibble() {
    let mut p = Painter::new();
    p.set_bg_color(3, 2, Color::Red);
    assert_eq!(p.screen().read_char(2, 3), b' ');
    assert_eq!(p.screen().read_color(2, 3), 0x40);
    p.set_bg_color(80, 2, Color::Red);
    p.set_bg_color(3, 25, Color::Red);
    assert_eq!(p.screen().as_bytes().iter().filter(|&&b| b != 0).count(), 2);
}

#[test]
fn colors_draws_sixteen_bands() {
    let p = colors();
    assert_eq!(p.screen().read_color(0, 0), 0x00);
    assert_eq!(p.screen().read_color(7, 4), 0x00);
    assert_eq!(p.screen().read_color(7, 5), 0x10);
    assert_eq!(p.screen().read_color(24, 79), 0xF0);
    assert_eq!(p.screen().read_char(24, 79), b' ');
}

#[test]
fn image_paints_data_within_screen() {
    let mut data: Vec<Vec<u8>> = vec![vec![1, 2, 18], vec![]];
    data.push(vec![7; 100]);
    let p = image(Screen::new(), &data);
    assert_eq!(p.screen().read_color(0, 0), 0x10);
    assert_eq!(p.screen().read_color(0, 2), 0x20);
    assert_eq!(p.screen().read_char(0, 3), 0);
    assert_eq!(p.screen().read_char(1, 0), 0);
    assert_eq!(p.screen().read_color(2, 79), 0x70);
}

#[test]
fn console_writes_compose() {
    let mut a = Writer::new();
    a.write_str("ab\ncd");
    let mut b = Writer::new();
    b.write_str("ab");
    b.write_str("\nc");
    b.write_str("d");
    assert_eq!(a.screen().as_bytes(), b.screen().as_bytes());
}

#[test]
fn image_leaves_other_cells_as_they_were() {
    let mut bytes = vec![0x41u8; 4000];
    bytes[1] = 0x1f;
    let screen = Screen::from_bytes(bytes).unwrap();
    let p = image(screen, &[vec![4]]);
    assert_eq!(p.screen().read_char(0, 0), b' ');
    assert_eq!(p.screen().read_color(0, 0), 0x40);
    assert_eq!(p.screen().read_char(0, 1), 0x41);
    assert_eq!(p.screen().read_char(24, 79), 0x41);
}

#[test]
fn screen_from_bytes_checks_size() {
    assert!(Screen::from_bytes(vec![0; 3999]).is_none());
    assert!(Screen::from_bytes(vec![0; 4000]).is_some());
}

#[test]
fn writers_over_existing_screen() {
    let screen = Screen::from_bytes(vec![7u8; 4000]).unwrap();
    let mut w = Writer::over(screen);
    w.write_byte(b'q');
    assert_eq!(w.screen().read_char(0, 0), b'q');
    assert_eq!(w.screen().read_char(0, 1), 7);
    let mut l = LineWriter::over(Screen::from_bytes(vec![9u8; 4000]).unwrap());
    l.write_byte(b'r');
    assert_eq!(l.screen().read_char(0, 0), b'r');
    assert_eq!(l.screen().read_color(0, 1), 9);
    let p = Painter::over(Screen::from_bytes(vec![5u8; 4000]).unwrap());
    assert_eq!(p.screen().read_char(3, 3), 5);
}
