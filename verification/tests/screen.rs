use core64::core64::screen::Screen;
use core64::shared::screen::Screen as UserScreen;

fn buffer(attr: u16) -> Vec<u16> {
    vec![attr | b'x' as u16; 2000]
}

#[test]
fn coord_is_line_times_80_plus_row() {
    let s = Screen { line: 3, row: 7 };
    assert_eq!(s.coord(), 247);
    let u = UserScreen { line: 24, row: 79 };
    assert_eq!(u.coord(), 1999);
}

#[test]
fn write_byte_keeps_attribute_and_advances() {
    let mut buf = buffer(0x1F00);
    let mut s = Screen { line: 0, row: 0 };
    s.write_byte(&mut buf, b'A');
    assert_eq!(buf[0], 0x1F00 | b'A' as u16);
    assert_eq!((s.line, s.row), (0, 1));
    assert_eq!(buf[1], 0x1F00 | b'x' as u16);
}

#[test]
fn write_byte_wraps_to_next_line_and_top() {
    let mut buf = buffer(0x0700);
    let mut s = Screen { line: 5, row: 79 };
    s.write_byte(&mut buf, b'Z');
    assert_eq!(buf[5 * 80 + 79], 0x0700 | b'Z' as u16);
    assert_eq!((s.line, s.row), (6, 0));
    let mut s = Screen { line: 24, row: 79 };
    s.write_byte(&mut buf, b'Q');
    assert_eq!((s.line, s.row), (0, 0));
    assert_eq!(buf[1999], 0x0700 | b'Q' as u16);
}

#[test]
fn newline_blanks_rest_of_line() {
    let mut buf = buffer(0x0200);
    let mut s = Screen { line: 2, row: 10 };
    s.write_byte(&mut buf, b'\n');
    assert_eq!((s.line, s.row), (3, 0));
    for r in 0..80 {
        let want = if r < 10 { 0x0200 | b'x' as u16 } else { 0x0200 | b' ' as u16 };
        assert_eq!(buf[2 * 80 + r], want);
    }
    assert_eq!(buf[3 * 80], 0x0200 | b'x' as u16);
    let mut s = Screen { line: 24, row: 0 };
    s.write_byte(&mut buf, b'\n');
    assert_eq!((s.line, s.row), (0, 0));
}

#[test]
fn clear_screen_blanks_every_cell_and_keeps_cursor() {
    let mut buf: Vec<u16> = (0..2000u32).map(|i| ((i % 7) as u16) << 8 | b'k' as u16).collect();
    let mut s = Screen { line: 12, row: 34 };
    s.clear_screen(&mut buf);
    assert_eq!((s.line, s.row), (12, 34));
    for (i, c) in buf.iter().enumerate() {
        assert_eq!(*c, ((i as u32 % 7) as u16) << 8 | b' ' as u16);
    }
}

#[test]
fn write_str_writes_each_byte() {
    let mut buf = buffer(0x0F00);
    let mut s = Screen { line: 1, row: 78 };
    s.write_str(&mut buf, "abc\nd");
    assert_eq!(buf[80 + 78], 0x0F00 | b'a' as u16);
    assert_eq!(buf[80 + 79], 0x0F00 | b'b' as u16);
    assert_eq!(buf[160], 0x0F00 | b'c' as u16);
    assert_eq!(buf[161], 0x0F00 | b' ' as u16);
    assert_eq!(buf[240], 0x0F00 | b'd' as u16);
    assert_eq!((s.line, s.row), (3, 1));
}

#[test]
fn user_screen_echoes_to_debug_port() {
    let mut buf = buffer(0x0100);
    let mut s = UserScreen::new();
    assert_eq!((s.line, s.row), (0, 0));
    let echo = s.write_str(&mut buf, "hi");
    assert_eq!(echo.len(), 2);
    assert_eq!((echo[0].port, echo[0].value), (0xe9, b'h'));
    assert_eq!((echo[1].port, echo[1].value), (0xe9, b'i'));
    assert_eq!(buf[1], 0x0100 | b'i' as u16);
    let w = s.write_byte(&mut buf, b'\n');
    assert_eq!((w.port, w.value), (0xe9, b'\n'));
    assert_eq!((s.line, s.row), (1, 0));
}

#[test]
fn user_clear_screen_uses_first_cell_attribute() {
    let mut buf: Vec<u16> = (0..2000u32).map(|i| ((i % 5) as u16) << 8 | b'k' as u16).collect();
    buf[0] = 0x4E00 | b'q' as u16;
    let mut s = UserScreen { line: 3, row: 4 };
    s.clear_screen(&mut buf);
    assert!(buf.iter().all(|c| *c == 0x4E00 | b' ' as u16));
    assert_eq!((s.line, s.row), (3, 4));
}

#[test]
fn bytes_without_newline_move_one_cell_each() {
    let mut buf = buffer(0x0700);
    let mut s = Screen { line: 24, row: 78 };
    s.write_str(&mut buf, "abcd");
    assert_eq!((s.line, s.row), (0, 2));
    assert_eq!(buf[1998], 0x0700 | b'a' as u16);
    assert_eq!(buf[0], 0x0700 | b'c' as u16);
}
