use termsite::terminal::TerminalUtils;

#[test]
fn new_queue_is_empty() {
    assert_eq!(TerminalUtils::new().into_data(), Vec::<u8>::new());
}

#[test]
fn move_cursor_counts_from_one_and_names_the_row_first() {
    assert_eq!(TerminalUtils::new().move_cursor(0, 0).into_data(), b"\x1b[1;1H".to_vec());
    assert_eq!(TerminalUtils::new().move_cursor(9, 99).into_data(), b"\x1b[100;10H".to_vec());
    assert_eq!(TerminalUtils::new().move_cursor(3, 0).into_data(), b"\x1b[1;4H".to_vec());
}

#[test]
fn move_cursor_at_the_largest_cell() {
    assert_eq!(
        TerminalUtils::new().move_cursor(65535, 65535).into_data(),
        b"\x1b[65536;65536H".to_vec()
    );
}

#[test]
fn clear_blanks_the_screen() {
    assert_eq!(TerminalUtils::new().clear().into_data(), b"\x1b[2J".to_vec());
}

#[test]
fn clear_then_home() {
    assert_eq!(
        TerminalUtils::new().clear().move_cursor(0, 0).into_data(),
        b"\x1b[2J\x1b[1;1H".to_vec()
    );
}

#[test]
fn hide_and_show_cursor() {
    assert_eq!(TerminalUtils::new().hide_cursor().into_data(), b"\x1b[?25l".to_vec());
    assert_eq!(TerminalUtils::new().show_cursor().into_data(), b"\x1b[?25h".to_vec());
}

#[test]
fn place_moves_only_when_the_cursor_is_elsewhere() {
    let data = TerminalUtils::new().place(4, 2, b'x').place(5, 2, b'y').place(0, 3, b'z').into_data();
    assert_eq!(data, b"\x1b[3;5Hxy\x1b[4;1Hz".to_vec());
}

#[test]
fn move_cursor_does_not_tell_place_where_the_cursor_is() {
    let data = TerminalUtils::new().move_cursor(1, 1).place(1, 1, b'x').into_data();
    assert_eq!(data, b"\x1b[2;2H\x1b[2;2Hx".to_vec());
}
