use termsite::terminal::Shell;

fn feed(shell: &mut Shell, input: &[u8]) -> (Vec<u8>, Vec<Vec<u8>>) {
    let mut echo = Vec::new();
    let mut commands = Vec::new();
    for b in input {
        let (out, command) = shell.process(*b);
        echo.extend(out);
        if let Some(command) = command {
            commands.push(command);
        }
    }
    (echo, commands)
}

#[test]
fn printable_bytes_are_echoed() {
    let mut shell = Shell::new();
    let (echo, command) = shell.process(b'a');
    assert_eq!(echo, vec![b'a']);
    assert!(command.is_none());
    assert_eq!(shell.cursor(), 1);
    assert_eq!(shell.line(), b"a");
}

#[test]
fn carriage_return_submits_the_line() {
    let mut shell = Shell::new();
    feed(&mut shell, b"ls");
    let (echo, command) = shell.process(13);
    assert_eq!(echo, vec![13, 10]);
    assert_eq!(command, Some(b"ls".to_vec()));
    assert_eq!(shell.cursor(), 0);
    assert_eq!(shell.line(), b"");
}

#[test]
fn line_feed_submits_the_line() {
    let mut shell = Shell::new();
    feed(&mut shell, b"cd blog");
    let (echo, command) = shell.process(10);
    assert_eq!(echo, vec![13, 10]);
    assert_eq!(command, Some(b"cd blog".to_vec()));
}

#[test]
fn backspace_at_the_start_does_nothing() {
    let mut shell = Shell::new();
    for b in [8u8, 127u8] {
        let (echo, command) = shell.process(b);
        assert_eq!(echo, Vec::<u8>::new());
        assert!(command.is_none());
        assert_eq!(shell.cursor(), 0);
        assert_eq!(shell.line(), b"");
    }
    feed(&mut shell, b"ab\x01");
    let (echo, command) = shell.process(8);
    assert_eq!(echo, Vec::<u8>::new());
    assert!(command.is_none());
    assert_eq!(shell.line(), b"ab");
}

#[test]
fn backspace_at_the_end_wipes_one_cell() {
    let mut shell = Shell::new();
    feed(&mut shell, b"abc");
    let (echo, command) = shell.process(127);
    assert_eq!(echo, vec![8, 32, 8]);
    assert!(command.is_none());
    assert_eq!(shell.line(), b"ab");
    assert_eq!(shell.cursor(), 2);
}

#[test]
fn backspace_inside_the_line_rewrites_the_rest() {
    let mut shell = Shell::new();
    feed(&mut shell, b"abcd");
    feed(&mut shell, &[27, 91, 68, 27, 91, 68]);
    assert_eq!(shell.cursor(), 2);
    let (echo, _) = shell.process(8);
    // Back, "cd", a blank over the old last cell, and back three.
    assert_eq!(echo, vec![8, b'c', b'd', 32, 8, 8, 8]);
    assert_eq!(shell.line(), b"acd");
    assert_eq!(shell.cursor(), 1);
}

#[test]
fn insert_inside_the_line_rewrites_the_rest() {
    let mut shell = Shell::new();
    feed(&mut shell, b"ad");
    feed(&mut shell, &[27, 91, 68]);
    let (echo, _) = shell.process(b'b');
    assert_eq!(echo, vec![b'b', b'd', 8]);
    assert_eq!(shell.line(), b"abd");
    assert_eq!(shell.cursor(), 2);
}

#[test]
fn control_c_drops_the_line_and_asks_for_a_prompt() {
    let mut shell = Shell::new();
    feed(&mut shell, b"half a comm");
    let (echo, command) = shell.process(3);
    assert_eq!(echo, vec![13, 10]);
    assert_eq!(command, Some(Vec::new()));
    assert_eq!(shell.line(), b"");
    assert_eq!(shell.cursor(), 0);
    // The dropped line is not remembered.
    let (_, commands) = feed(&mut shell, &[27, 91, 65, 13]);
    assert_eq!(commands, vec![Vec::<u8>::new()]);
}

#[test]
fn control_d_asks_for_exit() {
    let mut shell = Shell::new();
    feed(&mut shell, b"abc");
    let (echo, command) = shell.process(4);
    assert_eq!(echo, Vec::<u8>::new());
    assert_eq!(command, Some(b"exit".to_vec()));
    assert_eq!(shell.line(), b"abc");
}

#[test]
fn control_a_goes_home() {
    let mut shell = Shell::new();
    feed(&mut shell, b"abc");
    let (echo, command) = shell.process(1);
    assert_eq!(echo, vec![8, 8, 8]);
    assert!(command.is_none());
    assert_eq!(shell.cursor(), 0);
}

#[test]
fn control_e_goes_to_the_end() {
    let mut shell = Shell::new();
    feed(&mut shell, b"abc\x01");
    let (echo, command) = shell.process(5);
    assert_eq!(echo, vec![27, 91, 67, 27, 91, 67, 27, 91, 67]);
    assert!(command.is_none());
    assert_eq!(shell.cursor(), 3);
    let (echo, _) = shell.process(5);
    assert_eq!(echo, Vec::<u8>::new());
}

#[test]
fn arrows_move_within_the_line() {
    let mut shell = Shell::new();
    feed(&mut shell, b"ab");
    let (echo, _) = feed(&mut shell, &[27, 91, 67]);
    assert_eq!(echo, Vec::<u8>::new());
    let (echo, _) = feed(&mut shell, &[27, 91, 68]);
    assert_eq!(echo, vec![27, 91, 68]);
    assert_eq!(shell.cursor(), 1);
    let (echo, _) = feed(&mut shell, &[27, 91, 68, 27, 91, 68]);
    assert_eq!(echo, vec![27, 91, 68]);
    assert_eq!(shell.cursor(), 0);
    let (echo, _) = feed(&mut shell, &[27, 91, 67]);
    assert_eq!(echo, vec![27, 91, 67]);
    assert_eq!(shell.cursor(), 1);
}

#[test]
fn escape_swallows_two_more_bytes() {
    let mut shell = Shell::new();
    let (echo, commands) = feed(&mut shell, &[27, b'x', 13]);
    assert_eq!(echo, Vec::<u8>::new());
    assert!(commands.is_empty());
    assert_eq!(shell.line(), b"");
    let (echo, _) = feed(&mut shell, b"a");
    assert_eq!(echo, vec![b'a']);
}

#[test]
fn control_bytes_are_ignored() {
    let mut shell = Shell::new();
    for b in [0u8, 2, 6, 7, 9, 11, 12, 14, 26, 28, 31] {
        let (echo, command) = shell.process(b);
        assert_eq!(echo, Vec::<u8>::new());
        assert!(command.is_none());
    }
    assert_eq!(shell.line(), b"");
}

#[test]
fn up_arrow_repaints_with_the_last_command() {
    let mut shell = Shell::new();
    feed(&mut shell, b"one\rtwo\r");
    feed(&mut shell, b"dr");
    let (echo, _) = feed(&mut shell, &[27, 91, 65]);
    assert_eq!(echo, vec![8, 8, 32, 32, 8, 8, b't', b'w', b'o']);
    assert_eq!(shell.line(), b"two");
    assert_eq!(shell.cursor(), 3);
    let (echo, _) = feed(&mut shell, &[27, 91, 65]);
    assert_eq!(echo, vec![8, 8, 8, 32, 32, 32, 8, 8, 8, b'o', b'n', b'e']);
    // There is nothing older: the oldest line is painted again.
    let (echo, _) = feed(&mut shell, &[27, 91, 65]);
    assert_eq!(echo, vec![8, 8, 8, 32, 32, 32, 8, 8, 8, b'o', b'n', b'e']);
    assert_eq!(shell.line(), b"one");
}

#[test]
fn down_arrow_on_the_new_line_does_nothing() {
    let mut shell = Shell::new();
    feed(&mut shell, b"one\rdr");
    let (echo, _) = feed(&mut shell, &[27, 91, 66]);
    assert_eq!(echo, Vec::<u8>::new());
    assert_eq!(shell.line(), b"dr");
    assert_eq!(shell.cursor(), 2);
}

#[test]
fn history_round_trip_keeps_the_draft() {
    for presses in 0..6usize {
        let mut shell = Shell::new();
        feed(&mut shell, b"one\rtwo\rthree\r");
        feed(&mut shell, b"draft");
        for _ in 0..presses {
            feed(&mut shell, &[27, 91, 65]);
        }
        for _ in 0..presses {
            feed(&mut shell, &[27, 91, 66]);
        }
        assert_eq!(shell.line(), b"draft");
        let (_, commands) = feed(&mut shell, &[13]);
        assert_eq!(commands, vec![b"draft".to_vec()]);
    }
}

#[test]
fn editing_an_old_line_leaves_history_alone() {
    let mut shell = Shell::new();
    feed(&mut shell, b"one\r");
    feed(&mut shell, &[27, 91, 65]);
    feed(&mut shell, b"!");
    assert_eq!(shell.line(), b"one!");
    // Away and back: the edit is still there.
    feed(&mut shell, &[27, 91, 66, 27, 91, 65]);
    assert_eq!(shell.line(), b"one!");
    let (_, commands) = feed(&mut shell, &[13]);
    assert_eq!(commands, vec![b"one!".to_vec()]);
    // Two lines back is the line as it was submitted.
    feed(&mut shell, &[27, 91, 65, 27, 91, 65]);
    assert_eq!(shell.line(), b"one");
}

#[test]
fn bytes_above_ascii_are_kept_as_they_are() {
    let mut shell = Shell::new();
    let (echo, _) = feed(&mut shell, &[0xc3, 0xa9]);
    assert_eq!(echo, vec![0xc3, 0xa9]);
    assert_eq!(shell.cursor(), 2);
    let (_, commands) = feed(&mut shell, &[13]);
    assert_eq!(commands, vec![vec![0xc3, 0xa9]]);
}

#[test]
fn cursor_stays_inside_the_line_for_any_input() {
    let mut shell = Shell::new();
    let mut seed: u32 = 12345;
    for _ in 0..20000 {
        seed = seed.wrapping_mul(1664525).wrapping_add(1013904223);
        let pick = (seed >> 16) % 12;
        let b = match pick {
            0 => 27,
            1 => 91,
            2 => 65,
            3 => 66,
            4 => 67,
            5 => 68,
            6 => 8,
            7 => 13,
            8 => 1,
            9 => 5,
            _ => (seed >> 8) as u8,
        };
        shell.process(b);
        assert!(shell.cursor() <= shell.line().len());
    }
}

#[test]
fn stand_alone_prompt() {
    assert_eq!(Shell::new().prompt(), b"> ".to_vec());
}
