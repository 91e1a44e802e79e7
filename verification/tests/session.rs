use std::sync::Arc;
use termsite::contact::{Limits, MessageSendError, MsgRequest, MsgResult, ThreadId};
use termsite::content::{File, SshContent};
use termsite::session::{Action, SshSession};

const WELCOME: &[u8] = b"Welcome to the SSH version of my website! This is very much a work in progress, but I hope you enjoy it nonetheless!\r\nTo navigate, use the 'ls' and 'cd' commands to see the available pages and 'cat' or 'vi' to view them.\r\nIf you have any feedback, use the 'msg' command to send it (or view any replies to messages you've sent).\r\nTo see this message again, just use `help`, and when you're ready to go, type 'exit' or 'logout' (or Ctrl-D).\r\n";

fn sample() -> Arc<SshContent> {
    let mut content = SshContent::empty();
    content.add_file(0, b"home.txt".to_vec(), File::from_bytes(b"welcome\r\nhome".to_vec()));
    content.add_file(0, b"about.txt".to_vec(), File::from_bytes(b"about".to_vec()));
    let projects = content.add_child(0, b"projects".to_vec());
    content.add_file(projects, b"alpha.txt".to_vec(), File::from_bytes(b"alpha\r\n".to_vec()));
    content.add_child(0, b"blog".to_vec());
    Arc::new(content)
}

fn session() -> SshSession {
    let mut session = SshSession::new(7, sample(), b"example.org".to_vec());
    session.auth("guest");
    session
}

fn typed(session: &mut SshSession, line: &[u8]) -> Vec<u8> {
    let mut input = line.to_vec();
    input.push(13);
    let reply = session.data(&input);
    assert_eq!(reply.consumed, input.len());
    assert_eq!(reply.action, Action::Continue);
    // Drop the echo of the line and of the carriage return.
    let mut echo = line.to_vec();
    echo.extend_from_slice(b"\r\n");
    assert_eq!(&reply.output[..echo.len()], &echo[..]);
    reply.output[echo.len()..].to_vec()
}

#[test]
fn new_session_stands_at_the_root() {
    let session = SshSession::new(3, sample(), b"example.org".to_vec());
    assert_eq!(session.connection_id(), 3);
    assert_eq!(session.current_dir(), 0);
    assert_eq!(session.terminal_size(), (80, 24));
    assert!(!session.has_running_app());
    assert_eq!(session.user_name(), b"");
    assert_eq!(session.prompt(), b"@example.org:/> ".to_vec());
}

#[test]
fn prompt_names_user_site_and_path() {
    let mut session = session();
    assert_eq!(session.prompt(), b"guest@example.org:/> ".to_vec());
    typed(&mut session, b"cd projects");
    assert_eq!(session.prompt(), b"guest@example.org:/projects> ".to_vec());
}

#[test]
fn pty_request_welcomes_and_prompts() {
    let mut session = session();
    let mut expected = WELCOME.to_vec();
    expected.extend_from_slice(b"guest@example.org:/> ");
    assert_eq!(session.pty_request(132, 43), expected);
    assert_eq!(session.terminal_size(), (132, 43));
}

#[test]
fn empty_line_prompts_again() {
    let mut session = session();
    assert_eq!(typed(&mut session, b""), b"guest@example.org:/> ".to_vec());
    // A line that begins with a space has an empty first word.
    assert_eq!(typed(&mut session, b" ls"), b"guest@example.org:/> ".to_vec());
}

#[test]
fn control_c_prompts_again() {
    let mut session = session();
    let reply = session.data(b"abc\x03");
    assert_eq!(reply.output, b"abc\r\nguest@example.org:/> ".to_vec());
    assert_eq!(reply.action, Action::Continue);
}

#[test]
fn unknown_command_is_not_found() {
    let mut session = session();
    assert_eq!(
        typed(&mut session, b"frobnicate now"),
        b"frobnicate now: command not found\r\nguest@example.org:/> ".to_vec()
    );
    assert_eq!(typed(&mut session, b"LS"), b"LS: command not found\r\nguest@example.org:/> ".to_vec());
    assert_eq!(
        typed(&mut session, b"msgs"),
        b"msgs: command not found\r\nguest@example.org:/> ".to_vec()
    );
}

#[test]
fn help_prints_the_welcome() {
    let mut session = session();
    let mut expected = WELCOME.to_vec();
    expected.extend_from_slice(b"guest@example.org:/> ");
    assert_eq!(typed(&mut session, b"help"), expected);
}

#[test]
fn ls_lists_directories_then_files_in_order() {
    let mut session = session();
    assert_eq!(
        typed(&mut session, b"ls"),
        b"blog\r\nprojects\r\nabout.txt\r\nhome.txt\r\nguest@example.org:/> ".to_vec()
    );
    typed(&mut session, b"cd blog");
    assert_eq!(typed(&mut session, b"ls"), b"guest@example.org:/blog> ".to_vec());
}

#[test]
fn cd_enters_a_sub_directory_and_leaves_it() {
    let mut session = session();
    assert_eq!(typed(&mut session, b"cd projects"), b"guest@example.org:/projects> ".to_vec());
    assert_eq!(session.current_dir(), 1);
    assert_eq!(typed(&mut session, b"cd .."), b"guest@example.org:/> ".to_vec());
    assert_eq!(session.current_dir(), 0);
    assert_eq!(typed(&mut session, b"cd .."), b"guest@example.org:/> ".to_vec());
    assert_eq!(session.current_dir(), 0);
}

#[test]
fn cd_to_an_unknown_name_says_so() {
    let mut session = session();
    assert_eq!(
        typed(&mut session, b"cd nowhere"),
        b"\"nowhere\": no such directory\r\nguest@example.org:/> ".to_vec()
    );
    assert_eq!(typed(&mut session, b"cd"), b"\"\": no such directory\r\nguest@example.org:/> ".to_vec());
    // Only a name of the current directory will do, not a path.
    assert_eq!(
        typed(&mut session, b"cd /projects"),
        b"\"/projects\": no such directory\r\nguest@example.org:/> ".to_vec()
    );
    assert_eq!(session.current_dir(), 0);
}

#[test]
fn cat_prints_the_file() {
    let mut session = session();
    assert_eq!(typed(&mut session, b"cat home.txt"), b"welcome\r\nhomeguest@example.org:/> ".to_vec());
    assert_eq!(
        typed(&mut session, b"cat projects/alpha.txt"),
        b"alpha\r\nguest@example.org:/> ".to_vec()
    );
    typed(&mut session, b"cd projects");
    assert_eq!(
        typed(&mut session, b"cat /about.txt"),
        b"aboutguest@example.org:/projects> ".to_vec()
    );
}

#[test]
fn cat_without_a_file_or_with_a_missing_one() {
    let mut session = session();
    assert_eq!(
        typed(&mut session, b"cat"),
        b"cat: usage: cat <filename>\r\nguest@example.org:/> ".to_vec()
    );
    assert_eq!(
        typed(&mut session, b"cat nope.txt"),
        b"cat: cannot open \"nope.txt\": No such file\r\nguest@example.org:/> ".to_vec()
    );
}

#[test]
fn vi_on_a_missing_file_leaves_the_shell_active() {
    let mut session = session();
    assert_eq!(
        typed(&mut session, b"vi nosuchfile.txt"),
        b"vi: cannot open \"nosuchfile.txt\": No such file\r\nguest@example.org:/> ".to_vec()
    );
    assert!(!session.has_running_app());
    assert!(session.running_app().is_none());
    assert_eq!(
        typed(&mut session, b"vi"),
        b"vi: usage: vi <filename>\r\nguest@example.org:/> ".to_vec()
    );
    assert!(!session.has_running_app());
}

#[test]
fn vi_in_a_terminal_without_room_leaves_the_shell_active() {
    let mut session = session();
    session.pty_request(0, 0);
    assert_eq!(
        typed(&mut session, b"vi home.txt"),
        b"vi: cannot open a window in a terminal of this size\r\nguest@example.org:/> ".to_vec()
    );
    assert!(!session.has_running_app());
}

#[test]
fn vi_takes_over_until_control_c() {
    let mut session = session();
    session.pty_request(20, 4);
    let window = typed(&mut session, b"vi home.txt");
    assert_eq!(
        window,
        b"\x1b[2J\x1b[1;1H\x1b[1;1Hwelcome\x1b[2;1Hhome\x1b[3;1H~\r\n: Ctrl-C to quit\x1b[1;1H".to_vec()
    );
    assert!(session.has_running_app());
    // Keys go to the pager, and so does what would be a command.
    let reply = session.data(b"jl");
    assert_eq!(reply.output, b"\x1b[2;1H\x1b[2;2H".to_vec());
    let reply = session.data(b"exit\r");
    assert_eq!(reply.action, Action::Continue);
    assert_eq!(reply.output, Vec::<u8>::new());
    assert!(session.has_running_app());
    let reply = session.data(&[3]);
    assert_eq!(reply.output, b"\x1b[2J\x1b[1;1Hguest@example.org:/> ".to_vec());
    assert!(!session.has_running_app());
    assert_eq!(typed(&mut session, b"ls").len(), b"blog\r\nprojects\r\nabout.txt\r\nhome.txt\r\nguest@example.org:/> ".len());
}

#[test]
fn window_change_redraws_a_running_pager() {
    let mut session = session();
    assert_eq!(session.window_change_request(30, 10), Vec::<u8>::new());
    assert_eq!(session.terminal_size(), (30, 10));
    typed(&mut session, b"vi home.txt");
    let window = session.window_change_request(4, 3);
    assert_eq!(
        window,
        b"\x1b[2J\x1b[1;1H\x1b[1;1Hwelc\x1b[2;1Home\r\n: Ctrl-C to quit\x1b[1;1H".to_vec()
    );
    assert_eq!(session.terminal_size(), (4, 3));
    // A size without room is noted, and the pager stays as it is.
    assert_eq!(session.window_change_request(0, 0), Vec::<u8>::new());
    assert_eq!(session.terminal_size(), (0, 0));
    assert!(session.has_running_app());
    // Down to "home": the window moves on by one row of "welcome".
    assert_eq!(
        session.data(b"j").output,
        b"\x1b[2J\x1b[1;1H\x1b[1;1Home\x1b[2;1Hhome\r\n: Ctrl-C to quit\x1b[2;1H".to_vec()
    );
}

#[test]
fn exit_and_logout_ask_for_disconnect() {
    for line in [&b"exit\r"[..], b"logout\r", b"exit now\r", b"\x04"] {
        let mut session = session();
        let mut input = line.to_vec();
        input.extend_from_slice(b"ls\r");
        let reply = session.data(&input);
        assert_eq!(reply.action, Action::Disconnect);
        // What follows the command is not taken.
        assert_eq!(reply.consumed, line.len());
    }
}

#[test]
fn several_commands_in_one_run_of_input() {
    let mut session = session();
    let reply = session.data(b"cd projects\rls\r");
    assert_eq!(reply.consumed, 15);
    assert_eq!(
        reply.output,
        b"cd projects\r\nguest@example.org:/projects> ls\r\nalpha.txt\r\nguest@example.org:/projects> "
            .to_vec()
    );
}

#[test]
fn empty_input_does_nothing() {
    let mut session = session();
    let reply = session.data(b"");
    assert_eq!(reply.output, Vec::<u8>::new());
    assert_eq!(reply.consumed, 0);
    assert_eq!(reply.action, Action::Continue);
}

#[test]
fn msg_without_a_task_prints_the_usage() {
    let mut session = session();
    let out = typed(&mut session, b"msg");
    let text = String::from_utf8(out).unwrap();
    assert!(text.starts_with("Usage: `msg send <BODY...>` or `msg view <THREAD>` or `msg reply <THREAD> <BODY...>`\r\n\r\nHave feedback"));
    assert!(text.ends_with("I look forward to hearing from you!\r\n\r\nguest@example.org:/> "));
    assert!(!text.replace("\r\n", "").contains('\n'));
}

#[test]
fn msg_with_a_bad_thread_says_so() {
    let mut session = session();
    assert_eq!(
        typed(&mut session, b"msg view zz"),
        b"Error: ill-formed thread ID (should be a 64-bit hexadecimal integer)\r\n\r\nguest@example.org:/> ".to_vec()
    );
}

#[test]
fn msg_asks_the_store_and_stops_taking_input() {
    let mut session = session();
    let reply = session.data(b"msg view 2a\rls\r");
    assert_eq!(reply.action, Action::Message(MsgRequest::View { thread: ThreadId(42) }));
    assert_eq!(reply.consumed, 12);
    assert_eq!(reply.output, b"msg view 2a\r\n".to_vec());
    let limits = Limits {
        msg_max_size: 100,
        msg_max_unread_messages: 3,
        msg_max_unread_threads_global: 10,
        msg_max_unread_threads_ip: 2,
    };
    let answer = session.message_answer(&MsgResult::Viewed(ThreadId(42), Ok(Vec::new())), &limits);
    assert_eq!(answer, b"Thread 000000000000002a:\r\n\r\n\r\nguest@example.org:/> ".to_vec());
    let reply = session.data(b"ls\r");
    assert_eq!(reply.action, Action::Continue);
    assert_eq!(reply.consumed, 3);
}

#[test]
fn msg_send_asks_for_a_new_thread() {
    let mut session = session();
    let reply = session.data(b"msg send a message of more than 25 bytes\r");
    assert_eq!(
        reply.action,
        Action::Message(MsgRequest::Send { body: b"a message of more than 25 bytes".to_vec() })
    );
    let limits = Limits {
        msg_max_size: 100,
        msg_max_unread_messages: 3,
        msg_max_unread_threads_global: 10,
        msg_max_unread_threads_ip: 2,
    };
    assert_eq!(
        session.message_answer(&MsgResult::Sent(Err(MessageSendError::ThreadFull)), &limits),
        b"Error sending message: too many messages in a row without a reply (max 3), be patient!\r\n\r\nguest@example.org:/> "
            .to_vec()
    );
}
