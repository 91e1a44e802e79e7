use termsite::contact::{
    check_message_size, check_thread, check_unread_thread_count, format_answer, parse_msg, push_hex, push_signed_decimal, Limits, Message, MessageSendError,
    MessagesLoadError, MsgRequest, MsgResult, ThreadId,
};

const LIMITS: Limits = Limits {
    msg_max_size: 2500,
    msg_max_unread_messages: 5,
    msg_max_unread_threads_global: 200,
    msg_max_unread_threads_ip: 5,
};

const USAGE: &str = "Usage: `msg send <BODY...>` or `msg view <THREAD>` or `msg reply <THREAD> <BODY...>`\n\nHave feedback on the site? A comment about a page? Just want to get in touch / send a message?\nThis command allows you to send a message straight from your terminal to mine (see the project page (TODO) for more).\n\nTo send your first message, just use `msg send` followed by any length of message, which will start a new thread and return the corresponding thread ID.\nThen, you can use `msg view` along with the thread ID to see your message and, eventually (hopefully), my reply.\nIf you want to send a follow up to your initial message or a response to mine, you can use `msg reply` with the thread ID and your response.\n\nThe thread IDs here are the same as those in my http/html website's contact form (TODO), so you can also view/send messages there.\n\nIf you have any questions, well, you should know how to get in touch now! I look forward to hearing from you!";

const SEND_USAGE: &str = "Usage: `msg send <BODY...>`\nInitial message body must be at least 25 characters (mostly to avoid accidentally sending something. Use `msg help` (or just `msg`) to see some usage info.";

const REPLY_USAGE: &str = "Usage: `msg reply <THREAD> <BODY...>`\nMessage body must be at least 10 characters (mostly to avoid accidentally sending something. Use `msg help` (or just `msg`) to see some usage info.";

const ILL_FORMED: &str = "Error: ill-formed thread ID (should be a 64-bit hexadecimal integer)";

#[test]
fn thread_id_is_written_as_sixteen_digits() {
    assert_eq!(ThreadId(0).to_text(), b"0000000000000000".to_vec());
    assert_eq!(ThreadId(255).to_text(), b"00000000000000ff".to_vec());
    assert_eq!(ThreadId(0x0123_4567_89ab_cdef).to_text(), b"0123456789abcdef".to_vec());
    assert_eq!(ThreadId(i64::MAX).to_text(), b"7fffffffffffffff".to_vec());
    assert_eq!(ThreadId(-1).to_text(), b"ffffffffffffffff".to_vec());
    assert_eq!(ThreadId(i64::MIN).to_text(), b"8000000000000000".to_vec());
    assert_eq!(ThreadId(-2).to_text(), format!("{:016x}", -2i64).into_bytes());
}

#[test]
fn thread_id_is_read_from_hexadecimal() {
    assert_eq!(ThreadId::parse(b"0"), Some(ThreadId(0)));
    assert_eq!(ThreadId::parse(b"ff"), Some(ThreadId(255)));
    assert_eq!(ThreadId::parse(b"FF"), Some(ThreadId(255)));
    assert_eq!(ThreadId::parse(b"+1a"), Some(ThreadId(26)));
    assert_eq!(ThreadId::parse(b"0123456789abcdef"), Some(ThreadId(0x0123_4567_89ab_cdef)));
    assert_eq!(ThreadId::parse(b"ffffffffffffffff"), Some(ThreadId(-1)));
    assert_eq!(ThreadId::parse(b"8000000000000000"), Some(ThreadId(i64::MIN)));
    assert_eq!(ThreadId::parse(b"7fffffffffffffff"), Some(ThreadId(i64::MAX)));
    assert_eq!(ThreadId::parse(b"000000000000000000000001"), Some(ThreadId(1)));
}

#[test]
fn thread_id_refuses_what_is_no_number() {
    for word in [&b""[..], b"+", b"-", b"-1", b"0x10", b"12g4", b" 12", b"12 ", b"1_0", b"++1", b"10000000000000000", b"fffffffffffffffff"] {
        assert_eq!(ThreadId::parse(word), None);
    }
}

#[test]
fn thread_id_reads_as_the_standard_library_does() {
    for word in ["0", "+", "", "-0", "+0", "dead", "DEAD", "ffffffffffffffff", "10000000000000000", "+ffffffffffffffff", "0000000000000000000000ff", "g", "12345678", "+-1"] {
        let expected = u64::from_str_radix(word, 16).ok().map(|v| ThreadId(v as i64));
        assert_eq!(ThreadId::parse(word.as_bytes()), expected);
    }
}

#[test]
fn parse_and_text_round_trip() {
    for id in [0i64, 1, -1, 42, i64::MAX, i64::MIN, -123456789, 0x0fed_cba9_8765_4321] {
        assert_eq!(ThreadId::parse(&ThreadId(id).to_text()), Some(ThreadId(id)));
    }
}

#[test]
fn hex_and_decimal_digits() {
    let mut out = b"x".to_vec();
    push_hex(&mut out, 0xabc);
    assert_eq!(out, b"x0000000000000abc".to_vec());
    let mut out = Vec::new();
    push_signed_decimal(&mut out, 0);
    out.push(b' ');
    push_signed_decimal(&mut out, -7);
    out.push(b' ');
    push_signed_decimal(&mut out, 1700000000);
    out.push(b' ');
    push_signed_decimal(&mut out, i64::MIN);
    out.push(b' ');
    push_signed_decimal(&mut out, i64::MAX);
    assert_eq!(out, b"0 -7 1700000000 -9223372036854775808 9223372036854775807".to_vec());
}

#[test]
fn msg_alone_gets_the_usage() {
    for line in [&b"msg"[..], b"msg ", b"msg help", b"msg view", b"msg reply", b"msg sendx a long enough message body here", b"msg  send a long enough message body here"] {
        assert_eq!(parse_msg(line), Err(USAGE.as_bytes().to_vec()));
    }
}

#[test]
fn msg_send_takes_all_that_follows() {
    assert_eq!(
        parse_msg(b"msg send this message  is long enough to go"),
        Ok(MsgRequest::Send { body: b"this message  is long enough to go".to_vec() })
    );
    assert_eq!(
        parse_msg(b"msg send 1234567890123456789012345"),
        Ok(MsgRequest::Send { body: b"1234567890123456789012345".to_vec() })
    );
}

#[test]
fn msg_send_refuses_a_short_message() {
    assert_eq!(parse_msg(b"msg send"), Err(SEND_USAGE.as_bytes().to_vec()));
    assert_eq!(parse_msg(b"msg send "), Err(SEND_USAGE.as_bytes().to_vec()));
    assert_eq!(parse_msg(b"msg send 123456789012345678901234"), Err(SEND_USAGE.as_bytes().to_vec()));
}

#[test]
fn msg_view_names_a_thread() {
    assert_eq!(parse_msg(b"msg view 00000000000000ff"), Ok(MsgRequest::View { thread: ThreadId(255) }));
    assert_eq!(parse_msg(b"msg view ff and more"), Ok(MsgRequest::View { thread: ThreadId(255) }));
    assert_eq!(parse_msg(b"msg view xyz"), Err(ILL_FORMED.as_bytes().to_vec()));
    assert_eq!(parse_msg(b"msg view "), Err(ILL_FORMED.as_bytes().to_vec()));
}

#[test]
fn msg_reply_names_a_thread_and_takes_the_rest() {
    assert_eq!(
        parse_msg(b"msg reply 1f ten bytes!"),
        Ok(MsgRequest::Reply { thread: ThreadId(31), body: b"ten bytes!".to_vec() })
    );
    assert_eq!(parse_msg(b"msg reply 1f too short"), Err(REPLY_USAGE.as_bytes().to_vec()));
    assert_eq!(parse_msg(b"msg reply 1f"), Err(REPLY_USAGE.as_bytes().to_vec()));
    // The thread's name is looked at before the message.
    assert_eq!(parse_msg(b"msg reply nope a message that is long enough"), Err(ILL_FORMED.as_bytes().to_vec()));
}

#[test]
fn answers_to_send_and_reply() {
    assert_eq!(
        format_answer(&MsgResult::Sent(Ok(ThreadId(255))), &LIMITS),
        b"Message sent! Thread ID: 00000000000000ff (don't lose that if you want a reply!)".to_vec()
    );
    assert_eq!(
        format_answer(&MsgResult::Replied(ThreadId(-1), Ok(())), &LIMITS),
        b"Message sent on thread ID: ffffffffffffffff (don't lose that if you want a reply!)".to_vec()
    );
}

#[test]
fn answers_to_refusals() {
    let sent = |e| format_answer(&MsgResult::Sent(Err(e)), &LIMITS);
    assert_eq!(sent(MessageSendError::DatabaseError), b"Error sending message: internal server error, sorry :(".to_vec());
    assert_eq!(
        sent(MessageSendError::TooLong),
        b"Error sending message: your message is too long (max size: 2500 characters)".to_vec()
    );
    assert_eq!(
        sent(MessageSendError::ThreadFull),
        b"Error sending message: too many messages in a row without a reply (max 5), be patient!".to_vec()
    );
    assert_eq!(
        sent(MessageSendError::InboxFull),
        b"Error sending message: sorry, I'm overwhelmed with unread messages right now, check back later".to_vec()
    );
    assert_eq!(
        format_answer(&MsgResult::Replied(ThreadId(1), Err(MessageSendError::NoSuchThread)), &LIMITS),
        b"Error sending message: invalid thread ID".to_vec()
    );
    assert_eq!(
        format_answer(&MsgResult::Viewed(ThreadId(1), Err(MessagesLoadError::NoSuchThread)), &LIMITS),
        b"Error loading thread: invalid thread ID".to_vec()
    );
    assert_eq!(
        format_answer(&MsgResult::Viewed(ThreadId(1), Err(MessagesLoadError::DatabaseError)), &LIMITS),
        b"Error loading thread: internal server error, sorry :(".to_vec()
    );
}

#[test]
fn answer_to_view_lists_the_messages() {
    let messages = vec![
        Message { contents: b"hello there".to_vec(), timestamp: 1700000000, response: false },
        Message { contents: b"hi".to_vec(), timestamp: 1700000100, response: true },
        Message { contents: Vec::new(), timestamp: -5, response: false },
    ];
    assert_eq!(
        format_answer(&MsgResult::Viewed(ThreadId(0x1f), Ok(messages)), &LIMITS),
        b"Thread 000000000000001f:\n(1700000000) You: hello there\n(1700000100) Me:  hi\n(-5) You: \n".to_vec()
    );
    assert_eq!(
        format_answer(&MsgResult::Viewed(ThreadId(0), Ok(Vec::new())), &LIMITS),
        b"Thread 0000000000000000:\n".to_vec()
    );
}

#[test]
fn a_message_may_be_as_long_as_the_limit() {
    assert_eq!(check_message_size(0, &LIMITS), Ok(()));
    assert_eq!(check_message_size(2500, &LIMITS), Ok(()));
    assert_eq!(check_message_size(2501, &LIMITS), Err(MessageSendError::TooLong));
}

#[test]
fn a_thread_is_full_at_the_limit() {
    assert_eq!(check_thread(None, &LIMITS), Err(MessageSendError::NoSuchThread));
    assert_eq!(check_thread(Some(0), &LIMITS), Ok(()));
    assert_eq!(check_thread(Some(4), &LIMITS), Ok(()));
    assert_eq!(check_thread(Some(5), &LIMITS), Err(MessageSendError::ThreadFull));
    assert_eq!(check_thread(Some(6), &LIMITS), Err(MessageSendError::ThreadFull));
}

#[test]
fn the_inbox_is_full_at_the_limit() {
    assert_eq!(check_unread_thread_count(0, 200), Ok(0));
    assert_eq!(check_unread_thread_count(199, 200), Ok(199));
    assert_eq!(check_unread_thread_count(200, 200), Err(MessageSendError::InboxFull));
    assert_eq!(check_unread_thread_count(0, 0), Err(MessageSendError::InboxFull));
}
