//! The `msg` command: messages to the site's owner, kept in threads that
//! a sixteen-digit number names. The store of messages is not here. This
//! module reads the command line, says what to ask of the store, and
//! writes what the user is told when the store has answered.
use crate::text::{after_first_word, after_first_word_of, bytes_eq_str, decimal};
use crate::text::{first_word, first_word_of, push_bytes, push_decimal, push_str, LF};
use vstd::prelude::*;
use vstd::string::StringSliceAdditionalSpecFns;

verus! {

/// What `msg` answers where it is not told what to do.
pub const MSG_USAGE: &'static str = "Usage: `msg send <BODY...>` or `msg view <THREAD>` or `msg reply <THREAD> <BODY...>`\n\nHave feedback on the site? A comment about a page? Just want to get in touch / send a message?\nThis command allows you to send a message straight from your terminal to mine (see the project page (TODO) for more).\n\nTo send your first message, just use `msg send` followed by any length of message, which will start a new thread and return the corresponding thread ID.\nThen, you can use `msg view` along with the thread ID to see your message and, eventually (hopefully), my reply.\nIf you want to send a follow up to your initial message or a response to mine, you can use `msg reply` with the thread ID and your response.\n\nThe thread IDs here are the same as those in my http/html website's contact form (TODO), so you can also view/send messages there.\n\nIf you have any questions, well, you should know how to get in touch now! I look forward to hearing from you!";

/// What `msg send` answers to a message that is too short.
pub const SEND_USAGE: &'static str = "Usage: `msg send <BODY...>`\nInitial message body must be at least 25 characters (mostly to avoid accidentally sending something. Use `msg help` (or just `msg`) to see some usage info.";

/// What `msg reply` answers to a message that is too short.
pub const REPLY_USAGE: &'static str = "Usage: `msg reply <THREAD> <BODY...>`\nMessage body must be at least 10 characters (mostly to avoid accidentally sending something. Use `msg help` (or just `msg`) to see some usage info.";

/// What `msg` answers to a thread number that is none.
pub const ILL_FORMED_THREAD: &'static str = "Error: ill-formed thread ID (should be a 64-bit hexadecimal integer)";

pub const WORD_SEND: &'static str = "send";

pub const WORD_REPLY: &'static str = "reply";

pub const WORD_VIEW: &'static str = "view";

pub const SENT_HEAD: &'static str = "Message sent! Thread ID: ";

pub const REPLIED_HEAD: &'static str = "Message sent on thread ID: ";

pub const SENT_TAIL: &'static str = " (don't lose that if you want a reply!)";

pub const SEND_FAILED: &'static str = "Error sending message: ";

pub const LOAD_FAILED: &'static str = "Error loading thread: ";

pub const THREAD_HEAD: &'static str = "Thread ";

pub const FROM_OWNER: &'static str = "Me: ";

pub const FROM_USER: &'static str = "You:";

pub const DATABASE_ERROR: &'static str = "internal server error, sorry :(";

pub const NO_SUCH_THREAD: &'static str = "invalid thread ID";

pub const TOO_LONG_HEAD: &'static str = "your message is too long (max size: ";

pub const TOO_LONG_TAIL: &'static str = " characters)";

pub const THREAD_FULL_HEAD: &'static str = "too many messages in a row without a reply (max ";

pub const THREAD_FULL_TAIL: &'static str = "), be patient!";

pub const INBOX_FULL: &'static str =
    "sorry, I'm overwhelmed with unread messages right now, check back later";

/// How long the first message of a thread must be, in bytes.
pub const MIN_FIRST_MESSAGE: usize = 25;

/// How long a further message of a thread must be, in bytes.
pub const MIN_REPLY: usize = 10;

/// The name of a thread: a number of 64 bits, which the store keeps as a
/// signed number and the user sees as sixteen hexadecimal digits.
#[derive(Clone, Copy, Debug, PartialEq, Eq, Structural)]
pub struct ThreadId(pub i64);

/// One message of a thread.
#[derive(Debug, PartialEq, Eq)]
pub struct Message {
    pub contents: Vec<u8>,
    /// When the message was sent, in seconds since 1970.
    pub timestamp: i64,
    /// Whether the site's owner wrote it.
    pub response: bool,
}

/// Why the messages of a thread could not be had.
#[derive(Clone, Copy, Debug, PartialEq, Eq, Structural)]
pub enum MessagesLoadError {
    /// The store failed.
    DatabaseError,
    /// There is no such thread.
    NoSuchThread,
}

/// Why a message could not be sent.
#[derive(Clone, Copy, Debug, PartialEq, Eq, Structural)]
pub enum MessageSendError {
    /// The store failed.
    DatabaseError,
    /// The message is longer than messages may be.
    TooLong,
    /// The thread holds as many messages without an answer as it may.
    ThreadFull,
    /// Too many threads wait for an answer.
    InboxFull,
    /// There is no such thread.
    NoSuchThread,
}

/// The limits that the store of messages keeps.
#[derive(Clone, Copy, Debug, PartialEq, Eq, Structural)]
pub struct Limits {
    /// How many characters a message may have.
    pub msg_max_size: usize,
    /// How many messages a thread may hold without an answer.
    pub msg_max_unread_messages: usize,
    /// How many threads in all may wait for an answer.
    pub msg_max_unread_threads_global: usize,
    /// How many threads from one address may wait for an answer.
    pub msg_max_unread_threads_ip: usize,
}

/// What is asked of the store.
#[derive(Debug, PartialEq, Eq)]
pub enum MsgRequest {
    /// Begin a thread with this message.
    Send { body: Vec<u8> },
    /// Add this message to the thread.
    Reply { thread: ThreadId, body: Vec<u8> },
    /// Give the messages of the thread.
    View { thread: ThreadId },
}

/// What is asked of the store, as mathematics.
pub enum MsgRequestView {
    Send { body: Seq<u8> },
    Reply { thread: ThreadId, body: Seq<u8> },
    View { thread: ThreadId },
}

impl View for MsgRequest {
    type V = MsgRequestView;

    open spec fn view(&self) -> MsgRequestView {
        match self {
            MsgRequest::Send { body } => MsgRequestView::Send { body: body@ },
            MsgRequest::Reply { thread, body } => MsgRequestView::Reply {
                thread: *thread,
                body: body@,
            },
            MsgRequest::View { thread } => MsgRequestView::View { thread: *thread },
        }
    }
}

/// What the store answered.
#[derive(Debug, PartialEq, Eq)]
pub enum MsgResult {
    /// To `Send`: the new thread, or why there is none.
    Sent(Result<ThreadId, MessageSendError>),
    /// To `Reply` on this thread: done, or why not.
    Replied(ThreadId, Result<(), MessageSendError>),
    /// To `View` of this thread: its messages, oldest first, or why there
    /// are none.
    Viewed(ThreadId, Result<Vec<Message>, MessagesLoadError>),
}

/// The digit for a value below sixteen: `0` to `9`, then `a` to `f`.
pub open spec fn hex_digit(d: nat) -> u8 {
    if d < 10 {
        (48 + d) as u8
    } else {
        (87 + d) as u8
    }
}

/// The last `n` hexadecimal digits of `v`, most significant first.
pub open spec fn hex_digits(v: nat, n: nat) -> Seq<u8>
    decreases n,
{
    if n == 0 {
        Seq::empty()
    } else {
        hex_digits(v / 16, (n - 1) as nat).push(hex_digit(v % 16))
    }
}

/// The value of a hexadecimal digit, in either case.
pub open spec fn hex_value(b: u8) -> Option<nat> {
    if 48 <= b <= 57 {
        Some((b - 48) as nat)
    } else if 97 <= b <= 102 {
        Some((b - 87) as nat)
    } else if 65 <= b <= 70 {
        Some((b - 55) as nat)
    } else {
        None
    }
}

/// The value of a run of hexadecimal digits, if they all are digits.
pub open spec fn digits_value(s: Seq<u8>) -> Option<nat>
    decreases s.len(),
{
    if s.len() == 0 {
        Some(0)
    } else {
        match (digits_value(s.drop_last()), hex_value(s.last())) {
            (Some(high), Some(low)) => Some(high * 16 + low),
            _ => None,
        }
    }
}

/// The digits of a number as a user may write it: without a leading `+`.
pub open spec fn unsigned_part(word: Seq<u8>) -> Seq<u8> {
    if word.len() > 0 && word[0] == 43 {
        word.skip(1)
    } else {
        word
    }
}

/// The number of 64 bits that `word` writes in hexadecimal: at least one
/// digit, in either case, after at most one `+`.
pub open spec fn hex_number(word: Seq<u8>) -> Option<nat> {
    let digits = unsigned_part(word);
    if digits.len() == 0 {
        None
    } else {
        match digits_value(digits) {
            Some(v) => if v <= u64::MAX {
                Some(v)
            } else {
                None
            },
            None => None,
        }
    }
}

impl ThreadId {
    /// The number as the user sees it: the signed number's 64 bits read
    /// as an unsigned number.
    pub open spec fn bits(self) -> nat {
        if self.0 >= 0 {
            self.0 as nat
        } else {
            (self.0 + 0x1_0000_0000_0000_0000) as nat
        }
    }

    /// The thread whose number the user sees as `bits`.
    pub open spec fn from_bits(bits: nat) -> ThreadId {
        if bits < 0x8000_0000_0000_0000 {
            ThreadId(bits as i64)
        } else {
            ThreadId((bits - 0x1_0000_0000_0000_0000) as i64)
        }
    }

    /// The sixteen digits that name the thread.
    pub open spec fn spec_text(self) -> Seq<u8> {
        hex_digits(self.bits(), 16)
    }

    /// The thread that `word` names, if it names one.
    pub open spec fn spec_parse(word: Seq<u8>) -> Option<ThreadId> {
        match hex_number(word) {
            Some(bits) => Some(ThreadId::from_bits(bits)),
            None => None,
        }
    }

    /// The number as the user sees it.
    pub fn to_bits(&self) -> (r: u64)
        ensures
            r == self.bits(),
    {
        if self.0 >= 0 {
            self.0 as u64
        } else {
            (self.0 - i64::MIN) as u64 + 0x8000_0000_0000_0000
        }
    }

    /// The sixteen digits that name the thread.
    pub fn to_text(&self) -> (r: Vec<u8>)
        ensures
            r@ == self.spec_text(),
    {
        let mut r: Vec<u8> = Vec::new();
        push_hex(&mut r, self.to_bits());
        r
    }

    /// The thread that `word` names, if it names one.
    pub fn parse(word: &[u8]) -> (r: Option<ThreadId>)
        ensures
            r == ThreadId::spec_parse(word@),
    {
        let n = word.len();
        let start: usize = if n > 0 && word[0] == 43 {
            1
        } else {
            0
        };
        let ghost digits = unsigned_part(word@);
        assert(digits =~= word@.skip(start as int));
        if start == n {
            return None;
        }
        let mut acc: u64 = 0;
        let mut i: usize = start;
        assert(digits.take(0) =~= Seq::<u8>::empty());
        while i < n
            invariant
                start <= i <= n,
                start < n,
                n == word@.len(),
                digits == word@.skip(start as int),
                digits == unsigned_part(word@),
                digits_value(digits.take(i - start)) == Some(acc as nat),
            decreases n - i,
        {
            let b = word[i];
            let ghost upto = digits.take(i + 1 - start);
            proof {
                assert(upto.drop_last() =~= digits.take(i - start));
                assert(upto.last() == b);
            }
            let d: u64 = if 48 <= b && b <= 57 {
                (b - 48) as u64
            } else if 97 <= b && b <= 102 {
                (b - 87) as u64
            } else if 65 <= b && b <= 70 {
                (b - 55) as u64
            } else {
                proof {
                    assert(digits_value(upto) is None);
                    lemma_digits_prefix(digits, i + 1 - start);
                }
                return None;
            };
            if acc > (u64::MAX - d) / 16 {
                proof {
                    assert(digits_value(upto) == Some((acc * 16 + d) as nat));
                    lemma_digits_prefix(digits, i + 1 - start);
                }
                return None;
            }
            acc = acc * 16 + d;
            i += 1;
        }
        assert(digits.take(n - start) =~= digits);
        if acc < 0x8000_0000_0000_0000 {
            Some(ThreadId(acc as i64))
        } else {
            Some(ThreadId((acc - 0x8000_0000_0000_0000) as i64 + i64::MIN))
        }
    }
}

/// A run of digits is worth at least what any of its beginnings is
/// worth, and is worth nothing where a beginning is not.
pub proof fn lemma_digits_prefix(s: Seq<u8>, k: int)
    requires
        0 <= k <= s.len(),
    ensures
        digits_value(s.take(k)) is None ==> digits_value(s) is None,
        digits_value(s) matches Some(whole) ==> digits_value(s.take(k)) matches Some(part) && part
            <= whole,
    decreases s.len() - k,
{
    if k < s.len() {
        let next = s.take(k + 1);
        assert(next.drop_last() =~= s.take(k));
        lemma_digits_prefix(s, k + 1);
    } else {
        assert(s.take(k) =~= s);
    }
}

/// Appends the sixteen hexadecimal digits of `v`.
pub fn push_hex(out: &mut Vec<u8>, v: u64)
    ensures
        final(out)@ == old(out)@ + hex_digits(v as nat, 16),
{
    let mut digits: Vec<u8> = Vec::new();
    let mut rest: u64 = v;
    let mut k: usize = 0;
    // `digits` holds the low digits, least significant first.
    let ghost mut low: Seq<u8> = Seq::empty();
    assert(hex_digits(v as nat, 16) =~= hex_digits(rest as nat, 16) + low);
    while k < 16
        invariant
            k <= 16,
            digits@.len() == k,
            low.len() == k,
            forall|j: int| 0 <= j < k ==> digits@[j] == low[k - 1 - j],
            hex_digits(v as nat, 16) == hex_digits(rest as nat, (16 - k) as nat) + low,
        decreases 16 - k,
    {
        let d: u8 = (rest % 16) as u8;
        let c: u8 = if d < 10 {
            48 + d
        } else {
            87 + d
        };
        digits.push(c);
        proof {
            assert(hex_digits(rest as nat, (16 - k) as nat) == hex_digits(
                (rest / 16) as nat,
                (15 - k) as nat,
            ).push(c));
            assert(hex_digits(v as nat, 16) =~= hex_digits((rest / 16) as nat, (15 - k) as nat) + (
            seq![c] + low));
            low = seq![c] + low;
        }
        rest = rest / 16;
        k += 1;
    }
    let mut i: usize = 16;
    assert(out@ =~= old(out)@ + low.take(0));
    while i > 0
        invariant
            i <= 16,
            digits@.len() == 16,
            low.len() == 16,
            forall|j: int| 0 <= j < 16 ==> digits@[j] == low[15 - j],
            out@ == old(out)@ + low.take(16 - i),
        decreases i,
    {
        i -= 1;
        out.push(digits[i]);
        assert(out@ =~= old(out)@ + low.take(16 - i));
    }
    assert(low.take(16) =~= low);
    assert(hex_digits(rest as nat, 0) =~= Seq::<u8>::empty());
    assert(out@ =~= old(out)@ + hex_digits(v as nat, 16));
}

/// The decimal digits of `n`, after a `-` where `n` is negative.
pub open spec fn signed_decimal(n: int) -> Seq<u8> {
    if n < 0 {
        seq![45u8] + decimal((-n) as nat)
    } else {
        decimal(n as nat)
    }
}

/// Appends `n` in decimal.
pub fn push_signed_decimal(out: &mut Vec<u8>, n: i64)
    ensures
        final(out)@ == old(out)@ + signed_decimal(n as int),
{
    if n < 0 {
        out.push(45);
        push_decimal(out, (-(n + 1)) as u64 + 1);
        assert(out@ =~= old(out)@ + signed_decimal(n as int));
    } else {
        push_decimal(out, n as u64);
    }
}

/// What the user is told of why the messages could not be had.
pub open spec fn load_error_text(e: MessagesLoadError) -> Seq<u8> {
    match e {
        MessagesLoadError::DatabaseError => DATABASE_ERROR.spec_bytes(),
        MessagesLoadError::NoSuchThread => NO_SUCH_THREAD.spec_bytes(),
    }
}

/// What the user is told of why the message could not be sent.
pub open spec fn send_error_text(e: MessageSendError, limits: Limits) -> Seq<u8> {
    match e {
        MessageSendError::DatabaseError => DATABASE_ERROR.spec_bytes(),
        MessageSendError::TooLong => TOO_LONG_HEAD.spec_bytes() + decimal(
            limits.msg_max_size as nat,
        ) + TOO_LONG_TAIL.spec_bytes(),
        MessageSendError::ThreadFull => THREAD_FULL_HEAD.spec_bytes() + decimal(
            limits.msg_max_unread_messages as nat,
        ) + THREAD_FULL_TAIL.spec_bytes(),
        MessageSendError::InboxFull => INBOX_FULL.spec_bytes(),
        MessageSendError::NoSuchThread => NO_SUCH_THREAD.spec_bytes(),
    }
}

/// One line per message: the time in brackets, who wrote it, and what.
pub open spec fn message_lines(messages: Seq<Message>) -> Seq<u8>
    decreases messages.len(),
{
    if messages.len() == 0 {
        Seq::empty()
    } else {
        let m = messages.last();
        message_lines(messages.drop_last()) + seq![40u8] + signed_decimal(m.timestamp as int)
            + seq![41u8, 32u8] + (if m.response {
            FROM_OWNER.spec_bytes()
        } else {
            FROM_USER.spec_bytes()
        }) + seq![32u8] + m.contents@ + seq![LF]
    }
}

/// What the user is told of the store's answer, with line feeds between
/// the lines.
pub open spec fn answer_text(result: MsgResult, limits: Limits) -> Seq<u8> {
    match result {
        MsgResult::Sent(Ok(thread)) => SENT_HEAD.spec_bytes() + thread.spec_text()
            + SENT_TAIL.spec_bytes(),
        MsgResult::Sent(Err(e)) => SEND_FAILED.spec_bytes() + send_error_text(e, limits),
        MsgResult::Replied(thread, Ok(_)) => REPLIED_HEAD.spec_bytes() + thread.spec_text()
            + SENT_TAIL.spec_bytes(),
        MsgResult::Replied(_, Err(e)) => SEND_FAILED.spec_bytes() + send_error_text(e, limits),
        MsgResult::Viewed(thread, Ok(messages)) => THREAD_HEAD.spec_bytes() + thread.spec_text()
            + seq![58u8, LF] + message_lines(messages@),
        MsgResult::Viewed(_, Err(e)) => LOAD_FAILED.spec_bytes() + load_error_text(e),
    }
}

/// What a `msg` command line comes to: something to ask of the store, or
/// something to tell the user at once.
pub enum MsgParse {
    Ask(MsgRequestView),
    Tell(Seq<u8>),
}

/// The part of a command line after its `k`-th space, or the empty text
/// where it has fewer spaces.
pub open spec fn after_words(command: Seq<u8>, k: nat) -> Seq<u8>
    decreases k,
{
    if k == 0 {
        command
    } else {
        match after_first_word(after_words(command, (k - 1) as nat)) {
            Some(rest) => rest,
            None => Seq::empty(),
        }
    }
}

/// Whether a command line has a word after its `k`-th space, be it empty.
pub open spec fn has_word(command: Seq<u8>, k: nat) -> bool
    decreases k,
{
    if k == 0 {
        true
    } else {
        has_word(command, (k - 1) as nat) && after_first_word(
            after_words(command, (k - 1) as nat),
        ) is Some
    }
}

/// What the command line `command`, whose first word is `msg`, comes to.
/// The second word says what to do. `send` takes all that follows as the
/// message. `reply` and `view` take a third word as the thread's name,
/// and `reply` takes all that follows it as the message. A message that
/// is too short is not sent, and anything else gets the usage.
pub open spec fn spec_parse_msg(command: Seq<u8>) -> MsgParse {
    let what = first_word(after_words(command, 1));
    let thread = first_word(after_words(command, 2));
    if has_word(command, 1) && what == WORD_SEND.spec_bytes() {
        let body = after_words(command, 2);
        if body.len() < MIN_FIRST_MESSAGE {
            MsgParse::Tell(SEND_USAGE.spec_bytes())
        } else {
            MsgParse::Ask(MsgRequestView::Send { body })
        }
    } else if has_word(command, 2) && what == WORD_REPLY.spec_bytes() {
        match ThreadId::spec_parse(thread) {
            None => MsgParse::Tell(ILL_FORMED_THREAD.spec_bytes()),
            Some(id) => {
                let body = after_words(command, 3);
                if body.len() < MIN_REPLY {
                    MsgParse::Tell(REPLY_USAGE.spec_bytes())
                } else {
                    MsgParse::Ask(MsgRequestView::Reply { thread: id, body })
                }
            },
        }
    } else if has_word(command, 2) && what == WORD_VIEW.spec_bytes() {
        match ThreadId::spec_parse(thread) {
            None => MsgParse::Tell(ILL_FORMED_THREAD.spec_bytes()),
            Some(id) => MsgParse::Ask(MsgRequestView::View { thread: id }),
        }
    } else {
        MsgParse::Tell(MSG_USAGE.spec_bytes())
    }
}

/// What follows the first space of `s`, or the empty text, and whether
/// there was a space.
fn rest_of(s: &[u8]) -> (r: (Vec<u8>, bool))
    ensures
        r.1 == after_first_word(s@) is Some,
        r.0@ == match after_first_word(s@) {
            Some(rest) => rest,
            None => Seq::empty(),
        },
{
    match after_first_word_of(s) {
        Some(rest) => (rest, true),
        None => (Vec::new(), false),
    }
}

/// What the command line `command`, whose first word is `msg`, comes to:
/// what to ask of the store, or what to tell the user at once.
pub fn parse_msg(command: &[u8]) -> (r: Result<MsgRequest, Vec<u8>>)
    ensures
        match r {
            Ok(request) => spec_parse_msg(command@) == MsgParse::Ask(request@),
            Err(text) => spec_parse_msg(command@) == MsgParse::Tell(text@),
        },
{
    let (one, has_one) = rest_of(command);
    let (two, has_two_here) = rest_of(one.as_slice());
    let has_two = has_one && has_two_here;
    let what = first_word_of(one.as_slice());
    let mut text: Vec<u8> = Vec::new();
    proof {
        assert(after_words(command@, 0) == command@);
        assert(after_words(command@, 1) == one@);
        assert(after_words(command@, 2) == two@);
        assert(has_word(command@, 0));
        assert(has_word(command@, 1) == has_one);
        assert(has_word(command@, 2) == has_two);
    }
    if has_one && bytes_eq_str(what.as_slice(), WORD_SEND) {
        if two.len() < MIN_FIRST_MESSAGE {
            push_str(&mut text, SEND_USAGE);
            return Err(text);
        }
        return Ok(MsgRequest::Send { body: two });
    }
    let is_reply = has_two && bytes_eq_str(what.as_slice(), WORD_REPLY);
    let is_view = !is_reply && has_two && bytes_eq_str(what.as_slice(), WORD_VIEW);
    if is_reply || is_view {
        let word = first_word_of(two.as_slice());
        let thread = match ThreadId::parse(word.as_slice()) {
            Some(thread) => thread,
            None => {
                push_str(&mut text, ILL_FORMED_THREAD);
                return Err(text);
            },
        };
        if is_view {
            return Ok(MsgRequest::View { thread });
        }
        let (three, _) = rest_of(two.as_slice());
        assert(after_words(command@, 3) == three@);
        if three.len() < MIN_REPLY {
            push_str(&mut text, REPLY_USAGE);
            return Err(text);
        }
        return Ok(MsgRequest::Reply { thread, body: three });
    }
    push_str(&mut text, MSG_USAGE);
    Err(text)
}

/// Appends what the user is told of why the message could not be sent.
fn push_send_error(out: &mut Vec<u8>, e: MessageSendError, limits: &Limits)
    ensures
        final(out)@ == old(out)@ + send_error_text(e, *limits),
{
    match e {
        MessageSendError::DatabaseError => {
            push_str(out, DATABASE_ERROR);
        },
        MessageSendError::TooLong => {
            push_str(out, TOO_LONG_HEAD);
            push_decimal(out, limits.msg_max_size as u64);
            push_str(out, TOO_LONG_TAIL);
            assert(out@ =~= old(out)@ + send_error_text(e, *limits));
        },
        MessageSendError::ThreadFull => {
            push_str(out, THREAD_FULL_HEAD);
            push_decimal(out, limits.msg_max_unread_messages as u64);
            push_str(out, THREAD_FULL_TAIL);
            assert(out@ =~= old(out)@ + send_error_text(e, *limits));
        },
        MessageSendError::InboxFull => {
            push_str(out, INBOX_FULL);
        },
        MessageSendError::NoSuchThread => {
            push_str(out, NO_SUCH_THREAD);
        },
    }
}

/// What the user is told of the store's answer, with line feeds between
/// the lines.
pub fn format_answer(result: &MsgResult, limits: &Limits) -> (r: Vec<u8>)
    ensures
        r@ == answer_text(*result, *limits),
{
    let mut out: Vec<u8> = Vec::new();
    match result {
        MsgResult::Sent(Ok(thread)) => {
            push_str(&mut out, SENT_HEAD);
            push_hex(&mut out, thread.to_bits());
            push_str(&mut out, SENT_TAIL);
            assert(out@ =~= answer_text(*result, *limits));
        },
        MsgResult::Sent(Err(e)) => {
            push_str(&mut out, SEND_FAILED);
            push_send_error(&mut out, *e, limits);
            assert(out@ =~= answer_text(*result, *limits));
        },
        MsgResult::Replied(thread, Ok(_)) => {
            push_str(&mut out, REPLIED_HEAD);
            push_hex(&mut out, thread.to_bits());
            push_str(&mut out, SENT_TAIL);
            assert(out@ =~= answer_text(*result, *limits));
        },
        MsgResult::Replied(_, Err(e)) => {
            push_str(&mut out, SEND_FAILED);
            push_send_error(&mut out, *e, limits);
            assert(out@ =~= answer_text(*result, *limits));
        },
        MsgResult::Viewed(thread, Ok(messages)) => {
            push_str(&mut out, THREAD_HEAD);
            push_hex(&mut out, thread.to_bits());
            out.push(58);
            out.push(LF);
            let ghost head = out@;
            let n = messages.len();
            let mut i: usize = 0;
            assert(messages@.take(0) =~= Seq::<Message>::empty());
            assert(out@ =~= head + message_lines(messages@.take(0)));
            while i < n
                invariant
                    i <= n,
                    n == messages@.len(),
                    out@ == head + message_lines(messages@.take(i as int)),
                decreases n - i,
            {
                proof {
                    let upto = messages@.take(i + 1);
                    assert(upto.drop_last() =~= messages@.take(i as int));
                    assert(upto.last() == messages@[i as int]);
                }
                let m = &messages[i];
                out.push(40);
                push_signed_decimal(&mut out, m.timestamp);
                out.push(41);
                out.push(32);
                if m.response {
                    push_str(&mut out, FROM_OWNER);
                } else {
                    push_str(&mut out, FROM_USER);
                }
                out.push(32);
                push_bytes(&mut out, m.contents.as_slice());
                out.push(LF);
                i += 1;
                assert(out@ =~= head + message_lines(messages@.take(i as int)));
            }
            assert(messages@.take(n as int) =~= messages@);
            assert(out@ =~= answer_text(*result, *limits));
        },
        MsgResult::Viewed(_, Err(e)) => {
            push_str(&mut out, LOAD_FAILED);
            match e {
                MessagesLoadError::DatabaseError => {
                    push_str(&mut out, DATABASE_ERROR);
                },
                MessagesLoadError::NoSuchThread => {
                    push_str(&mut out, NO_SUCH_THREAD);
                },
            }
            assert(out@ =~= answer_text(*result, *limits));
        },
    }
    out
}

/// Whether a message of `characters` characters may be sent: it is too
/// long where it has more than the limit allows.
pub fn check_message_size(characters: usize, limits: &Limits) -> (r: Result<(), MessageSendError>)
    ensures
        r == if characters > limits.msg_max_size {
            Err::<(), MessageSendError>(MessageSendError::TooLong)
        } else {
            Ok::<(), MessageSendError>(())
        },
{
    if characters > limits.msg_max_size {
        Err(MessageSendError::TooLong)
    } else {
        Ok(())
    }
}

/// Whether a further message may be sent on a thread. `unread` is how
/// many messages the thread holds without an answer, or nothing where
/// there is no such thread. A thread that holds as many as the limit
/// allows is full.
pub fn check_thread(unread: Option<usize>, limits: &Limits) -> (r: Result<(), MessageSendError>)
    ensures
        r == match unread {
            None => Err::<(), MessageSendError>(MessageSendError::NoSuchThread),
            Some(count) => if count >= limits.msg_max_unread_messages {
                Err::<(), MessageSendError>(MessageSendError::ThreadFull)
            } else {
                Ok::<(), MessageSendError>(())
            },
        },
{
    match unread {
        None => Err(MessageSendError::NoSuchThread),
        Some(count) => if count >= limits.msg_max_unread_messages {
            Err(MessageSendError::ThreadFull)
        } else {
            Ok(())
        },
    }
}

/// Whether a further thread may wait for an answer where `waiting`
/// threads do and at most `allowed` may: the inbox is full where as many
/// wait as may. Returns how many wait.
pub fn check_unread_thread_count(waiting: usize, allowed: usize) -> (r: Result<
    usize,
    MessageSendError,
>)
    ensures
        r == if waiting >= allowed {
            Err::<usize, MessageSendError>(MessageSendError::InboxFull)
        } else {
            Ok::<usize, MessageSendError>(waiting)
        },
{
    if waiting >= allowed {
        Err(MessageSendError::InboxFull)
    } else {
        Ok(waiting)
    }
}

} // verus!
