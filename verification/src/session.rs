//! One connection's session: it owns the line editor, knows where in the
//! file system the user stands and how large the terminal is, and hands
//! every byte either to the editor or to the program that has taken over
//! the terminal. A completed line is run as a command.
use crate::apps::{usable_size, vi_opens, vi_pager, vi_refusal, vi_target, RunningApp, Vim};
use crate::contact::{answer_text, format_answer, parse_msg, spec_parse_msg, Limits};
use crate::contact::{MsgParse, MsgRequest, MsgRequestView, MsgResult};
use crate::content::{dot_dot, SshContent};
use crate::pager::PagerState;
use crate::terminal::{clear_code, cursor_code, push_clear_code, push_cursor_code};
use crate::terminal::{Shell, ShellState, ETX};
use crate::text::{bytes_eq_str, first_word, first_word_of, listing, push_bytes, push_str};
use crate::text::{expand_lf, second_word, second_word_of, with_crlf, CR, LF};
use std::sync::Arc;
use vstd::prelude::*;
use vstd::string::StrSliceExecFns;
use vstd::string::StringSliceAdditionalSpecFns;

verus! {

/// What a user is told on arrival and on `help`.
pub const WELCOME_MESSAGE: &'static str =
    "Welcome to the SSH version of my website! This is very much a work in progress, but I hope you enjoy it nonetheless!\r\nTo navigate, use the 'ls' and 'cd' commands to see the available pages and 'cat' or 'vi' to view them.\r\nIf you have any feedback, use the 'msg' command to send it (or view any replies to messages you've sent).\r\nTo see this message again, just use `help`, and when you're ready to go, type 'exit' or 'logout' (or Ctrl-D).\r\n";

pub const VERB_EXIT: &'static str = "exit";

pub const VERB_LOGOUT: &'static str = "logout";

pub const VERB_HELP: &'static str = "help";

pub const VERB_LS: &'static str = "ls";

pub const VERB_CD: &'static str = "cd";

pub const VERB_CAT: &'static str = "cat";

pub const VERB_VI: &'static str = "vi";

pub const VERB_MSG: &'static str = "msg";

/// What follows an unknown command line in the answer to it.
pub const NOT_FOUND_TAIL: &'static str = ": command not found\r\n";

/// What follows the quoted name in the answer of `cd` to a name that is
/// no sub-directory.
pub const NO_DIRECTORY_TAIL: &'static str = "\": no such directory\r\n";

/// What `cat` answers where it is given no file.
pub const CAT_USAGE: &'static str = "cat: usage: cat <filename>\r\n";

/// What `cat` answers where the file does not exist: this, the path as it
/// was given, and `CAT_NO_FILE_TAIL`.
pub const CAT_NO_FILE_HEAD: &'static str = "cat: cannot open \"";

pub const CAT_NO_FILE_TAIL: &'static str = "\": No such file\r\n";

/// The program that has taken over the terminal, as mathematics.
pub struct AppState {
    /// Where the file that the pager shows is in the file system.
    pub at: (int, int),
    /// The pager.
    pub pager: PagerState,
}

/// A session, as mathematics.
pub struct SessionState {
    /// The line editor.
    pub shell: ShellState,
    /// The name under which the user got in.
    pub username: Seq<u8>,
    /// The name of the site.
    pub domain: Seq<u8>,
    /// The place in the arena of the directory in which the user stands.
    pub current_dir: int,
    /// The size of the terminal: columns and rows.
    pub term_size: (u32, u32),
    /// The program that has taken over the terminal, if one has.
    pub app: Option<AppState>,
}

/// What the session asks of the connection.
#[derive(Debug, PartialEq, Eq)]
pub enum Action {
    /// Nothing: all input was taken.
    Continue,
    /// The user is leaving: close the connection. Input after the command
    /// that said so was not taken.
    Disconnect,
    /// Ask this of the store of messages, hand its answer to
    /// `message_answer`, send what that returns, and go on with the input
    /// that was not taken.
    Message(MsgRequest),
}

/// What the session asks of the connection, as mathematics.
pub enum Ask {
    Nothing,
    Disconnect,
    Message(MsgRequestView),
}

impl View for Action {
    type V = Ask;

    open spec fn view(&self) -> Ask {
        match self {
            Action::Continue => Ask::Nothing,
            Action::Disconnect => Ask::Disconnect,
            Action::Message(request) => Ask::Message(request@),
        }
    }
}

/// What some input does to a session.
pub struct Outcome {
    pub state: SessionState,
    /// What to send to the terminal.
    pub output: Seq<u8>,
    /// What the connection is asked to do.
    pub action: Ask,
    /// How many bytes of the input were taken.
    pub consumed: nat,
}

/// The prompt: user, `@`, site, `:`, the path of the current directory,
/// `> `.
pub open spec fn spec_prompt(content: SshContent, s: SessionState) -> Seq<u8> {
    s.username + seq![64u8] + s.domain + seq![58u8] + content.directories@[s.current_dir].path@
        + seq![62u8, 32u8]
}

/// What `ls` prints: the sub-directories of the current directory, one
/// per line, then its files.
pub open spec fn ls_output(content: SshContent, s: SessionState) -> Seq<u8> {
    let here = content.directories@[s.current_dir];
    listing(here.directories.names()) + listing(here.files.names())
}

/// The directory that `cd` is asked for: the second word of the command
/// line, or the empty name where there is none.
pub open spec fn cd_name(command: Seq<u8>) -> Seq<u8> {
    match second_word(command) {
        Some(name) => name,
        None => Seq::empty(),
    }
}

/// Where `cd` leads, if anywhere: `..` to the directory above, or nowhere
/// from the root, and any other name to the sub-directory of that name.
pub open spec fn cd_target(content: SshContent, s: SessionState, command: Seq<u8>) -> Option<int> {
    let here = content.directories@[s.current_dir];
    if cd_name(command) == dot_dot() {
        match here.parent {
            Some(p) => Some(p as int),
            None => Some(s.current_dir),
        }
    } else {
        match here.directories.spec_get(cd_name(command)) {
            Some(i) => Some(i as int),
            None => None,
        }
    }
}

/// What `cd` prints: nothing where it leads somewhere, else the quoted
/// name and that there is no such directory.
pub open spec fn cd_output(content: SshContent, s: SessionState, command: Seq<u8>) -> Seq<u8> {
    if cd_target(content, s, command) is Some {
        Seq::empty()
    } else {
        seq![34u8] + cd_name(command) + NO_DIRECTORY_TAIL.spec_bytes()
    }
}

/// What `cat` prints: the file that the second word names, or that a file
/// must be given, or that there is no such file.
pub open spec fn cat_output(content: SshContent, s: SessionState, command: Seq<u8>) -> Seq<u8> {
    match second_word(command) {
        None => CAT_USAGE.spec_bytes(),
        Some(path) => match content.spec_locate(s.current_dir, path) {
            None => CAT_NO_FILE_HEAD.spec_bytes() + path + CAT_NO_FILE_TAIL.spec_bytes(),
            Some(at) => content.spec_file_at(at).contents@,
        },
    }
}

/// The commands that a session knows.
#[derive(Clone, Copy, Debug, PartialEq, Eq, Structural)]
pub enum Verb {
    /// `exit` and `logout`: the session ends.
    Leave,
    /// `help`: the welcome again.
    Help,
    /// `ls`: what the current directory holds.
    List,
    /// `cd`: into a sub-directory, or up.
    ChangeDir,
    /// `cat`: a file's contents.
    Print,
    /// `vi`: a file in the pager.
    Page,
    /// `msg`: messages to the site's owner.
    Message,
    /// An empty first word: nothing but a new prompt.
    Nothing,
    /// Anything else.
    Unknown,
}

/// The command that a first word names.
pub open spec fn verb_of(word: Seq<u8>) -> Verb {
    if word == VERB_EXIT.spec_bytes() || word == VERB_LOGOUT.spec_bytes() {
        Verb::Leave
    } else if word == VERB_HELP.spec_bytes() {
        Verb::Help
    } else if word == VERB_LS.spec_bytes() {
        Verb::List
    } else if word == VERB_CD.spec_bytes() {
        Verb::ChangeDir
    } else if word == VERB_CAT.spec_bytes() {
        Verb::Print
    } else if word == VERB_VI.spec_bytes() {
        Verb::Page
    } else if word == VERB_MSG.spec_bytes() {
        Verb::Message
    } else if word.len() == 0 {
        Verb::Nothing
    } else {
        Verb::Unknown
    }
}

/// The command that a first word names.
pub fn classify(word: &[u8]) -> (r: Verb)
    ensures
        r == verb_of(word@),
{
    if bytes_eq_str(word, VERB_EXIT) || bytes_eq_str(word, VERB_LOGOUT) {
        Verb::Leave
    } else if bytes_eq_str(word, VERB_HELP) {
        Verb::Help
    } else if bytes_eq_str(word, VERB_LS) {
        Verb::List
    } else if bytes_eq_str(word, VERB_CD) {
        Verb::ChangeDir
    } else if bytes_eq_str(word, VERB_CAT) {
        Verb::Print
    } else if bytes_eq_str(word, VERB_VI) {
        Verb::Page
    } else if bytes_eq_str(word, VERB_MSG) {
        Verb::Message
    } else if word.len() == 0 {
        Verb::Nothing
    } else {
        Verb::Unknown
    }
}

/// The session after the command line `command`. `cd` may change the
/// current directory and `vi` may start the pager; no other command
/// changes anything.
pub open spec fn after_command(
    content: SshContent,
    s: SessionState,
    command: Seq<u8>,
) -> SessionState {
    match verb_of(first_word(command)) {
        Verb::ChangeDir => match cd_target(content, s, command) {
            Some(target) => SessionState { current_dir: target, ..s },
            None => s,
        },
        Verb::Page => if vi_opens(content, s.current_dir, s.term_size, command) {
            SessionState {
                app: Some(
                    AppState {
                        at: vi_target(content, s.current_dir, command)->0,
                        pager: vi_pager(content, s.current_dir, s.term_size, command),
                    },
                ),
                ..s
            }
        } else {
            s
        },
        _ => s,
    }
}

/// What the command line `command` itself prints.
pub open spec fn command_output(content: SshContent, s: SessionState, command: Seq<u8>) -> Seq<u8> {
    match verb_of(first_word(command)) {
        Verb::Leave => Seq::empty(),
        Verb::Help => WELCOME_MESSAGE.spec_bytes(),
        Verb::List => ls_output(content, s),
        Verb::ChangeDir => cd_output(content, s, command),
        Verb::Print => cat_output(content, s, command),
        Verb::Page => if vi_opens(content, s.current_dir, s.term_size, command) {
            vi_pager(content, s.current_dir, s.term_size, command).render()
        } else {
            vi_refusal(content, s.current_dir, command)
        },
        Verb::Message => match spec_parse_msg(command) {
            MsgParse::Tell(text) => told(text),
            MsgParse::Ask(_) => Seq::empty(),
        },
        Verb::Nothing => Seq::empty(),
        Verb::Unknown => command + NOT_FOUND_TAIL.spec_bytes(),
    }
}

/// What `msg` prints of a text with line feeds between its lines: the
/// text and an empty line, with CR LF between the lines.
pub open spec fn told(text: Seq<u8>) -> Seq<u8> {
    expand_lf(text + seq![LF, LF])
}

/// What is sent when the store of messages has answered: what the user is
/// told of the answer, and a new prompt.
pub open spec fn answer_output(
    content: SshContent,
    s: SessionState,
    result: MsgResult,
    limits: Limits,
) -> Seq<u8> {
    told(answer_text(result, limits)) + spec_prompt(content, s)
}

/// What a completed command line does. `exit` and `logout` ask for the
/// connection to be closed, and a `msg` that has something to ask of the
/// store of messages asks it; neither prints anything. Every other
/// command prints what it prints, and a new prompt follows unless the
/// pager has started.
pub open spec fn run(content: SshContent, s: SessionState, command: Seq<u8>) -> Outcome {
    if verb_of(first_word(command)) == Verb::Leave {
        Outcome { state: s, output: Seq::empty(), action: Ask::Disconnect, consumed: 0 }
    } else if verb_of(first_word(command)) == Verb::Message && spec_parse_msg(command) is Ask {
        Outcome {
            state: s,
            output: Seq::empty(),
            action: Ask::Message(spec_parse_msg(command)->Ask_0),
            consumed: 0,
        }
    } else {
        let next = after_command(content, s, command);
        Outcome {
            state: next,
            output: command_output(content, s, command) + if next.app is None {
                spec_prompt(content, next)
            } else {
                Seq::empty()
            },
            action: Ask::Nothing,
            consumed: 0,
        }
    }
}

/// What one byte of input does. While the pager runs, Ctrl-C ends it,
/// blanks the screen and prompts, and every other byte is the pager's.
/// Otherwise the byte is the line editor's, and a line that it completes
/// is run after its echo.
pub open spec fn byte_step(content: SshContent, s: SessionState, b: u8) -> Outcome {
    match s.app {
        Some(app) => if b == ETX {
            let next = SessionState { app: None, ..s };
            Outcome {
                state: next,
                output: clear_code() + cursor_code(0, 0) + spec_prompt(content, next),
                action: Ask::Nothing,
                consumed: 1,
            }
        } else {
            Outcome {
                state: SessionState {
                    app: Some(AppState { pager: app.pager.after_key(b), ..app }),
                    ..s
                },
                output: app.pager.key_output(b),
                action: Ask::Nothing,
                consumed: 1,
            }
        },
        None => {
            let reaction = s.shell.step(b);
            let edited = SessionState { shell: reaction.state, ..s };
            match reaction.command {
                None => Outcome {
                    state: edited,
                    output: reaction.echo,
                    action: Ask::Nothing,
                    consumed: 1,
                },
                Some(command) => {
                    let ran = run(content, edited, command);
                    Outcome { output: reaction.echo + ran.output, consumed: 1, ..ran }
                },
            }
        },
    }
}

/// What a run of input does: its bytes one after the other, up to and
/// including the first that asks something of the connection.
pub open spec fn feed(content: SshContent, s: SessionState, input: Seq<u8>) -> Outcome
    decreases input.len(),
{
    if input.len() == 0 {
        Outcome { state: s, output: Seq::empty(), action: Ask::Nothing, consumed: 0 }
    } else {
        let first = byte_step(content, s, input[0]);
        if !(first.action is Nothing) {
            first
        } else {
            let rest = feed(content, first.state, input.skip(1));
            Outcome {
                output: first.output + rest.output,
                consumed: 1 + rest.consumed,
                ..rest
            }
        }
    }
}

/// What a new size of the terminal does: the session notes it, and a
/// running pager draws itself anew if the size can hold it.
pub open spec fn after_window_change(s: SessionState, size: (u32, u32)) -> SessionState {
    SessionState {
        term_size: size,
        app: match s.app {
            Some(app) => Some(
                if usable_size(size) {
                    AppState {
                        pager: app.pager.after_resize(size.0 as nat, (size.1 - 1) as nat),
                        ..app
                    }
                } else {
                    app
                },
            ),
            None => None,
        },
        ..s
    }
}

/// What is sent after a new size of the terminal: with a running pager
/// and a size that can hold it, the pager's window; else nothing.
pub open spec fn window_change_output(s: SessionState, size: (u32, u32)) -> Seq<u8> {
    match s.app {
        Some(app) => if usable_size(size) {
            app.pager.after_resize(size.0 as nat, (size.1 - 1) as nat).render()
        } else {
            Seq::empty()
        },
        None => Seq::empty(),
    }
}

/// What a session answers to some input.
pub struct Reply {
    /// What to send to the terminal.
    pub output: Vec<u8>,
    /// How many bytes of the input were taken.
    pub consumed: usize,
    /// What the connection is asked to do.
    pub action: Action,
}

/// One connection's session over one snapshot of the file system.
pub struct SshSession {
    id: usize,
    shell: Shell,
    /// The name under which the user got in.
    username: Vec<u8>,
    /// The name of the site, as the prompt shows it.
    domain: Vec<u8>,
    /// The snapshot that the session browses, from connect to disconnect.
    content: Arc<SshContent>,
    /// The place in the arena of the directory in which the user stands.
    current_dir: usize,
    /// The size of the terminal: columns and rows.
    term_size: (u32, u32),
    /// The program that has taken over the terminal, if one has.
    running_app: Option<RunningApp>,
}

impl View for SshSession {
    type V = SessionState;

    closed spec fn view(&self) -> SessionState {
        SessionState {
            shell: self.shell@,
            username: self.username@,
            domain: self.domain@,
            current_dir: self.current_dir as int,
            term_size: self.term_size,
            app: match self.running_app {
                Some(RunningApp::Vim(vim)) => Some(AppState { at: vim.locator(), pager: vim@ }),
                None => None,
            },
        }
    }
}

impl SshSession {
    /// The number of the connection.
    pub closed spec fn id(&self) -> usize {
        self.id
    }

    /// The snapshot that the session browses, from connect to disconnect.
    pub closed spec fn content(&self) -> SshContent {
        *self.content
    }

    /// What holds of every session: the snapshot is well formed and holds
    /// the current directory, the line editor is well formed, and a
    /// running pager shows a file of this snapshot with its cursor in the
    /// window.
    pub closed spec fn wf(&self) -> bool {
        &&& self.content.wf()
        &&& self.current_dir < self.content.directories@.len()
        &&& self.shell@.wf()
        &&& match self.running_app {
            Some(RunningApp::Vim(vim)) => vim.inv() && vim.content() == *self.content,
            None => true,
        }
    }

    /// A well-formed session has a well-formed editor, stands in a
    /// directory of its snapshot, and a pager that it runs shows its
    /// cursor.
    pub proof fn lemma_wf(&self)
        requires
            self.wf(),
        ensures
            self.content().wf(),
            self@.shell.wf(),
            0 <= self@.current_dir < self.content().directories@.len(),
            self@.app matches Some(app) ==> app.pager.inv(),
    {
        match self.running_app {
            Some(RunningApp::Vim(vim)) => {
                vim.lemma_wf();
            },
            None => {},
        }
    }

    /// The session of connection `id` on the site `domain`, at the root
    /// of `content`. No user is named yet, and the terminal is taken to
    /// have 80 columns and 24 rows until it says otherwise.
    pub fn new(id: usize, content: Arc<SshContent>, domain: Vec<u8>) -> (r: Self)
        requires
            content.wf(),
        ensures
            r.wf(),
            r.id() == id,
            r.content() == *content,
            r@ == (SessionState {
                shell: ShellState::initial(),
                username: Seq::empty(),
                domain: domain@,
                current_dir: 0,
                term_size: (80u32, 24u32),
                app: None,
            }),
    {
        Self {
            id,
            shell: Shell::new(),
            username: Vec::new(),
            domain,
            content,
            current_dir: 0,
            term_size: (80, 24),
            running_app: None,
        }
    }

    /// The number of the connection.
    pub fn connection_id(&self) -> (r: usize)
        ensures
            r == self.id(),
    {
        self.id
    }

    /// The name under which the user got in.
    pub fn user_name(&self) -> (r: &[u8])
        ensures
            r@ == self@.username,
    {
        self.username.as_slice()
    }

    /// The place in the arena of the directory in which the user stands.
    pub fn current_dir(&self) -> (r: usize)
        ensures
            r == self@.current_dir,
    {
        self.current_dir
    }

    /// The snapshot that the session browses.
    pub fn content_handle(&self) -> (r: &Arc<SshContent>)
        ensures
            **r == self.content(),
    {
        &self.content
    }

    /// The size of the terminal: columns and rows.
    pub fn terminal_size(&self) -> (r: (u32, u32))
        ensures
            r == self@.term_size,
    {
        self.term_size
    }

    /// Whether a program has taken over the terminal.
    pub fn has_running_app(&self) -> (r: bool)
        ensures
            r == self@.app is Some,
    {
        self.running_app.is_some()
    }

    /// The program that has taken over the terminal, if one has.
    pub fn running_app(&self) -> (r: &Option<RunningApp>)
        ensures
            match *r {
                Some(RunningApp::Vim(vim)) => self@.app == Some(
                    AppState { at: vim.locator(), pager: vim@ },
                ),
                None => self@.app is None,
            },
    {
        &self.running_app
    }

    /// Notes the name under which the user got in. Everyone gets in.
    pub fn auth(&mut self, user: &str)
        requires
            old(self).wf(),
        ensures
            final(self).wf(),
            final(self).content() == old(self).content(),
            final(self)@ == (SessionState { username: user.spec_bytes(), ..old(self)@ }),
    {
        self.username = user.as_bytes_vec();
    }

    /// The prompt.
    pub fn prompt(&self) -> (r: Vec<u8>)
        requires
            self.wf(),
        ensures
            r@ == spec_prompt(self.content(), self@),
    {
        let mut r: Vec<u8> = Vec::new();
        push_bytes(&mut r, self.username.as_slice());
        r.push(64);
        push_bytes(&mut r, self.domain.as_slice());
        r.push(58);
        push_bytes(&mut r, self.content.directories[self.current_dir].path.as_slice());
        r.push(62);
        r.push(32);
        assert(r@ =~= spec_prompt(self.content(), self@));
        r
    }

    /// Takes the size of the terminal as the user's program first states
    /// it. Returns the welcome and the first prompt.
    pub fn pty_request(&mut self, col_width: u32, row_height: u32) -> (r: Vec<u8>)
        requires
            old(self).wf(),
        ensures
            final(self).wf(),
            final(self).content() == old(self).content(),
            final(self)@ == (SessionState { term_size: (col_width, row_height), ..old(self)@ }),
            r@ == WELCOME_MESSAGE.spec_bytes() + spec_prompt(old(self).content(), old(self)@),
    {
        self.term_size = (col_width, row_height);
        let mut r: Vec<u8> = Vec::new();
        push_str(&mut r, WELCOME_MESSAGE);
        let prompt = self.prompt();
        push_bytes(&mut r, prompt.as_slice());
        r
    }

    /// Takes a new size of the terminal. Returns what draws a running
    /// pager in it.
    pub fn window_change_request(&mut self, col_width: u32, row_height: u32) -> (r: Vec<u8>)
        requires
            old(self).wf(),
        ensures
            final(self).wf(),
            final(self).content() == old(self).content(),
            final(self)@ == after_window_change(old(self)@, (col_width, row_height)),
            r@ == window_change_output(old(self)@, (col_width, row_height)),
    {
        self.term_size = (col_width, row_height);
        match &mut self.running_app {
            Some(app) => app.resize(col_width, row_height),
            None => Vec::new(),
        }
    }

    /// Takes the answer of the store of messages to what the session asked
    /// of it. Returns what to send to the terminal: what the user is told
    /// of the answer, and a new prompt.
    pub fn message_answer(&self, result: &MsgResult, limits: &Limits) -> (r: Vec<u8>)
        requires
            self.wf(),
        ensures
            r@ == answer_output(self.content(), self@, *result, *limits),
    {
        let mut text = format_answer(result, limits);
        text.push(LF);
        text.push(LF);
        assert(text@ =~= answer_text(*result, *limits) + seq![LF, LF]);
        let mut out = with_crlf(text.as_slice());
        let prompt = self.prompt();
        push_bytes(&mut out, prompt.as_slice());
        out
    }

    /// Runs a completed command line. Returns what it prints, with the
    /// prompt that follows, and what the connection is asked to do.
    fn run(&mut self, command: Vec<u8>) -> (r: (Vec<u8>, Action))
        requires
            old(self).wf(),
            old(self).running_app is None,
        ensures
            final(self).wf(),
            final(self).content() == old(self).content(),
            final(self)@ == run(old(self).content(), old(self)@, command@).state,
            r.0@ == run(old(self).content(), old(self)@, command@).output,
            r.1@ == run(old(self).content(), old(self)@, command@).action,
    {
        let ghost s = self@;
        let ghost content = self.content();
        let mut out: Vec<u8> = Vec::new();
        let word = first_word_of(command.as_slice());
        let verb = classify(word.as_slice());
        let here = &self.content.directories[self.current_dir];
        assert(here.wf(self.content.directories@.len() as int));
        match verb {
            Verb::Leave => {
                return (out, Action::Disconnect);
            },
            Verb::Help => {
                push_str(&mut out, WELCOME_MESSAGE);
            },
            Verb::List => {
                push_listing(&mut out, &here.directories);
                push_listing(&mut out, &here.files);
            },
            Verb::ChangeDir => {
                let name = match second_word_of(command.as_slice()) {
                    Some(name) => name,
                    None => Vec::new(),
                };
                assert(name@ =~= cd_name(command@));
                let target = if name.len() == 2 && name[0] == 46 && name[1] == 46 {
                    assert(name@ =~= dot_dot());
                    match here.parent {
                        Some(p) => Some(p),
                        None => Some(self.current_dir),
                    }
                } else {
                    assert(name@ != dot_dot()) by {
                        if name@ == dot_dot() {
                            assert(name@.len() == 2 && name@[0] == 46 && name@[1] == 46);
                        }
                    }
                    match here.directories.position(name.as_slice()) {
                        Some(p) => Some(*here.directories.value_at(p)),
                        None => None,
                    }
                };
                assert(match target {
                    Some(t) => cd_target(content, s, command@) == Some(t as int),
                    None => cd_target(content, s, command@) is None,
                });
                match target {
                    Some(target) => {
                        self.current_dir = target;
                        assert(self@ == (SessionState { current_dir: target as int, ..s }));
                    },
                    None => {
                        out.push(34);
                        push_bytes(&mut out, name.as_slice());
                        push_str(&mut out, NO_DIRECTORY_TAIL);
                        assert(out@ =~= cd_output(content, s, command@));
                    },
                }
            },
            Verb::Print => {
                match second_word_of(command.as_slice()) {
                    None => {
                        push_str(&mut out, CAT_USAGE);
                    },
                    Some(path) => match self.content.get_file(self.current_dir, path.as_slice()) {
                        None => {
                            push_str(&mut out, CAT_NO_FILE_HEAD);
                            push_bytes(&mut out, path.as_slice());
                            push_str(&mut out, CAT_NO_FILE_TAIL);
                        },
                        Some(file) => {
                            push_bytes(&mut out, file.raw_contents());
                        },
                    },
                }
                assert(out@ =~= cat_output(content, s, command@));
            },
            Verb::Page => {
                match Vim::startup(self, command.as_slice()) {
                    Ok((app, window)) => {
                        self.running_app = Some(app);
                        out = window;
                    },
                    Err(message) => {
                        out = message;
                    },
                }
            },
            Verb::Message => {
                match parse_msg(command.as_slice()) {
                    Ok(request) => {
                        return (out, Action::Message(request));
                    },
                    Err(mut text) => {
                        text.push(LF);
                        text.push(LF);
                        out = with_crlf(text.as_slice());
                        assert(text@ =~= spec_parse_msg(command@)->Tell_0 + seq![LF, LF]);
                    },
                }
            },
            Verb::Nothing => {},
            Verb::Unknown => {
                push_bytes(&mut out, command.as_slice());
                push_str(&mut out, NOT_FOUND_TAIL);
            },
        }
        assert(out@ =~= command_output(content, s, command@));
        assert(self@ == after_command(content, s, command@));
        if self.running_app.is_none() {
            let prompt = self.prompt();
            push_bytes(&mut out, prompt.as_slice());
        }
        assert(out@ =~= run(content, s, command@).output);
        (out, Action::Continue)
    }

    /// Takes one byte of input.
    fn byte(&mut self, b: u8) -> (r: (Vec<u8>, Action))
        requires
            old(self).wf(),
        ensures
            final(self).wf(),
            final(self).content() == old(self).content(),
            final(self)@ == byte_step(old(self).content(), old(self)@, b).state,
            r.0@ == byte_step(old(self).content(), old(self)@, b).output,
            r.1@ == byte_step(old(self).content(), old(self)@, b).action,
    {
        if self.running_app.is_some() {
            if b == ETX {
                self.running_app = None;
                let mut out: Vec<u8> = Vec::new();
                push_clear_code(&mut out);
                push_cursor_code(&mut out, 0, 0);
                let prompt = self.prompt();
                push_bytes(&mut out, prompt.as_slice());
                (out, Action::Continue)
            } else {
                let out = match &mut self.running_app {
                    Some(app) => app.data(b),
                    None => Vec::new(),
                };
                (out, Action::Continue)
            }
        } else {
            let (mut out, command) = self.shell.process(b);
            match command {
                None => (out, Action::Continue),
                Some(command) => {
                    let (printed, action) = self.run(command);
                    push_bytes(&mut out, printed.as_slice());
                    (out, action)
                },
            }
        }
    }

    /// Takes input from the terminal, byte by byte, until the input ends
    /// or a command asks for the connection to be closed. Returns what to
    /// send to the terminal, how much of the input was taken, and what
    /// the connection is asked to do.
    pub fn data(&mut self, data: &[u8]) -> (r: Reply)
        requires
            old(self).wf(),
        ensures
            final(self).wf(),
            final(self).content() == old(self).content(),
            final(self)@ == feed(old(self).content(), old(self)@, data@).state,
            r.output@ == feed(old(self).content(), old(self)@, data@).output,
            r.consumed == feed(old(self).content(), old(self)@, data@).consumed,
            r.action@ == feed(old(self).content(), old(self)@, data@).action,
            r.consumed <= data@.len(),
            r.action is Continue ==> r.consumed == data@.len(),
    {
        let ghost first = self@;
        let ghost content = self.content();
        let ghost whole = feed(content, first, data@);
        let mut output: Vec<u8> = Vec::new();
        let mut i: usize = 0;
        assert(data@.skip(0) =~= data@);
        assert(whole.output =~= output@ + whole.output);
        while i < data.len()
            invariant
                i <= data@.len(),
                self.wf(),
                self.content() == old(self).content(),
                content == self.content(),
                first == old(self)@,
                whole == feed(content, first, data@),
                whole.state == feed(content, self@, data@.skip(i as int)).state,
                whole.output == output@ + feed(content, self@, data@.skip(i as int)).output,
                whole.consumed == i + feed(content, self@, data@.skip(i as int)).consumed,
                whole.action == feed(content, self@, data@.skip(i as int)).action,
            decreases data@.len() - i,
        {
            let ghost before = self@;
            let ghost seen = output@;
            let ghost rest = data@.skip(i as int);
            proof {
                assert(rest[0] == data@[i as int]);
                assert(rest.skip(1) =~= data@.skip(i + 1));
                lemma_feed_step(content, before, rest);
            }
            let (out, action) = self.byte(data[i]);
            push_bytes(&mut output, out.as_slice());
            i += 1;
            let ghost tail = feed(content, self@, data@.skip(i as int));
            match action {
                Action::Continue => {
                    assert(whole.output =~= output@ + tail.output) by {
                        assert(whole.output == seen + (out@ + tail.output));
                        assert(output@ == seen + out@);
                    }
                },
                _ => {
                    assert(whole.output =~= output@);
                    return Reply { output, consumed: i, action };
                },
            }
        }
        proof {
            let tail = feed(content, self@, data@.skip(i as int));
            assert(tail.output =~= Seq::<u8>::empty());
            assert(whole.output =~= output@);
        }
        Reply { output, consumed: i, action: Action::Continue }
    }
}

/// A run of input does what its first byte does and then, unless that
/// byte asks something of the connection, what the rest does.
pub proof fn lemma_feed_step(content: SshContent, s: SessionState, input: Seq<u8>)
    requires
        input.len() > 0,
    ensures
        ({
            let first = byte_step(content, s, input[0]);
            let rest = feed(content, first.state, input.skip(1));
            let all = feed(content, s, input);
            if !(first.action is Nothing) {
                all == first
            } else {
                &&& all.state == rest.state
                &&& all.output == first.output + rest.output
                &&& all.consumed == 1 + rest.consumed
                &&& all.action == rest.action
            }
        }),
{
}

/// Appends the names of `map`, one per line.
fn push_listing<T>(out: &mut Vec<u8>, map: &crate::content::NameMap<T>)
    requires
        map.wf(),
    ensures
        final(out)@ == old(out)@ + listing(map.names()),
{
    let n = map.len();
    let mut i: usize = 0;
    assert(map.names().take(0) =~= Seq::<Seq<u8>>::empty());
    while i < n
        invariant
            i <= n,
            n == map.names().len(),
            map.wf(),
            out@ == old(out)@ + listing(map.names().take(i as int)),
        decreases n - i,
    {
        proof {
            let upto = map.names().take(i + 1);
            assert(upto.drop_last() =~= map.names().take(i as int));
            assert(upto.last() == map.names()[i as int]);
        }
        push_bytes(out, map.name_at(i).as_slice());
        out.push(CR);
        out.push(LF);
        i += 1;
        assert(out@ =~= old(out)@ + listing(map.names().take(i as int)));
    }
    assert(map.names().take(n as int) =~= map.names());
}

/// A `vi` that opens no pager leaves the session as it was, in the shell,
/// and prints why and a new prompt.
pub proof fn lemma_refused_vi(content: SshContent, s: SessionState, command: Seq<u8>)
    requires
        s.app is None,
        verb_of(first_word(command)) == Verb::Page,
        !vi_opens(content, s.current_dir, s.term_size, command),
    ensures
        run(content, s, command).state == s,
        run(content, s, command).state.app is None,
        run(content, s, command).action is Nothing,
        run(content, s, command).output == vi_refusal(content, s.current_dir, command)
            + spec_prompt(content, s),
{
}

/// Shell and pager never share the terminal: while the pager runs, no
/// byte reaches the line editor.
pub proof fn lemma_pager_owns_input(content: SshContent, s: SessionState, b: u8)
    requires
        s.app is Some,
    ensures
        byte_step(content, s, b).state.shell == s.shell,
        byte_step(content, s, b).action is Nothing,
        b != ETX ==> byte_step(content, s, b).state.app is Some,
        b == ETX ==> byte_step(content, s, b).state.app is None,
{
}

} // verus!
