//! The two halves of talking to a raw terminal: the escape codes that the
//! server sends, and the line editor that turns the bytes a user types into
//! an edited line, its echo, and completed commands.
use crate::text::{copy_range, push_decimal, push_range, push_repeat, push_repeat_seq};
use crate::text::{decimal, repeat, repeat_seq, rows};
use vstd::prelude::*;

verus! {

/// Start of a line (Ctrl-A).
pub const SOH: u8 = 1;

/// Interrupt (Ctrl-C).
pub const ETX: u8 = 3;

/// End of input (Ctrl-D).
pub const EOT: u8 = 4;

/// End of a line (Ctrl-E).
pub const ENQ: u8 = 5;

/// Backspace: also the code that moves the terminal's cursor one cell left.
pub const BS: u8 = 8;

pub const LINE_FEED: u8 = 10;

pub const CARRIAGE_RETURN: u8 = 13;

/// Escape: the first byte of every arrow key.
pub const ESC: u8 = 27;

pub const BLANK: u8 = 32;

/// `[`, the second byte of every arrow key.
pub const BRACKET: u8 = 91;

pub const ARROW_UP: u8 = 65;

pub const ARROW_DOWN: u8 = 66;

pub const ARROW_RIGHT: u8 = 67;

pub const ARROW_LEFT: u8 = 68;

pub const DEL: u8 = 127;

/// `ESC [ 2 J`: blanks the whole screen and leaves the cursor where it is.
pub open spec fn clear_code() -> Seq<u8> {
    seq![27u8, 91u8, 50u8, 74u8]
}

/// `ESC [ ? 2 5 l`: hides the cursor.
pub open spec fn hide_cursor_code() -> Seq<u8> {
    seq![27u8, 91u8, 63u8, 50u8, 53u8, 108u8]
}

/// `ESC [ ? 2 5 h`: shows the cursor.
pub open spec fn show_cursor_code() -> Seq<u8> {
    seq![27u8, 91u8, 63u8, 50u8, 53u8, 104u8]
}

/// `ESC [ row ; column H`: puts the cursor in column `x` of row `y`, both
/// counted from 0 here and written from 1 in the code.
pub open spec fn cursor_code(x: int, y: int) -> Seq<u8> {
    seq![27u8, 91u8] + decimal((y + 1) as nat) + seq![59u8] + decimal((x + 1) as nat) + seq![72u8]
}

/// What the terminal is sent when the right arrow moves the cursor: the
/// arrow's own three bytes.
pub open spec fn right_code() -> Seq<u8> {
    seq![27u8, 91u8, 67u8]
}

/// What the terminal is sent when the left arrow moves the cursor.
pub open spec fn left_code() -> Seq<u8> {
    seq![27u8, 91u8, 68u8]
}

/// Appends the code that puts the cursor at column `x` of row `y`.
pub fn push_cursor_code(out: &mut Vec<u8>, x: u16, y: u16)
    ensures
        final(out)@ == old(out)@ + cursor_code(x as int, y as int),
{
    out.push(27);
    out.push(91);
    push_decimal(out, y as u64 + 1);
    out.push(59);
    push_decimal(out, x as u64 + 1);
    out.push(72);
    assert(out@ =~= old(out)@ + cursor_code(x as int, y as int));
}

/// Appends the code that blanks the screen.
pub fn push_clear_code(out: &mut Vec<u8>)
    ensures
        final(out)@ == old(out)@ + clear_code(),
{
    out.push(27);
    out.push(91);
    out.push(50);
    out.push(74);
    assert(out@ =~= old(out)@ + clear_code());
}

/// A queue of terminal output under construction.
///
/// Each method takes the queue, appends one thing, and hands it back, so
/// that calls chain; `into_data` ends the chain.
pub struct TerminalUtils {
    pos: Option<(u16, u16)>,
    data: Vec<u8>,
}

impl TerminalUtils {
    /// The bytes queued so far.
    pub closed spec fn bytes(&self) -> Seq<u8> {
        self.data@
    }

    /// Where the cursor stands after the last `place`, if anything was
    /// placed yet: one cell to the right of what was placed.
    pub closed spec fn pos(&self) -> Option<(u16, u16)> {
        self.pos
    }

    /// An empty queue.
    pub fn new() -> (r: Self)
        ensures
            r.bytes() == Seq::<u8>::empty(),
            r.pos() is None,
    {
        Self { pos: None, data: Vec::new() }
    }

    /// Queues the byte `c` for the cell `(x, y)`. The cursor is moved
    /// there first unless the last `place` left it there.
    pub fn place(self, x: u16, y: u16, c: u8) -> (r: Self)
        requires
            x < u16::MAX,
        ensures
            r.bytes() == self.bytes() + (if self.pos() == Some((x, y)) {
                Seq::<u8>::empty()
            } else {
                cursor_code(x as int, y as int)
            }).push(c),
            r.pos() == Some(((x + 1) as u16, y)),
    {
        let mut data = self.data;
        let there = match self.pos {
            Some(p) => p.0 == x && p.1 == y,
            None => false,
        };
        if !there {
            push_cursor_code(&mut data, x, y);
        }
        data.push(c);
        assert(data@ =~= self.data@ + (if self.pos == Some((x, y)) {
            Seq::<u8>::empty()
        } else {
            cursor_code(x as int, y as int)
        }).push(c));
        Self { pos: Some((x + 1, y)), data }
    }

    /// Queues the code that hides the cursor.
    pub fn hide_cursor(self) -> (r: Self)
        ensures
            r.bytes() == self.bytes() + hide_cursor_code(),
            r.pos() == self.pos(),
    {
        let mut data = self.data;
        data.push(27);
        data.push(91);
        data.push(63);
        data.push(50);
        data.push(53);
        data.push(108);
        assert(data@ =~= self.data@ + hide_cursor_code());
        Self { pos: self.pos, data }
    }

    /// Queues the code that shows the cursor.
    pub fn show_cursor(self) -> (r: Self)
        ensures
            r.bytes() == self.bytes() + show_cursor_code(),
            r.pos() == self.pos(),
    {
        let mut data = self.data;
        data.push(27);
        data.push(91);
        data.push(63);
        data.push(50);
        data.push(53);
        data.push(104);
        assert(data@ =~= self.data@ + show_cursor_code());
        Self { pos: self.pos, data }
    }

    /// Queues the code that moves the cursor to column `x` of row `y`.
    pub fn move_cursor(self, x: u16, y: u16) -> (r: Self)
        ensures
            r.bytes() == self.bytes() + cursor_code(x as int, y as int),
            r.pos() == self.pos(),
    {
        let mut data = self.data;
        push_cursor_code(&mut data, x, y);
        Self { pos: self.pos, data }
    }

    /// Queues the code that blanks the screen. The cursor stays.
    pub fn clear(self) -> (r: Self)
        ensures
            r.bytes() == self.bytes() + clear_code(),
            r.pos() == self.pos(),
    {
        let mut data = self.data;
        push_clear_code(&mut data);
        Self { pos: self.pos, data }
    }

    /// The queued bytes, in the order in which they were queued.
    pub fn into_data(self) -> (r: Vec<u8>)
        ensures
            r@ == self.bytes(),
    {
        self.data
    }
}

/// What a line editor holds, as mathematics.
pub struct ShellState {
    /// How many bytes of the current line stand left of the cursor.
    pub cursor: nat,
    /// The submitted lines, oldest first.
    pub history: Seq<Seq<u8>>,
    /// The lines that can be edited. The first is the new line; the one at
    /// depth `d > 0` began as a copy of the `d`-th newest submitted line.
    pub working: Seq<Seq<u8>>,
    /// The depth of the line under the cursor.
    pub index: nat,
    /// The bytes of an arrow key that have arrived so far.
    pub escape: Seq<u8>,
}

/// What one byte of input does to a line editor.
pub struct Reaction {
    pub state: ShellState,
    /// The bytes that bring the user's screen up to date.
    pub echo: Seq<u8>,
    /// The line to run, where the byte completed one.
    pub command: Option<Seq<u8>>,
}

/// The command that ends the session, as Ctrl-D submits it.
pub open spec fn exit_command() -> Seq<u8> {
    seq![101u8, 120u8, 105u8, 116u8]
}

/// The working lines after a visit to depth `index`: a depth that was never
/// visited gets its copy of the submitted line.
pub open spec fn materialised(working: Seq<Seq<u8>>, history: Seq<Seq<u8>>, index: nat) -> Seq<
    Seq<u8>,
> {
    if index < working.len() {
        working
    } else {
        working + Seq::new(
            (index + 1 - working.len()) as nat,
            |j: int| history[history.len() - working.len() - j],
        )
    }
}

impl ShellState {
    /// The state of an editor that has seen no input.
    pub open spec fn initial() -> ShellState {
        ShellState {
            cursor: 0,
            history: Seq::empty(),
            working: seq![Seq::<u8>::empty()],
            index: 0,
            escape: Seq::empty(),
        }
    }

    /// What holds of every editor: the depth names a working line, there
    /// is at most one working line per submitted line besides the new one,
    /// the cursor is inside the line or at its end, and an unfinished arrow
    /// key has at most two bytes.
    pub open spec fn wf(self) -> bool {
        &&& self.index < self.working.len()
        &&& self.working.len() <= self.history.len() + 1
        &&& self.cursor <= self.line().len()
        &&& self.escape.len() <= 2
    }

    /// The line under the cursor.
    pub open spec fn line(self) -> Seq<u8> {
        self.working[self.index as int]
    }

    /// The same editor with `line` under the cursor and the cursor at
    /// `cursor`.
    pub open spec fn edited(self, line: Seq<u8>, cursor: nat) -> ShellState {
        ShellState { cursor, working: self.working.update(self.index as int, line), ..self }
    }

    /// The same editor with the cursor at `cursor`.
    pub open spec fn moved(self, cursor: nat) -> ShellState {
        ShellState { cursor, ..self }
    }

    /// The same editor with an empty new line and all other working lines
    /// forgotten.
    pub open spec fn reset(self) -> ShellState {
        ShellState { cursor: 0, working: seq![Seq::<u8>::empty()], index: 0, ..self }
    }

    /// The depth clamped to the number of submitted lines, and the working
    /// lines materialised up to it.
    pub open spec fn settled(self) -> ShellState {
        let index = if self.index > self.history.len() {
            self.history.len()
        } else {
            self.index
        };
        ShellState { index, working: materialised(self.working, self.history, index), ..self }
    }

    /// The editor at depth `index`, with the cursor at the end of that line.
    pub open spec fn browsing(self, index: nat) -> ShellState {
        let there = ShellState { index, ..self }.settled();
        ShellState { cursor: there.line().len(), ..there }
    }

    /// The bytes that replace the line on screen by `next`: back to the
    /// start, blanks over the old line, back again, then the new line.
    pub open spec fn repaint(self, next: Seq<u8>) -> Seq<u8> {
        repeat(BS, self.cursor) + repeat(BLANK, self.line().len()) + repeat(BS, self.line().len())
            + next
    }

    /// CR or LF: the line is submitted.
    pub open spec fn submit(self) -> Reaction {
        Reaction {
            state: ShellState { history: self.history.push(self.line()), ..self.reset() },
            echo: seq![CARRIAGE_RETURN, LINE_FEED],
            command: Some(self.line()),
        }
    }

    /// BS or DEL: the byte left of the cursor goes. At the end of the line
    /// one blank wipes it; inside the line the rest is written again one
    /// cell further left, a blank wipes the last cell, and the cursor
    /// returns.
    pub open spec fn erase(self) -> Reaction {
        if self.cursor == 0 {
            Reaction { state: self, echo: Seq::empty(), command: None }
        } else {
            let cursor = (self.cursor - 1) as nat;
            let line = self.line().remove(cursor as int);
            Reaction {
                state: self.edited(line, cursor),
                echo: if cursor == line.len() {
                    seq![BS, BLANK, BS]
                } else {
                    seq![BS] + line.skip(cursor as int) + seq![BLANK] + repeat(
                        BS,
                        (line.len() - cursor + 1) as nat,
                    )
                },
                command: None,
            }
        }
    }

    /// Ctrl-C: the line is dropped and an empty command asks for a new
    /// prompt.
    pub open spec fn cancel(self) -> Reaction {
        Reaction {
            state: self.reset(),
            echo: seq![CARRIAGE_RETURN, LINE_FEED],
            command: Some(Seq::empty()),
        }
    }

    /// Ctrl-D: the session is asked to end. The line stays as it is.
    pub open spec fn end_of_input(self) -> Reaction {
        Reaction { state: self, echo: Seq::empty(), command: Some(exit_command()) }
    }

    /// Ctrl-A: the cursor goes to the start, one step left per byte it
    /// stood from it.
    pub open spec fn home(self) -> Reaction {
        Reaction { state: self.moved(0), echo: repeat(BS, self.cursor), command: None }
    }

    /// Ctrl-E: the cursor goes to the end, one step right per byte it
    /// stood from it.
    pub open spec fn end(self) -> Reaction {
        Reaction {
            state: self.moved(self.line().len()),
            echo: repeat_seq(right_code(), (self.line().len() - self.cursor) as nat),
            command: None,
        }
    }

    /// ESC: an arrow key begins.
    pub open spec fn begin_escape(self) -> Reaction {
        Reaction {
            state: ShellState { escape: seq![ESC], ..self },
            echo: Seq::empty(),
            command: None,
        }
    }

    /// A printable byte goes into the line at the cursor. At the end of
    /// the line the byte alone is echoed; inside it the rest of the line
    /// follows and the cursor returns.
    pub open spec fn insert(self, b: u8) -> Reaction {
        let line = self.line().insert(self.cursor as int, b);
        let cursor = self.cursor + 1;
        Reaction {
            state: self.edited(line, cursor),
            echo: if cursor < line.len() {
                seq![b] + line.skip(cursor as int) + repeat(BS, (line.len() - cursor) as nat)
            } else {
                seq![b]
            },
            command: None,
        }
    }

    /// Any other byte: nothing happens.
    pub open spec fn ignore(self) -> Reaction {
        Reaction { state: self, echo: Seq::empty(), command: None }
    }

    /// Left arrow: one step left, unless the cursor is at the start.
    pub open spec fn left(self) -> Reaction {
        if self.cursor > 0 {
            Reaction {
                state: self.moved((self.cursor - 1) as nat),
                echo: left_code(),
                command: None,
            }
        } else {
            self.ignore()
        }
    }

    /// Right arrow: one step right, unless the cursor is at the end.
    pub open spec fn right(self) -> Reaction {
        if self.cursor < self.line().len() {
            Reaction { state: self.moved(self.cursor + 1), echo: right_code(), command: None }
        } else {
            self.ignore()
        }
    }

    /// Up arrow: one line back in time, or the oldest line again where
    /// there is none older. The line on screen is painted over.
    pub open spec fn up(self) -> Reaction {
        let next = self.browsing(
            if self.index < self.history.len() {
                self.index + 1
            } else {
                self.index
            },
        );
        Reaction { state: next, echo: self.repaint(next.line()), command: None }
    }

    /// Down arrow: one line forward in time. On the new line nothing
    /// happens.
    pub open spec fn down(self) -> Reaction {
        if self.index == 0 {
            self.ignore()
        } else {
            let next = self.browsing((self.index - 1) as nat);
            Reaction { state: next, echo: self.repaint(next.line()), command: None }
        }
    }

    /// A byte that arrives while an arrow key is unfinished. The third
    /// byte ends the key, whatever it is; only the four arrows do anything.
    pub open spec fn escape_byte(self, b: u8) -> Reaction {
        let key = self.escape.push(b);
        if key.len() == 3 {
            let idle = ShellState { escape: Seq::empty(), ..self };
            if key[0] == ESC && key[1] == BRACKET && b == ARROW_LEFT {
                idle.left()
            } else if key[0] == ESC && key[1] == BRACKET && b == ARROW_RIGHT {
                idle.right()
            } else if key[0] == ESC && key[1] == BRACKET && b == ARROW_UP {
                idle.up()
            } else if key[0] == ESC && key[1] == BRACKET && b == ARROW_DOWN {
                idle.down()
            } else {
                idle.ignore()
            }
        } else {
            Reaction {
                state: ShellState { escape: key, ..self },
                echo: Seq::empty(),
                command: None,
            }
        }
    }

    /// What the byte `b` does.
    pub open spec fn step(self, b: u8) -> Reaction {
        if self.escape.len() > 0 {
            self.escape_byte(b)
        } else if b == CARRIAGE_RETURN || b == LINE_FEED {
            self.submit()
        } else if b == BS || b == DEL {
            self.erase()
        } else if b == ETX {
            self.cancel()
        } else if b == EOT {
            self.end_of_input()
        } else if b == SOH {
            self.home()
        } else if b == ENQ {
            self.end()
        } else if b == ESC {
            self.begin_escape()
        } else if b >= 32 {
            self.insert(b)
        } else {
            self.ignore()
        }
    }

    /// The editor after the bytes of `input`, one after the other.
    pub open spec fn feed(self, input: Seq<u8>) -> ShellState
        decreases input.len(),
    {
        if input.len() == 0 {
            self
        } else {
            self.feed(input.drop_last()).step(input.last()).state
        }
    }
}

/// The view of a command, where there is one.
pub open spec fn command_view(c: Option<Vec<u8>>) -> Option<Seq<u8>> {
    match c {
        Some(v) => Some(v@),
        None => None,
    }
}

/// A line editor for one connection: it takes the bytes that the user
/// types, one at a time, keeps the line and the history, and says what to
/// send back so that the user's screen shows the line.
pub struct Shell {
    cursor: usize,
    history: Vec<Vec<u8>>,
    current_history: Vec<Vec<u8>>,
    history_index: usize,
    escape: Vec<u8>,
}

impl View for Shell {
    type V = ShellState;

    closed spec fn view(&self) -> ShellState {
        ShellState {
            cursor: self.cursor as nat,
            history: rows(self.history@),
            working: rows(self.current_history@),
            index: self.history_index as nat,
            escape: self.escape@,
        }
    }
}

impl Default for Shell {
    /// An editor that has seen no input.
    fn default() -> (r: Self)
        ensures
            r@ == ShellState::initial(),
            r@.wf(),
    {
        Shell::new()
    }
}

impl Shell {
    /// An editor that has seen no input.
    pub fn new() -> (r: Self)
        ensures
            r@ == ShellState::initial(),
            r@.wf(),
    {
        let mut current_history: Vec<Vec<u8>> = Vec::new();
        current_history.push(Vec::new());
        let r = Self {
            cursor: 0,
            history: Vec::new(),
            current_history,
            history_index: 0,
            escape: Vec::new(),
        };
        assert(r@.working =~= seq![Seq::<u8>::empty()]);
        assert(r@.history =~= Seq::<Seq<u8>>::empty());
        r
    }

    /// How many bytes of the line stand left of the cursor.
    pub fn cursor(&self) -> (r: usize)
        ensures
            r == self@.cursor,
    {
        self.cursor
    }

    /// The line under the cursor.
    pub fn line(&self) -> (r: &[u8])
        requires
            self@.wf(),
        ensures
            r@ == self@.line(),
    {
        self.current_history[self.history_index].as_slice()
    }

    /// The prompt of an editor that stands alone: `> `.
    pub fn prompt(&self) -> (r: Vec<u8>)
        ensures
            r@ == seq![62u8, 32u8],
    {
        let mut r: Vec<u8> = Vec::new();
        r.push(62);
        r.push(32);
        r
    }

    /// Clamps the depth to the number of submitted lines and gives every
    /// depth up to it a working line.
    pub fn get_line(&mut self)
        requires
            1 <= old(self)@.working.len() <= old(self)@.history.len() + 1,
        ensures
            final(self)@ == old(self)@.settled(),
    {
        if self.history_index > self.history.len() {
            self.history_index = self.history.len();
        }
        let ghost before = self.current_history@;
        while self.current_history.len() <= self.history_index
            invariant
                self.history_index <= self.history@.len(),
                1 <= before.len() <= self.current_history@.len() <= self.history@.len() + 1,
                self.current_history@.len() <= before.len() || self.current_history@.len()
                    <= self.history_index + 1,
                forall|k: int| 0 <= k < before.len() ==> self.current_history@[k] == before[k],
                forall|k: int|
                    before.len() <= k < self.current_history@.len() ==> self.current_history@[k]@
                        == self.history@[self.history@.len() - k]@,
                self.cursor == old(self).cursor,
                self.history == old(self).history,
                self.escape == old(self).escape,
                self.history_index == old(self)@.settled().index,
            decreases self.history_index + 1 - self.current_history@.len(),
        {
            let k = self.history.len() - self.current_history.len();
            let line = copy_range(self.history[k].as_slice(), 0, self.history[k].len());
            assert(line@ =~= self.history@[k as int]@);
            self.current_history.push(line);
        }
        assert(self@.working =~= old(self)@.settled().working);
    }

    /// Takes one byte of input. Returns what to send back to the terminal
    /// and, where the byte completed a line, the command to run. An empty
    /// command asks for a new prompt and nothing else.
    pub fn process(&mut self, data: u8) -> (r: (Vec<u8>, Option<Vec<u8>>))
        requires
            old(self)@.wf(),
        ensures
            final(self)@ == old(self)@.step(data).state,
            r.0@ == old(self)@.step(data).echo,
            command_view(r.1) == old(self)@.step(data).command,
            final(self)@.wf(),
    {
        proof {
            lemma_step_wf(self@, data);
        }
        if self.escape.len() > 0 {
            let echo = self.process_escape(data);
            return (echo, None);
        }
        let ghost before = self@;
        let i = self.history_index;
        let n = self.current_history[i].len();
        let mut echo: Vec<u8> = Vec::new();
        if data == CARRIAGE_RETURN || data == LINE_FEED {
            let command = copy_range(self.current_history[i].as_slice(), 0, n);
            let entry = copy_range(self.current_history[i].as_slice(), 0, n);
            assert(command@ =~= before.line());
            assert(entry@ =~= before.line());
            self.history.push(entry);
            self.start_over();
            echo.push(CARRIAGE_RETURN);
            echo.push(LINE_FEED);
            assert(self@.history =~= before.history.push(before.line()));
            assert(echo@ =~= before.submit().echo);
            (echo, Some(command))
        } else if data == BS || data == DEL {
            if self.cursor > 0 {
                let mut line = copy_range(self.current_history[i].as_slice(), 0, n);
                assert(line@ =~= before.line());
                line.remove(self.cursor - 1);
                self.cursor -= 1;
                if self.cursor == line.len() {
                    echo.push(BS);
                    echo.push(BLANK);
                    echo.push(BS);
                } else {
                    echo.push(BS);
                    push_range(&mut echo, line.as_slice(), self.cursor, line.len());
                    echo.push(BLANK);
                    push_repeat(&mut echo, BS, line.len() - self.cursor + 1);
                }
                assert(echo@ =~= before.erase().echo);
                self.current_history.set(i, line);
                assert(self@.working =~= before.erase().state.working);
            }
            (echo, None)
        } else if data == ETX {
            self.start_over();
            echo.push(CARRIAGE_RETURN);
            echo.push(LINE_FEED);
            assert(echo@ =~= before.cancel().echo);
            (echo, Some(Vec::new()))
        } else if data == EOT {
            let mut command: Vec<u8> = Vec::new();
            command.push(101);
            command.push(120);
            command.push(105);
            command.push(116);
            assert(command@ =~= exit_command());
            (echo, Some(command))
        } else if data == SOH {
            push_repeat(&mut echo, BS, self.cursor);
            self.cursor = 0;
            assert(echo@ =~= before.home().echo);
            (echo, None)
        } else if data == ENQ {
            let code: [u8; 3] = [ESC, BRACKET, ARROW_RIGHT];
            assert(code@ =~= right_code());
            push_repeat_seq(&mut echo, code.as_slice(), n - self.cursor);
            self.cursor = n;
            assert(echo@ =~= before.end().echo);
            (echo, None)
        } else if data == ESC {
            let mut escape: Vec<u8> = Vec::new();
            escape.push(ESC);
            self.escape = escape;
            assert(self@.escape =~= seq![ESC]);
            (echo, None)
        } else if data >= 32 {
            let mut line = copy_range(self.current_history[i].as_slice(), 0, n);
            assert(line@ =~= before.line());
            line.insert(self.cursor, data);
            let m = line.len();
            assert(self.cursor < m);
            self.cursor += 1;
            echo.push(data);
            if self.cursor < line.len() {
                push_range(&mut echo, line.as_slice(), self.cursor, line.len());
                push_repeat(&mut echo, BS, line.len() - self.cursor);
            }
            assert(echo@ =~= before.insert(data).echo);
            self.current_history.set(i, line);
            assert(self@.working =~= before.insert(data).state.working);
            (echo, None)
        } else {
            (echo, None)
        }
    }

    /// Takes one byte of an arrow key. Returns what to send back to the
    /// terminal.
    pub fn process_escape(&mut self, data: u8) -> (echo: Vec<u8>)
        requires
            old(self)@.wf(),
            old(self)@.escape.len() > 0,
        ensures
            final(self)@ == old(self)@.escape_byte(data).state,
            echo@ == old(self)@.escape_byte(data).echo,
            old(self)@.escape_byte(data).command is None,
    {
        let ghost before = self@;
        let mut echo: Vec<u8> = Vec::new();
        self.escape.push(data);
        if self.escape.len() < 3 {
            return echo;
        }
        let first = self.escape[0];
        let second = self.escape[1];
        self.escape = Vec::new();
        let ghost idle = ShellState { escape: Seq::empty(), ..before };
        assert(self@.escape =~= idle.escape);
        assert(self@ == idle);
        if first != ESC || second != BRACKET {
            return echo;
        }
        let i = self.history_index;
        let n = self.current_history[i].len();
        if data == ARROW_LEFT {
            if self.cursor > 0 {
                self.cursor -= 1;
                echo.push(ESC);
                echo.push(BRACKET);
                echo.push(ARROW_LEFT);
                assert(echo@ =~= left_code());
            }
        } else if data == ARROW_RIGHT {
            if self.cursor < n {
                self.cursor += 1;
                echo.push(ESC);
                echo.push(BRACKET);
                echo.push(ARROW_RIGHT);
                assert(echo@ =~= right_code());
            }
        } else if data == ARROW_UP || data == ARROW_DOWN {
            if data == ARROW_UP {
                if self.history_index < self.history.len() {
                    self.history_index += 1;
                }
            } else {
                if self.history_index == 0 {
                    return echo;
                }
                self.history_index -= 1;
            }
            push_repeat(&mut echo, BS, self.cursor);
            push_repeat(&mut echo, BLANK, n);
            push_repeat(&mut echo, BS, n);
            proof {
                lemma_browsing_wf(idle, self.history_index as nat);
            }
            self.get_line();
            let j = self.history_index;
            let m = self.current_history[j].len();
            self.cursor = m;
            push_range(&mut echo, self.current_history[j].as_slice(), 0, m);
            assert(self.current_history@[j as int]@.subrange(0, m as int)
                =~= self.current_history@[j as int]@);
            assert(echo@ =~= idle.repaint(idle.browsing(j as nat).line()));
        }
        echo
    }

    /// Drops every working line but an empty new one.
    fn start_over(&mut self)
        ensures
            final(self)@ == old(self)@.reset(),
    {
        let mut current_history: Vec<Vec<u8>> = Vec::new();
        current_history.push(Vec::new());
        self.current_history = current_history;
        self.history_index = 0;
        self.cursor = 0;
        assert(self@.working =~= seq![Seq::<u8>::empty()]);
    }
}

/// Every reaction leaves the editor well formed: whatever bytes arrive,
/// the cursor stays inside the line or at its end.
pub proof fn lemma_step_wf(s: ShellState, b: u8)
    requires
        s.wf(),
    ensures
        s.step(b).state.wf(),
        s.step(b).state.cursor <= s.step(b).state.line().len(),
{
    let idle = ShellState { escape: Seq::empty(), ..s };
    lemma_browsing_wf(idle, idle.index);
    if idle.index < idle.history.len() {
        lemma_browsing_wf(idle, idle.index + 1);
    }
    if idle.index > 0 {
        lemma_browsing_wf(idle, (idle.index - 1) as nat);
    }
}

/// A visit to a depth that the history reaches leaves the editor well
/// formed.
pub proof fn lemma_browsing_wf(s: ShellState, index: nat)
    requires
        s.wf(),
        index <= s.history.len(),
    ensures
        s.browsing(index).wf(),
        s.browsing(index).index == index,
        s.browsing(index).history == s.history,
        s.browsing(index).escape == s.escape,
        s.browsing(index).working.len() >= s.working.len(),
        forall|k: int|
            0 <= k < s.working.len() ==> s.browsing(index).working[k] == s.working[k],
{
}

/// Every input leaves the editor well formed: for all byte sequences, the
/// cursor stays inside the line or at its end.
pub proof fn lemma_feed_wf(s: ShellState, input: Seq<u8>)
    requires
        s.wf(),
    ensures
        s.feed(input).wf(),
        s.feed(input).cursor <= s.feed(input).line().len(),
    decreases input.len(),
{
    if input.len() > 0 {
        lemma_feed_wf(s, input.drop_last());
        lemma_step_wf(s.feed(input.drop_last()), input.last());
    }
}

/// Backspace and delete at the start of the line change nothing and send
/// nothing.
pub proof fn lemma_erase_at_start(s: ShellState, b: u8)
    requires
        s.wf(),
        s.escape.len() == 0,
        s.cursor == 0,
        b == BS || b == DEL,
    ensures
        s.step(b).state == s,
        s.step(b).echo == Seq::<u8>::empty(),
        s.step(b).command is None,
{
}

/// Feeding one input after another is feeding both.
pub proof fn lemma_feed_append(s: ShellState, a: Seq<u8>, b: Seq<u8>)
    ensures
        s.feed(a + b) == s.feed(a).feed(b),
    decreases b.len(),
{
    if b.len() == 0 {
        assert(a + b =~= a);
    } else {
        assert((a + b).drop_last() =~= a + b.drop_last());
        assert((a + b).last() == b.last());
        lemma_feed_append(s, a, b.drop_last());
    }
}

/// The three bytes that a terminal sends for the arrow key with the given
/// last byte.
pub open spec fn arrow_key(code: u8) -> Seq<u8> {
    seq![ESC, BRACKET, code]
}

/// Between two arrow keys, the up arrow's three bytes do what `up` says and
/// the down arrow's what `down` says.
pub proof fn lemma_arrow_key(s: ShellState, code: u8)
    requires
        s.escape.len() == 0,
    ensures
        code == ARROW_UP ==> s.feed(arrow_key(code)) == s.up().state,
        code == ARROW_DOWN ==> s.feed(arrow_key(code)) == s.down().state,
        code == ARROW_LEFT ==> s.feed(arrow_key(code)) == s.left().state,
        code == ARROW_RIGHT ==> s.feed(arrow_key(code)) == s.right().state,
{
    let k3 = arrow_key(code);
    let k2 = seq![ESC, BRACKET];
    let k1 = seq![ESC];
    let k0 = Seq::<u8>::empty();
    assert(k3.drop_last() =~= k2);
    assert(k2.drop_last() =~= k1);
    assert(k1.drop_last() =~= k0);
    assert(s.feed(k0) == s);
    let s1 = s.step(ESC).state;
    assert(s.feed(k1) == s1);
    assert(s1.escape =~= seq![ESC]);
    let s2 = s1.step(BRACKET).state;
    assert(s.feed(k2) == s2);
    assert(s2.escape =~= seq![ESC, BRACKET]);
    assert(s.feed(k3) == s2.step(code).state);
    let idle = ShellState { escape: Seq::empty(), ..s2 };
    assert(idle.escape =~= s.escape);
    assert(idle == s);
}

/// `t` is `s` after some browsing: the same submitted lines, every working
/// line of `s` as it was, and no arrow key unfinished.
pub open spec fn browsed_from(s: ShellState, t: ShellState) -> bool {
    &&& t.wf()
    &&& t.escape.len() == 0
    &&& t.history == s.history
    &&& t.working.len() >= s.working.len()
    &&& forall|k: int| 0 <= k < s.working.len() ==> t.working[k] == s.working[k]
}

/// `n` presses of the up arrow go `n` lines back, or to the oldest line.
pub proof fn lemma_up_presses(s: ShellState, t: ShellState, n: nat)
    requires
        s.wf(),
        browsed_from(s, t),
    ensures
        browsed_from(s, t.feed(repeat_seq(arrow_key(ARROW_UP), n))),
        t.feed(repeat_seq(arrow_key(ARROW_UP), n)).index == if t.index + n <= t.history.len() {
            t.index + n
        } else {
            t.history.len()
        },
    decreases n,
{
    if n > 0 {
        let before = repeat_seq(arrow_key(ARROW_UP), (n - 1) as nat);
        lemma_up_presses(s, t, (n - 1) as nat);
        lemma_feed_append(t, before, arrow_key(ARROW_UP));
        let u = t.feed(before);
        lemma_arrow_key(u, ARROW_UP);
        let next: nat = if u.index < u.history.len() {
            u.index + 1
        } else {
            u.index
        };
        lemma_browsing_wf(u, next);
    }
}

/// `n` presses of the down arrow go `n` lines forward, or to the new line.
pub proof fn lemma_down_presses(s: ShellState, t: ShellState, n: nat)
    requires
        s.wf(),
        browsed_from(s, t),
    ensures
        browsed_from(s, t.feed(repeat_seq(arrow_key(ARROW_DOWN), n))),
        t.feed(repeat_seq(arrow_key(ARROW_DOWN), n)).index == if n <= t.index {
            t.index - n
        } else {
            0
        },
    decreases n,
{
    if n > 0 {
        let before = repeat_seq(arrow_key(ARROW_DOWN), (n - 1) as nat);
        lemma_down_presses(s, t, (n - 1) as nat);
        lemma_feed_append(t, before, arrow_key(ARROW_DOWN));
        let u = t.feed(before);
        lemma_arrow_key(u, ARROW_DOWN);
        if u.index > 0 {
            lemma_browsing_wf(u, (u.index - 1) as nat);
        }
    }
}

/// Up `n` times and then down `n` times, from the new line, ends on the new
/// line as it was, with whatever had been typed into it.
pub proof fn lemma_history_round_trip(s: ShellState, n: nat)
    requires
        s.wf(),
        s.escape.len() == 0,
        s.index == 0,
    ensures
        ({
            let t = s.feed(
                repeat_seq(arrow_key(ARROW_UP), n) + repeat_seq(arrow_key(ARROW_DOWN), n),
            );
            &&& t.index == 0
            &&& t.line() == s.line()
            &&& t.history == s.history
        }),
{
    let ups = repeat_seq(arrow_key(ARROW_UP), n);
    let downs = repeat_seq(arrow_key(ARROW_DOWN), n);
    lemma_up_presses(s, s, n);
    lemma_feed_append(s, ups, downs);
    lemma_down_presses(s, s.feed(ups), n);
}

} // verus!
