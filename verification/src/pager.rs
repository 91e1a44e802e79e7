//! The mathematics of the pager: a file of lines behind a window of
//! `width` columns and `height` rows, a cursor in the file, and a scroll
//! position that says which row of which line stands at the top of the
//! window.
//!
//! A line that is longer than the window is wide continues on the next
//! row. For the cursor, a line of `n` bytes takes `n / width + 1` rows.
use crate::terminal::{clear_code, cursor_code};
use vstd::prelude::*;
use vstd::string::StringSliceAdditionalSpecFns;

verus! {

/// `h`: one column left.
pub const KEY_LEFT: u8 = 104;

/// `j`: one line down.
pub const KEY_DOWN: u8 = 106;

/// `k`: one line up.
pub const KEY_UP: u8 = 107;

/// `l`: one column right.
pub const KEY_RIGHT: u8 = 108;

/// `$`: to the end of the line.
pub const KEY_END: u8 = 36;

/// The byte that fills a row below the end of the file: `~`.
pub const FILLER: u8 = 126;

/// The column that `$` sets. No line is that long, so the cursor shows on
/// the last byte of whatever line it is on.
pub open spec fn far_right() -> nat {
    (usize::MAX / 4) as nat
}

/// What is written below the window: a line break and a hint.
pub const STATUS_HINT: &'static str = "\r\n: Ctrl-C to quit";

/// The bytes of the status hint.
pub open spec fn status_hint() -> Seq<u8> {
    STATUS_HINT.spec_bytes()
}

/// A pager, as mathematics.
pub struct PagerState {
    /// The lines of the file.
    pub lines: Seq<Seq<u8>>,
    /// The cursor's column in its line. It may lie beyond the end of the
    /// line; the cursor then shows on the line's last byte.
    pub cursor_x: nat,
    /// The cursor's line.
    pub cursor_y: nat,
    /// The line at the top of the window.
    pub scroll_line: nat,
    /// How many window widths of that line lie above the window.
    pub scroll_sub: nat,
    /// The columns of the window.
    pub width: nat,
    /// The rows of the window that show the file.
    pub height: nat,
}

impl PagerState {
    /// The length of line `i`.
    pub open spec fn line_len(self, i: int) -> int {
        self.lines[i].len() as int
    }

    /// The rows that line `i` takes where the cursor is placed.
    pub open spec fn line_rows(self, i: int) -> int {
        self.line_len(i) / (self.width as int) + 1
    }

    /// The rows that the lines from `from` up to, not including, `to` take.
    pub open spec fn rows_between(self, from: int, to: int) -> int
        decreases to - from,
    {
        if to <= from {
            0
        } else {
            self.rows_between(from, to - 1) + self.line_rows(to - 1)
        }
    }

    /// The last column of the cursor's line on which the cursor can show:
    /// that of its last byte, and column 0 in an empty line.
    pub open spec fn last_column(self) -> int {
        if self.line_len(self.cursor_y as int) == 0 {
            0
        } else {
            self.line_len(self.cursor_y as int) - 1
        }
    }

    /// The column on which the cursor shows.
    pub open spec fn column(self) -> int {
        if self.cursor_x <= self.last_column() {
            self.cursor_x as int
        } else {
            self.last_column()
        }
    }

    /// Whether the cursor lies above the window.
    pub open spec fn above(self) -> bool {
        self.cursor_y < self.scroll_line || (self.cursor_y == self.scroll_line && self.cursor_x
            < self.scroll_sub * self.width)
    }

    /// Where in the window the cursor shows, as column and row. A cursor
    /// above the window gives `(0, -1)`; one below it gives a row that is
    /// not less than `height`.
    pub open spec fn cursor_screen(self) -> (int, int) {
        if self.above() {
            (0, -1)
        } else {
            (
                self.column() % (self.width as int),
                -(self.scroll_sub as int) + self.rows_between(
                    self.scroll_line as int,
                    self.cursor_y as int,
                ) + self.column() / (self.width as int),
            )
        }
    }

    /// What holds of every pager: the window has a column and a row, the
    /// file has a line, cursor and scroll position are on lines of the
    /// file, and the window's top row begins inside its line.
    pub open spec fn wf(self) -> bool {
        &&& self.width >= 1
        &&& self.height >= 1
        &&& self.cursor_y < self.lines.len()
        &&& self.scroll_line < self.lines.len()
        &&& (self.scroll_sub == 0 || self.scroll_sub * self.width < self.line_len(
            self.scroll_line as int,
        ))
    }

    /// Whether the cursor shows in the window.
    pub open spec fn on_screen(self) -> bool {
        0 <= self.cursor_screen().1 < self.height
    }

    /// What holds of a pager between two events: it is well formed and
    /// its cursor shows in the window.
    pub open spec fn inv(self) -> bool {
        self.wf() && self.on_screen()
    }

    /// The pager with its window's top at row `sub` of line `line`.
    pub open spec fn scrolled_to(self, line: nat, sub: nat) -> PagerState {
        PagerState { scroll_line: line, scroll_sub: sub, ..self }
    }

    /// One step of scrolling towards a cursor that does not show. Up: one
    /// row, or from the first row of a line to the first row of the line
    /// before. Down: one row where the top line has a further row that
    /// begins inside it, else to the first row of the next line.
    pub open spec fn scroll_step(self) -> PagerState {
        if self.above() {
            if self.scroll_sub > 0 {
                self.scrolled_to(self.scroll_line, (self.scroll_sub - 1) as nat)
            } else {
                self.scrolled_to((self.scroll_line - 1) as nat, 0)
            }
        } else {
            if (self.scroll_sub + 1) * self.width < self.line_len(self.scroll_line as int) {
                self.scrolled_to(self.scroll_line, self.scroll_sub + 1)
            } else {
                self.scrolled_to(self.scroll_line + 1, 0)
            }
        }
    }

    /// First part of what gets smaller with every scroll step: a cursor
    /// above the window counts more than one below it.
    pub open spec fn phase(self) -> int {
        if self.above() {
            1
        } else {
            0
        }
    }

    /// Second part: going up, the line at the top; going down, the
    /// cursor's row.
    pub open spec fn distance(self) -> int {
        if self.above() {
            self.scroll_line as int
        } else {
            self.cursor_screen().1
        }
    }

    /// Third part: going up, the row of the line at the top.
    pub open spec fn sub_distance(self) -> int {
        if self.above() {
            self.scroll_sub as int
        } else {
            0
        }
    }

    /// The pager scrolled until the cursor shows: scroll steps are taken
    /// for as long as it does not.
    pub open spec fn scrolled(self) -> PagerState
        decreases self.phase(), self.distance(), self.sub_distance(),
        when self.wf()
        via Self::scrolled_decreases
    {
        if self.on_screen() {
            self
        } else {
            self.scroll_step().scrolled()
        }
    }

    #[via_fn]
    proof fn scrolled_decreases(self) {
        if !self.on_screen() {
            lemma_scroll_step(self);
        }
    }

    /// The text of the window row that begins at byte `start` of line
    /// `line`: a full row where more than a row's worth of the line is
    /// left, else what is left of the line, and the filler below the end
    /// of the file.
    pub open spec fn row_text(self, line: int, start: int) -> Seq<u8> {
        if line >= self.lines.len() {
            seq![FILLER]
        } else if self.line_len(line) - start > self.width {
            self.lines[line].subrange(start, start + self.width)
        } else {
            self.lines[line].skip(start)
        }
    }

    /// Where the row after that row begins.
    pub open spec fn row_after(self, line: int, start: int) -> (int, int) {
        if line >= self.lines.len() {
            (line, start)
        } else if self.line_len(line) - start > self.width {
            (line, start + self.width)
        } else {
            (line + 1, 0)
        }
    }

    /// What is sent for the window rows from `y` down, the row `y`
    /// beginning at byte `start` of line `line`: for each row the code
    /// that puts the cursor at its start, then its text.
    pub open spec fn body(self, line: int, start: int, y: int) -> Seq<u8>
        decreases self.height - y,
    {
        if y >= self.height {
            Seq::empty()
        } else {
            let next = self.row_after(line, start);
            cursor_code(0, y) + self.row_text(line, start) + self.body(next.0, next.1, y + 1)
        }
    }

    /// What draws the whole window: the screen is blanked, the rows are
    /// written from the scroll position on, the status hint follows, and
    /// the cursor is put where it shows.
    pub open spec fn render(self) -> Seq<u8> {
        clear_code() + cursor_code(0, 0) + self.body(
            self.scroll_line as int,
            (self.scroll_sub * self.width) as int,
            0,
        ) + status_hint() + cursor_code(self.cursor_screen().0, self.cursor_screen().1)
    }

    /// The pager with its cursor at column `x` of line `y`.
    pub open spec fn with_cursor(self, x: nat, y: nat) -> PagerState {
        PagerState { cursor_x: x, cursor_y: y, ..self }
    }

    /// Where the key `key` puts the cursor, if it moves it. `h` and `l`
    /// move by a column. On or beyond the last column `l` does nothing,
    /// and `h` first brings the cursor to the last column. `j` and `k`
    /// move by a line and stop at the ends of the file. `$` sets the
    /// far-right column. No other key does anything.
    pub open spec fn moved(self, key: u8) -> Option<PagerState> {
        if key == KEY_LEFT {
            let from = self.column();
            Some(self.with_cursor(
                if from >= 1 {
                    (from - 1) as nat
                } else {
                    0
                },
                self.cursor_y,
            ))
        } else if key == KEY_RIGHT {
            if self.cursor_x >= self.last_column() {
                None
            } else {
                Some(self.with_cursor(self.cursor_x + 1, self.cursor_y))
            }
        } else if key == KEY_DOWN {
            Some(self.with_cursor(
                self.cursor_x,
                if self.cursor_y + 1 < self.lines.len() {
                    self.cursor_y + 1
                } else {
                    self.cursor_y
                },
            ))
        } else if key == KEY_UP {
            Some(self.with_cursor(
                self.cursor_x,
                if self.cursor_y >= 1 {
                    (self.cursor_y - 1) as nat
                } else {
                    0
                },
            ))
        } else if key == KEY_END {
            Some(self.with_cursor(far_right(), self.cursor_y))
        } else {
            None
        }
    }

    /// What is sent after the cursor has moved: the code that puts it
    /// where it shows, or, where the window must scroll for it to show,
    /// the whole window anew.
    pub open spec fn update_output(self) -> Seq<u8> {
        if self.on_screen() {
            cursor_code(self.cursor_screen().0, self.cursor_screen().1)
        } else {
            self.scrolled().render()
        }
    }

    /// The pager after the key `key`.
    pub open spec fn after_key(self, key: u8) -> PagerState {
        match self.moved(key) {
            Some(m) => m.scrolled(),
            None => self,
        }
    }

    /// What is sent for the key `key`.
    pub open spec fn key_output(self, key: u8) -> Seq<u8> {
        match self.moved(key) {
            Some(m) => m.update_output(),
            None => Seq::empty(),
        }
    }

    /// The pager in a window of `width` columns and `height` rows for
    /// the file, before any scrolling that the new size asks for. As many
    /// bytes of the top line lie above the window as did before, less
    /// what it takes to make them full rows of the new width.
    pub open spec fn resized_to(self, width: nat, height: nat) -> PagerState {
        PagerState {
            width,
            height,
            scroll_sub: (self.scroll_sub * self.width) / width,
            ..self
        }
    }

    /// The pager after the window has become `width` columns and `height`
    /// file rows: resized, then scrolled until the cursor shows.
    pub open spec fn after_resize(self, width: nat, height: nat) -> PagerState {
        self.resized_to(width, height).scrolled()
    }
}

/// A pager at the start of a file: cursor and window at the first byte.
pub open spec fn opened(lines: Seq<Seq<u8>>, width: nat, height: nat) -> PagerState {
    PagerState { lines, cursor_x: 0, cursor_y: 0, scroll_line: 0, scroll_sub: 0, width, height }
}

/// The rows of a run of lines are the rows of its first line and the rows
/// of the rest.
pub proof fn lemma_rows_between_front(s: PagerState, from: int, to: int)
    requires
        from < to,
    ensures
        s.rows_between(from, to) == s.line_rows(from) + s.rows_between(from + 1, to),
    decreases to - from,
{
    if to - 1 > from {
        lemma_rows_between_front(s, from, to - 1);
    } else {
        assert(s.rows_between(from, from) == 0);
        assert(s.rows_between(from + 1, to) == 0);
    }
}

/// Every line takes at least one row.
pub proof fn lemma_rows_between_positive(s: PagerState, from: int, to: int)
    requires
        s.width >= 1,
        0 <= from <= to <= s.lines.len(),
    ensures
        s.rows_between(from, to) >= to - from,
    decreases to - from,
{
    if to > from {
        lemma_rows_between_positive(s, from, to - 1);
        lemma_div_facts(s.line_len(to - 1), s.width as int);
    }
}

/// What dividing a length by a width gives.
pub proof fn lemma_div_facts(a: int, w: int)
    requires
        a >= 0,
        w >= 1,
    ensures
        a / w >= 0,
        (a / w) * w <= a,
        a < (a / w + 1) * w,
        0 <= a % w < w,
{
    vstd::arithmetic::div_mod::lemma_fundamental_div_mod(a, w);
    vstd::arithmetic::div_mod::lemma_mod_bound(a, w);
    vstd::arithmetic::div_mod::lemma_div_pos_is_pos(a, w);
    assert((a / w) * w == w * (a / w)) by (nonlinear_arith);
    assert((a / w + 1) * w == w * (a / w) + w) by (nonlinear_arith);
}

/// Whole rows: `k * w <= a` says the same as `k <= a / w`.
pub proof fn lemma_div_rows(a: int, w: int, k: int)
    requires
        a >= 0,
        w >= 1,
        k >= 0,
    ensures
        k * w <= a <==> k <= a / w,
{
    lemma_div_facts(a, w);
    let q = a / w;
    if k <= q {
        assert(k * w <= q * w) by (nonlinear_arith)
            requires
                k <= q,
                w >= 1,
        ;
    } else {
        assert(k * w >= (q + 1) * w) by (nonlinear_arith)
            requires
                k >= q + 1,
                w >= 1,
        ;
    }
}

/// The cursor shows on a byte of its line, or on column 0 of an empty
/// line, and not right of where it is.
pub proof fn lemma_column_bounds(s: PagerState)
    ensures
        0 <= s.column() <= s.last_column(),
        s.column() <= s.cursor_x,
        s.last_column() < s.line_len(s.cursor_y as int) || s.line_len(s.cursor_y as int) == 0,
{
}

/// A cursor that is not above the window has a row that is not negative.
pub proof fn lemma_not_above(s: PagerState)
    requires
        s.wf(),
        !s.above(),
    ensures
        s.cursor_screen().1 >= 0,
        s.cursor_y == s.scroll_line ==> s.cursor_screen().1 == s.column() / (s.width as int)
            - s.scroll_sub && s.scroll_sub * s.width <= s.column(),
        s.cursor_y > s.scroll_line ==> s.cursor_screen().1 >= s.line_rows(s.scroll_line as int)
            - s.scroll_sub >= 1,
{
    let w = s.width as int;
    let sl = s.scroll_line as int;
    let cy = s.cursor_y as int;
    let sub = s.scroll_sub as int;
    lemma_div_facts(s.column(), w);
    lemma_div_facts(s.line_len(sl), w);
    if cy == sl {
        assert(s.rows_between(sl, cy) == 0);
        // The top row begins inside the line, so on or left of its last byte.
        assert(sub * w <= s.column()) by {
            if sub > 0 {
                assert(sub * w < s.line_len(sl));
            } else {
                assert(sub * w == 0) by (nonlinear_arith)
                    requires
                        sub == 0,
                ;
            }
        }
        lemma_div_rows(s.column(), w, sub);
    } else {
        lemma_rows_between_front(s, sl, cy);
        lemma_rows_between_positive(s, sl + 1, cy);
        assert(sub <= s.line_len(sl) / w) by {
            if sub > 0 {
                lemma_div_rows(s.line_len(sl), w, sub);
            }
        }
    }
}

/// A scroll step towards a cursor that does not show leaves the pager well
/// formed and brings it closer: from above the window, the top moves up;
/// from below, the cursor's row gets smaller and the cursor never comes
/// to lie above the window.
pub proof fn lemma_scroll_step(s: PagerState)
    requires
        s.wf(),
        !s.on_screen(),
    ensures
        s.scroll_step().wf(),
        s.scroll_step().lines == s.lines,
        s.scroll_step().cursor_x == s.cursor_x,
        s.scroll_step().cursor_y == s.cursor_y,
        s.scroll_step().width == s.width,
        s.scroll_step().height == s.height,
        s.distance() >= 0,
        s.sub_distance() >= 0,
        s.scroll_step().phase() < s.phase() || (s.scroll_step().phase() == s.phase() && (
        s.scroll_step().distance() < s.distance() || (s.scroll_step().distance() == s.distance()
            && s.scroll_step().sub_distance() < s.sub_distance()))),
        decreases_to!(
            s.phase(), s.distance(), s.sub_distance()
            => s.scroll_step().phase(), s.scroll_step().distance(), s.scroll_step().sub_distance()
        ),
{
    let t = s.scroll_step();
    let w = s.width as int;
    let sl = s.scroll_line as int;
    let cy = s.cursor_y as int;
    let sub = s.scroll_sub as int;
    if s.above() {
        if sub > 0 {
            assert((sub - 1) * w < sub * w) by (nonlinear_arith)
                requires
                    w >= 1,
            ;
        } else {
            assert(s.scroll_sub * s.width == 0) by (nonlinear_arith)
                requires
                    s.scroll_sub == 0,
            ;
            assert(cy < sl);
        }
        if !t.above() {
            lemma_not_above(t);
        }
    } else {
        lemma_not_above(s);
        lemma_column_bounds(s);
        lemma_div_facts(s.column(), w);
        lemma_div_facts(s.line_len(sl), w);
        assert(s.cursor_screen().1 >= s.height);
        if (sub + 1) * w < s.line_len(sl) {
            // One row down inside the top line.
            if cy == sl {
                assert(sub + 1 <= s.column() / w);
                lemma_div_rows(s.column(), w, sub + 1);
            }
            assert(!t.above());
            assert(t.rows_between(sl, cy) == s.rows_between(sl, cy)) by {
                lemma_rows_same(s, t, sl, cy);
            }
            assert(t.column() == s.column());
            assert(t.cursor_screen().1 == s.cursor_screen().1 - 1);
        } else {
            // The top line has no further row: on to the next line.
            assert(cy > sl) by {
                if cy == sl {
                    assert(s.column() / w >= sub + 1);
                    lemma_div_rows(s.column(), w, sub + 1);
                    assert((sub + 1) * w <= s.column());
                }
            }
            assert(!t.above());
            lemma_rows_between_front(s, sl, cy);
            assert(t.rows_between(sl + 1, cy) == s.rows_between(sl + 1, cy)) by {
                lemma_rows_same(s, t, sl + 1, cy);
            }
            assert(t.column() == s.column());
            assert(sub <= s.line_len(sl) / w) by {
                if sub > 0 {
                    lemma_div_rows(s.line_len(sl), w, sub);
                }
            }
            assert(t.cursor_screen().1 == s.cursor_screen().1 - (s.line_rows(sl) - sub));
            lemma_not_above(t);
        }
    }
}

/// Two pagers with the same lines and the same width count the same rows.
pub proof fn lemma_rows_same(s: PagerState, t: PagerState, from: int, to: int)
    requires
        s.lines == t.lines,
        s.width == t.width,
    ensures
        s.rows_between(from, to) == t.rows_between(from, to),
    decreases to - from,
{
    if to > from {
        lemma_rows_same(s, t, from, to - 1);
    }
}

/// Scrolling ends with the cursor in the window. It changes the scroll
/// position and nothing else.
pub proof fn lemma_scrolled(s: PagerState)
    requires
        s.wf(),
    ensures
        s.scrolled().inv(),
        s.scrolled().lines == s.lines,
        s.scrolled().cursor_x == s.cursor_x,
        s.scrolled().cursor_y == s.cursor_y,
        s.scrolled().width == s.width,
        s.scrolled().height == s.height,
        s.on_screen() ==> s.scrolled() == s,
    decreases s.phase(), s.distance(), s.sub_distance(),
{
    if !s.on_screen() {
        lemma_scroll_step(s);
        lemma_scrolled(s.scroll_step());
    }
}

/// Bringing the cursor into view a second time, with no movement in
/// between, scrolls no further and sends the cursor's place alone: the
/// window is not drawn again.
pub proof fn lemma_update_twice(s: PagerState)
    requires
        s.wf(),
    ensures
        s.scrolled().scrolled() == s.scrolled(),
        s.scrolled().update_output() == cursor_code(
            s.scrolled().cursor_screen().0,
            s.scrolled().cursor_screen().1,
        ),
{
    lemma_scrolled(s);
    lemma_scrolled(s.scrolled());
}

/// A pager that has just been opened shows its cursor.
pub proof fn lemma_opened(lines: Seq<Seq<u8>>, width: nat, height: nat)
    requires
        lines.len() >= 1,
        width >= 1,
        height >= 1,
    ensures
        opened(lines, width, height).inv(),
        opened(lines, width, height).cursor_screen() == (0int, 0int),
{
    let s = opened(lines, width, height);
    assert(s.rows_between(0, 0) == 0);
    assert(s.column() == 0);
}

/// After any key the pager is well formed and shows its cursor.
pub proof fn lemma_after_key(s: PagerState, key: u8)
    requires
        s.inv(),
    ensures
        s.after_key(key).inv(),
        s.after_key(key).lines == s.lines,
        s.after_key(key).width == s.width,
        s.after_key(key).height == s.height,
{
    match s.moved(key) {
        Some(m) => {
            lemma_scrolled(m);
        },
        None => {},
    }
}

/// A resized pager is well formed before it scrolls: the top row still
/// begins inside its line.
pub proof fn lemma_resized_wf(s: PagerState, width: nat, height: nat)
    requires
        s.wf(),
        width >= 1,
        height >= 1,
    ensures
        s.resized_to(width, height).wf(),
        s.resized_to(width, height).scroll_sub * width <= s.scroll_sub * s.width,
{
    let a = s.scroll_sub * s.width;
    assert(a >= 0) by (nonlinear_arith)
        requires
            a == s.scroll_sub * s.width,
    ;
    lemma_div_facts(a as int, width as int);
    if s.scroll_sub == 0 {
        assert(a == 0);
    }
}

/// After any change of the window's size the pager is well formed and
/// shows its cursor.
pub proof fn lemma_after_resize(s: PagerState, width: nat, height: nat)
    requires
        s.wf(),
        width >= 1,
        height >= 1,
    ensures
        s.after_resize(width, height).inv(),
        s.after_resize(width, height).lines == s.lines,
        s.after_resize(width, height).width == width,
        s.after_resize(width, height).height == height,
{
    lemma_resized_wf(s, width, height);
    lemma_scrolled(s.resized_to(width, height));
}

/// What can happen to a pager.
pub enum PagerEvent {
    /// The user pressed a key.
    Key(u8),
    /// The window became `width` columns and `height` file rows.
    Resize { width: nat, height: nat },
}

impl PagerState {
    /// The pager after one event. A window without a column or without a
    /// row is no window: such a resize changes nothing.
    pub open spec fn after_event(self, event: PagerEvent) -> PagerState {
        match event {
            PagerEvent::Key(key) => self.after_key(key),
            PagerEvent::Resize { width, height } => if width >= 1 && height >= 1 {
                self.after_resize(width, height)
            } else {
                self
            },
        }
    }

    /// The pager after a run of events.
    pub open spec fn after_events(self, events: Seq<PagerEvent>) -> PagerState
        decreases events.len(),
    {
        if events.len() == 0 {
            self
        } else {
            self.after_events(events.drop_last()).after_event(events.last())
        }
    }
}

/// Whatever keys are pressed and however the window is resized after a
/// file has been opened, the cursor shows in the window.
pub proof fn lemma_reachable(lines: Seq<Seq<u8>>, width: nat, height: nat, events: Seq<PagerEvent>)
    requires
        lines.len() >= 1,
        width >= 1,
        height >= 1,
    ensures
        opened(lines, width, height).after_events(events).inv(),
        0 <= opened(lines, width, height).after_events(events).cursor_screen().1 < opened(
            lines,
            width,
            height,
        ).after_events(events).height,
    decreases events.len(),
{
    let first = opened(lines, width, height);
    if events.len() == 0 {
        lemma_opened(lines, width, height);
    } else {
        lemma_reachable(lines, width, height, events.drop_last());
        let before = first.after_events(events.drop_last());
        match events.last() {
            PagerEvent::Key(key) => {
                lemma_after_key(before, key);
            },
            PagerEvent::Resize { width: w, height: h } => {
                if w >= 1 && h >= 1 {
                    lemma_after_resize(before, w, h);
                }
            },
        }
    }
}

/// The rows of a window depend on the file, the scroll position and the
/// size of the window alone.
pub proof fn lemma_body_same(s: PagerState, t: PagerState, line: int, start: int, y: int)
    requires
        s.lines == t.lines,
        s.width == t.width,
        s.height == t.height,
    ensures
        s.body(line, start, y) == t.body(line, start, y),
    decreases s.height - y,
{
    if y < s.height {
        let next = s.row_after(line, start);
        lemma_body_same(s, t, next.0, next.1, y + 1);
    }
}

/// What draws the window depends on the file, the scroll position, the
/// size of the window and where the cursor shows, and on nothing else:
/// drawing an unchanged pager again gives the same bytes.
pub proof fn lemma_render_same(s: PagerState, t: PagerState)
    requires
        s.lines == t.lines,
        s.scroll_line == t.scroll_line,
        s.scroll_sub == t.scroll_sub,
        s.width == t.width,
        s.height == t.height,
        s.cursor_screen() == t.cursor_screen(),
    ensures
        s.render() == t.render(),
{
    lemma_body_same(s, t, s.scroll_line as int, (s.scroll_sub * s.width) as int, 0);
}

} // verus!
