//! The programs that take over the terminal from the shell. There is one,
//! the pager `vi`.
use crate::content::{lemma_file_has_line, File, SshContent};
use crate::pager::{lemma_after_resize, lemma_div_facts, lemma_not_above, lemma_opened};
use crate::pager::{lemma_resized_wf, lemma_scroll_step, lemma_scrolled, opened, PagerState};
use crate::pager::{FILLER, KEY_DOWN, KEY_END, KEY_LEFT, KEY_RIGHT, KEY_UP, STATUS_HINT};
use crate::session::SshSession;
use crate::terminal::{cursor_code, push_clear_code, push_cursor_code};
use crate::text::{push_bytes, push_range, push_str, rows, second_word};
use std::sync::Arc;
use vstd::prelude::*;
use vstd::string::StringSliceAdditionalSpecFns;

verus! {

/// What `vi` answers where it is given no file.
pub const VI_USAGE: &'static str = "vi: usage: vi <filename>\r\n";

/// What `vi` answers where the file does not exist: this, the path as it
/// was given, and `VI_NO_FILE_TAIL`.
pub const VI_NO_FILE_HEAD: &'static str = "vi: cannot open \"";

pub const VI_NO_FILE_TAIL: &'static str = "\": No such file\r\n";

/// What `vi` answers where the terminal is too small or too large to hold
/// a window.
pub const VI_NO_WINDOW: &'static str = "vi: cannot open a window in a terminal of this size\r\n";

/// Whether a terminal of `size` columns and rows can hold a pager: at
/// least one column, one row for the file and one for the status hint,
/// and neither more columns nor more rows than a cursor code can name.
pub open spec fn usable_size(size: (u32, u32)) -> bool {
    1 <= size.0 <= 65535 && 2 <= size.1 <= 65535
}

/// What `vi` answers where `path` names no file.
pub open spec fn no_such_file(path: Seq<u8>) -> Seq<u8> {
    VI_NO_FILE_HEAD.spec_bytes() + path + VI_NO_FILE_TAIL.spec_bytes()
}

/// Which file the command `command` asks `vi` to open, seen from the
/// directory at `cur` of `content`: the one that its second word names.
pub open spec fn vi_target(content: SshContent, cur: int, command: Seq<u8>) -> Option<(int, int)> {
    match second_word(command) {
        Some(path) => content.spec_locate(cur, path),
        None => None,
    }
}

/// Whether the command `command` opens a pager in a terminal of `size`
/// columns and rows.
pub open spec fn vi_opens(
    content: SshContent,
    cur: int,
    size: (u32, u32),
    command: Seq<u8>,
) -> bool {
    vi_target(content, cur, command) is Some && usable_size(size)
}

/// The pager that the command opens, where it opens one: at the start of
/// the file, in a window of all the terminal's rows but one.
pub open spec fn vi_pager(
    content: SshContent,
    cur: int,
    size: (u32, u32),
    command: Seq<u8>,
) -> PagerState {
    opened(
        rows(content.spec_file_at(vi_target(content, cur, command)->0).lines@),
        size.0 as nat,
        (size.1 - 1) as nat,
    )
}

/// What the command answers where it opens no pager: that a file must be
/// given, that there is no such file, or that the terminal cannot hold a
/// window, whichever applies first.
pub open spec fn vi_refusal(content: SshContent, cur: int, command: Seq<u8>) -> Seq<u8> {
    match second_word(command) {
        None => VI_USAGE.spec_bytes(),
        Some(path) => match content.spec_locate(cur, path) {
            None => no_such_file(path),
            Some(at) => VI_NO_WINDOW.spec_bytes(),
        },
    }
}

/// Whether a terminal of `size` columns and rows can hold a pager.
pub fn is_usable_size(size: (u32, u32)) -> (r: bool)
    ensures
        r == usable_size(size),
{
    1 <= size.0 && size.0 <= 65535 && 2 <= size.1 && size.1 <= 65535
}

/// A running pager: a file of one snapshot of the file system, where the
/// cursor is in it, and which part of it the window shows.
pub struct Vim {
    /// The snapshot that holds the file. The pager keeps it alive.
    content: Arc<SshContent>,
    /// The place of the file's directory in the snapshot's arena.
    dir: usize,
    /// The position of the file among the files of that directory.
    file: usize,
    /// The cursor in the file: column and line.
    cursor_pos: (usize, usize),
    /// The top of the window: the line, and how many window widths of it
    /// lie above the window.
    scroll_pos: (usize, usize),
    /// The size of the terminal: columns and rows.
    term_size: (u16, u16),
    /// The rows that show the file: all but the last, which holds the
    /// status hint.
    available_height: usize,
}

impl View for Vim {
    type V = PagerState;

    closed spec fn view(&self) -> PagerState {
        PagerState {
            lines: rows(self.spec_file().lines@),
            cursor_x: self.cursor_pos.0 as nat,
            cursor_y: self.cursor_pos.1 as nat,
            scroll_line: self.scroll_pos.0 as nat,
            scroll_sub: self.scroll_pos.1 as nat,
            width: self.term_size.0 as nat,
            height: self.available_height as nat,
        }
    }
}

impl Vim {
    /// The snapshot that holds the file.
    pub closed spec fn content(&self) -> SshContent {
        *self.content
    }

    /// Where the file is in the snapshot: the place of its directory and
    /// its position among that directory's files.
    pub closed spec fn locator(&self) -> (int, int) {
        (self.dir as int, self.file as int)
    }

    /// The file that the pager shows.
    pub closed spec fn spec_file(&self) -> File {
        self.content.spec_file_at((self.dir as int, self.file as int))
    }

    /// The size of the terminal: columns and rows.
    pub closed spec fn term_size(&self) -> (u16, u16) {
        self.term_size
    }

    /// The snapshot is well formed and holds the file, the terminal can
    /// hold a window, all rows but one show the file, and the pager's
    /// state is well formed.
    pub closed spec fn wf(&self) -> bool {
        &&& self.content.wf()
        &&& self.dir < self.content.directories@.len()
        &&& self.file < self.content.directories@[self.dir as int].files.values().len()
        &&& self.term_size.0 >= 1
        &&& self.term_size.1 >= 2
        &&& self.available_height == self.term_size.1 - 1
        &&& self@.wf()
    }

    /// What holds of a pager between two events: it is well formed and
    /// its cursor shows in the window.
    pub open spec fn inv(&self) -> bool {
        self.wf() && self@.on_screen()
    }

    /// A well-formed pager has a well-formed state, and its window has
    /// all rows of the terminal but one.
    pub proof fn lemma_wf(&self)
        requires
            self.wf(),
        ensures
            self@.wf(),
            self@.width == self.term_size().0,
            self@.height == self.term_size().1 - 1,
            self.content().wf(),
            self@.lines == rows(self.spec_file().lines@),
    {
    }

    /// The cursor in the file: column and line.
    pub fn cursor_pos(&self) -> (r: (usize, usize))
        ensures
            r.0 == self@.cursor_x,
            r.1 == self@.cursor_y,
    {
        self.cursor_pos
    }

    /// The top of the window: the line, and how many window widths of it
    /// lie above the window.
    pub fn scroll_pos(&self) -> (r: (usize, usize))
        ensures
            r.0 == self@.scroll_line,
            r.1 == self@.scroll_sub,
    {
        self.scroll_pos
    }

    /// The size of the terminal: columns and rows.
    pub fn window_size(&self) -> (r: (u16, u16))
        ensures
            r == self.term_size(),
    {
        self.term_size
    }

    /// The lines of the file.
    fn lines(&self) -> (r: &Vec<Vec<u8>>)
        requires
            self.wf(),
        ensures
            rows(r@) == self@.lines,
            r@.len() == self@.lines.len(),
            forall|i: int| 0 <= i < r@.len() ==> #[trigger] r@[i]@.len() == self@.line_len(i),
    {
        assert(self.content.directories@[self.dir as int].wf(
            self.content.directories@.len() as int,
        ));
        let file = self.content.directories[self.dir].files.value_at(self.file);
        assert forall|i: int| 0 <= i < file.lines@.len() implies #[trigger] file.lines@[i]@.len()
            == self@.line_len(i) by {
            assert(rows(file.lines@)[i] == file.lines@[i]@);
        }
        &file.lines
    }

    /// How many bytes of the top line lie above the window.
    fn scroll_offset(&self) -> (r: usize)
        requires
            self.wf(),
        ensures
            r == self@.scroll_sub * self@.width,
            r <= self@.line_len(self@.scroll_line as int),
    {
        let lines = self.lines();
        let n = lines[self.scroll_pos.0].len();
        let so = self.scroll_pos.1;
        let w = self.term_size.0 as usize;
        assert(so * w <= n) by {
            if so == 0 {
                assert(so * w == 0) by (nonlinear_arith)
                    requires
                        so == 0,
                ;
            } else {
                assert(self@.scroll_sub * self@.width < self@.line_len(self@.scroll_line as int));
            }
        }
        so * w
    }

    /// Where in the window the cursor shows, as column and row. A cursor
    /// above the window gives `(0, -1)`. A row that no `isize` can hold
    /// is given as `isize::MAX`.
    pub fn get_cursor_screen(&self) -> (r: (isize, isize))
        requires
            self.wf(),
        ensures
            r.0 == self@.cursor_screen().0,
            r.1 == if self@.cursor_screen().1 <= isize::MAX {
                self@.cursor_screen().1
            } else {
                isize::MAX as int
            },
    {
        let lines = self.lines();
        let w = self.term_size.0 as usize;
        let (cx, cy) = self.cursor_pos;
        let (sl, so) = self.scroll_pos;
        let ghost s = self@;
        let above = self.scroll_offset();
        if cy < sl || (cy == sl && cx < above) {
            return (0, -1);
        }
        let cap: i128 = isize::MAX as i128;
        let mut acc: i128 = -(so as i128);
        let mut i: usize = sl;
        assert(s.rows_between(sl as int, sl as int) == 0);
        while i < cy
            invariant
                sl <= i <= cy < lines@.len(),
                w >= 1,
                w == s.width,
                cap == isize::MAX,
                forall|k: int|
                    0 <= k < lines@.len() ==> #[trigger] lines@[k]@.len() == s.line_len(k),
                -(so as int) <= acc <= cap,
                acc == if -(so as int) + s.rows_between(sl as int, i as int) <= cap {
                    -(so as int) + s.rows_between(sl as int, i as int)
                } else {
                    cap as int
                },
            decreases cy - i,
        {
            let n = lines[i].len();
            let line_rows: i128 = (n / w) as i128 + 1;
            proof {
                lemma_div_facts(n as int, w as int);
                assert(s.line_rows(i as int) == line_rows);
                assert(s.rows_between(sl as int, i + 1) == s.rows_between(sl as int, i as int)
                    + s.line_rows(i as int));
            }
            acc = if acc + line_rows > cap {
                cap
            } else {
                acc + line_rows
            };
            i += 1;
        }
        let n = lines[cy].len();
        let last: usize = if n == 0 {
            0
        } else {
            n - 1
        };
        let ex: usize = if cx <= last {
            cx
        } else {
            last
        };
        proof {
            lemma_div_facts(ex as int, w as int);
            lemma_not_above(s);
            assert(s.column() == ex);
        }
        let down: i128 = (ex / w) as i128;
        acc = if acc + down > cap {
            cap
        } else {
            acc + down
        };
        ((ex % w) as isize, acc as isize)
    }

    /// What draws the whole window.
    pub fn render(&self) -> (out: Vec<u8>)
        requires
            self.inv(),
        ensures
            out@ == self@.render(),
    {
        let lines = self.lines();
        let w = self.term_size.0 as usize;
        let ghost s = self@;
        let mut out: Vec<u8> = Vec::new();
        push_clear_code(&mut out);
        push_cursor_code(&mut out, 0, 0);
        let ghost head = out@;
        let mut line: usize = self.scroll_pos.0;
        let mut start: usize = self.scroll_offset();
        let mut y: usize = 0;
        let ghost full = s.body(line as int, start as int, 0);
        while y < self.available_height
            invariant
                self.wf(),
                s == self@,
                w == s.width,
                w >= 1,
                y <= self.available_height == s.height < 65535,
                rows(lines@) == s.lines,
                lines@.len() == s.lines.len(),
                forall|k: int|
                    0 <= k < lines@.len() ==> #[trigger] lines@[k]@.len() == s.line_len(k),
                line <= lines@.len(),
                line < lines@.len() ==> start <= lines@[line as int]@.len(),
                head + full == out@ + s.body(line as int, start as int, y as int),
            decreases self.available_height - y,
        {
            let ghost before = out@;
            push_cursor_code(&mut out, 0, y as u16);
            if line >= lines.len() {
                out.push(FILLER);
                assert(out@ =~= before + cursor_code(0, y as int) + s.row_text(
                    line as int,
                    start as int,
                ));
            } else {
                let n = lines[line].len();
                assert(rows(lines@)[line as int] == lines@[line as int]@);
                if n - start > w {
                    push_range(&mut out, lines[line].as_slice(), start, start + w);
                    assert(out@ =~= before + cursor_code(0, y as int) + s.row_text(
                        line as int,
                        start as int,
                    ));
                    start = start + w;
                } else {
                    push_range(&mut out, lines[line].as_slice(), start, n);
                    assert(lines@[line as int]@.subrange(start as int, n as int)
                        =~= lines@[line as int]@.skip(start as int));
                    assert(out@ =~= before + cursor_code(0, y as int) + s.row_text(
                        line as int,
                        start as int,
                    ));
                    line = line + 1;
                    start = 0;
                }
            }
            y += 1;
            assert(head + full =~= out@ + s.body(line as int, start as int, y as int));
        }
        push_str(&mut out, STATUS_HINT);
        let (sx, sy) = self.get_cursor_screen();
        proof {
            lemma_div_facts(s.column(), w as int);
        }
        push_cursor_code(&mut out, sx as u16, sy as u16);
        assert(out@ =~= s.render());
        out
    }

    /// Scrolls until the cursor shows. Returns what brings the terminal up
    /// to date: the cursor's place where nothing scrolled, else the whole
    /// window.
    pub fn update_cursor(&mut self) -> (out: Vec<u8>)
        requires
            old(self).wf(),
        ensures
            final(self).inv(),
            final(self)@ == old(self)@.scrolled(),
            out@ == old(self)@.update_output(),
            final(self).content() == old(self).content(),
            final(self).locator() == old(self).locator(),
            final(self).term_size() == old(self).term_size(),
    {
        let ghost first = self@;
        let w = self.term_size.0 as usize;
        let mut must_rerender = false;
        let mut at: (u16, u16) = (0, 0);
        proof {
            lemma_scrolled(first);
        }
        loop
            invariant_except_break
                self.wf(),
                self@.scrolled() == first.scrolled(),
                must_rerender ==> !first.on_screen(),
                !must_rerender ==> self@ == first,
            invariant
                w == self.term_size.0,
                self.content == old(self).content,
                self.dir == old(self).dir,
                self.file == old(self).file,
                self.term_size == old(self).term_size,
                self.available_height == old(self).available_height,
            ensures
                self.inv(),
                self@ == first.scrolled(),
                must_rerender == !first.on_screen(),
                at.0 == self@.cursor_screen().0,
                at.1 == self@.cursor_screen().1,
            decreases self@.phase(), self@.distance(), self@.sub_distance(),
        {
            let ghost s = self@;
            let (sx, sy) = self.get_cursor_screen();
            proof {
                lemma_div_facts(s.column(), w as int);
                if !s.on_screen() {
                    lemma_scroll_step(s);
                }
            }
            if sy < 0 {
                if self.scroll_pos.1 > 0 {
                    self.scroll_pos.1 -= 1;
                } else {
                    assert(s.scroll_sub * s.width == 0) by (nonlinear_arith)
                        requires
                            s.scroll_sub == 0,
                    ;
                    self.scroll_pos.0 -= 1;
                }
            } else if sy >= self.available_height as isize {
                let lines = self.lines();
                let n = lines[self.scroll_pos.0].len();
                assert((self.scroll_pos.1 + 1) * w <= u128::MAX) by (nonlinear_arith)
                    requires
                        self.scroll_pos.1 <= usize::MAX,
                        w <= 65535,
                ;
                if (self.scroll_pos.1 as u128 + 1) * (w as u128) < n as u128 {
                    assert(self.scroll_pos.1 + 1 <= (self.scroll_pos.1 + 1) * w) by (
                        nonlinear_arith)
                        requires
                            w >= 1,
                    ;
                    self.scroll_pos.1 += 1;
                } else {
                    self.scroll_pos.1 = 0;
                    self.scroll_pos.0 += 1;
                }
            } else {
                at = (sx as u16, sy as u16);
                break ;
            }
            assert(self@ == s.scroll_step());
            must_rerender = true;
        }
        if must_rerender {
            self.render()
        } else {
            let mut out: Vec<u8> = Vec::new();
            push_cursor_code(&mut out, at.0, at.1);
            assert(out@ =~= cursor_code(at.0 as int, at.1 as int));
            out
        }
    }

    /// Starts the pager for the command line `command` of `session`: on
    /// the file that its second word names, seen from the session's
    /// current directory, in a terminal of the session's size. Returns
    /// the running pager and what draws its window, or what to tell the
    /// user where no pager starts: that a file must be given, that there
    /// is no such file, or that the terminal cannot hold a window, in
    /// this order. The session is not changed.
    pub fn startup(session: &SshSession, command: &[u8]) -> (r: Result<
        (RunningApp, Vec<u8>),
        Vec<u8>,
    >)
        requires
            session.wf(),
        ensures
            match r {
                Ok((RunningApp::Vim(vim), out)) => {
                    &&& vi_opens(
                        session.content(),
                        session@.current_dir,
                        session@.term_size,
                        command@,
                    )
                    &&& vim.inv()
                    &&& vim.content() == session.content()
                    &&& vim.locator() == vi_target(
                        session.content(),
                        session@.current_dir,
                        command@,
                    )->0
                    &&& vim@ == vi_pager(
                        session.content(),
                        session@.current_dir,
                        session@.term_size,
                        command@,
                    )
                    &&& out@ == vim@.render()
                },
                Err(message) => {
                    &&& !vi_opens(
                        session.content(),
                        session@.current_dir,
                        session@.term_size,
                        command@,
                    )
                    &&& message@ == vi_refusal(
                        session.content(),
                        session@.current_dir,
                        command@,
                    )
                },
            },
    {
        proof {
            session.lemma_wf();
        }
        match Vim::open(
            session.content_handle(),
            session.current_dir(),
            session.terminal_size(),
            command,
        ) {
            Ok((vim, out)) => Ok((RunningApp::Vim(vim), out)),
            Err(message) => Err(message),
        }
    }

    /// Opens the file that the second word of `command` names, seen from
    /// the directory at `current_dir` of `content`, in a terminal of
    /// `term_size` columns and rows. Returns the pager and what draws its
    /// window, or what to tell the user where no pager opens: that a file
    /// must be given, that there is no such file, or that the terminal
    /// cannot hold a window, in this order.
    pub fn open(
        content: &Arc<SshContent>,
        current_dir: usize,
        term_size: (u32, u32),
        command: &[u8],
    ) -> (r: Result<(Vim, Vec<u8>), Vec<u8>>)
        requires
            content.wf(),
            current_dir < content.directories@.len(),
        ensures
            match r {
                Ok((vim, out)) => {
                    &&& vi_opens(**content, current_dir as int, term_size, command@)
                    &&& vim.inv()
                    &&& vim.content() == **content
                    &&& vim.locator() == vi_target(**content, current_dir as int, command@)->0
                    &&& vim@ == vi_pager(**content, current_dir as int, term_size, command@)
                    &&& out@ == vim@.render()
                },
                Err(message) => {
                    &&& !vi_opens(**content, current_dir as int, term_size, command@)
                    &&& message@ == vi_refusal(**content, current_dir as int, command@)
                },
            },
    {
        let mut message: Vec<u8> = Vec::new();
        let path = match crate::text::second_word_of(command) {
            Some(path) => path,
            None => {
                push_str(&mut message, VI_USAGE);
                return Err(message);
            },
        };
        let at = match content.locate_file(current_dir, path.as_slice()) {
            Some(at) => at,
            None => {
                push_str(&mut message, VI_NO_FILE_HEAD);
                push_bytes(&mut message, path.as_slice());
                push_str(&mut message, VI_NO_FILE_TAIL);
                return Err(message);
            },
        };
        if !is_usable_size(term_size) {
            push_str(&mut message, VI_NO_WINDOW);
            return Err(message);
        }
        let vim = Vim {
            content: Arc::clone(content),
            dir: at.0,
            file: at.1,
            cursor_pos: (0, 0),
            scroll_pos: (0, 0),
            term_size: (term_size.0 as u16, term_size.1 as u16),
            available_height: (term_size.1 - 1) as usize,
        };
        proof {
            assert(content.directories@[at.0 as int].wf(content.directories@.len() as int));
            lemma_file_has_line(vim.spec_file());
            assert(rows(vim.spec_file().lines@).len() == vim.spec_file().lines@.len());
            lemma_opened(
                rows(vim.spec_file().lines@),
                term_size.0 as nat,
                (term_size.1 - 1) as nat,
            );
        }
        let out = vim.render();
        Ok((vim, out))
    }

    /// Takes one byte from the user. Returns what brings the terminal up
    /// to date.
    pub fn data(&mut self, data: u8) -> (out: Vec<u8>)
        requires
            old(self).inv(),
        ensures
            final(self).inv(),
            final(self)@ == old(self)@.after_key(data),
            out@ == old(self)@.key_output(data),
            final(self).content() == old(self).content(),
            final(self).locator() == old(self).locator(),
            final(self).term_size() == old(self).term_size(),
    {
        let ghost s = self@;
        if data == KEY_LEFT || data == KEY_RIGHT {
            let lines = self.lines();
            let n = lines[self.cursor_pos.1].len();
            let last: usize = if n == 0 {
                0
            } else {
                n - 1
            };
            if data == KEY_RIGHT {
                if self.cursor_pos.0 >= last {
                    return Vec::new();
                }
                self.cursor_pos.0 += 1;
            } else {
                if self.cursor_pos.0 >= last {
                    self.cursor_pos.0 = last;
                }
                if self.cursor_pos.0 > 0 {
                    self.cursor_pos.0 -= 1;
                }
            }
        } else if data == KEY_DOWN {
            let lines = self.lines();
            let count = lines.len();
            if self.cursor_pos.1 + 1 < count {
                self.cursor_pos.1 += 1;
            }
        } else if data == KEY_UP {
            if self.cursor_pos.1 > 0 {
                self.cursor_pos.1 -= 1;
            }
        } else if data == KEY_END {
            self.cursor_pos.0 = usize::MAX / 4;
        } else {
            return Vec::new();
        }
        assert(Some(self@) == s.moved(data));
        self.update_cursor()
    }

    /// Takes the terminal's new size. Returns what draws the window in
    /// it. A size that cannot hold a window changes nothing and nothing
    /// is returned.
    pub fn resize(&mut self, width: u32, height: u32) -> (out: Vec<u8>)
        requires
            old(self).inv(),
        ensures
            final(self).inv(),
            final(self).content() == old(self).content(),
            final(self).locator() == old(self).locator(),
            usable_size((width, height)) ==> final(self)@ == old(self)@.after_resize(
                width as nat,
                (height - 1) as nat,
            ) && out@ == final(self)@.render() && final(self).term_size() == (
                width as u16,
                height as u16,
            ),
            !usable_size((width, height)) ==> final(self)@ == old(self)@ && out@ == Seq::<
                u8,
            >::empty() && final(self).term_size() == old(self).term_size(),
    {
        if !is_usable_size((width, height)) {
            return Vec::new();
        }
        let ghost s = self@;
        proof {
            lemma_resized_wf(s, width as nat, (height - 1) as nat);
            lemma_after_resize(s, width as nat, (height - 1) as nat);
        }
        let above = self.scroll_offset();
        self.term_size = (width as u16, height as u16);
        self.available_height = (height - 1) as usize;
        self.scroll_pos.1 = above / (width as usize);
        assert(self@ == s.resized_to(width as nat, (height - 1) as nat));
        let _ = self.update_cursor();
        self.render()
    }
}

/// A program that has taken over the terminal.
pub enum RunningApp {
    /// The pager.
    Vim(Vim),
}

impl RunningApp {
    /// What holds of a running program between two events.
    pub open spec fn inv(&self) -> bool {
        match self {
            RunningApp::Vim(vim) => vim.inv(),
        }
    }

    /// Takes one byte from the user. Returns what brings the terminal up
    /// to date.
    pub fn data(&mut self, data: u8) -> (out: Vec<u8>)
        requires
            old(self).inv(),
        ensures
            final(self).inv(),
            match (*old(self), *final(self)) {
                (RunningApp::Vim(before), RunningApp::Vim(after)) => {
                    &&& after@ == before@.after_key(data)
                    &&& out@ == before@.key_output(data)
                    &&& after.content() == before.content()
                    &&& after.locator() == before.locator()
                    &&& after.term_size() == before.term_size()
                },
            },
    {
        match self {
            RunningApp::Vim(vim) => vim.data(data),
        }
    }

    /// Takes the terminal's new size. Returns what draws the program in
    /// it.
    pub fn resize(&mut self, width: u32, height: u32) -> (out: Vec<u8>)
        requires
            old(self).inv(),
        ensures
            final(self).inv(),
            match (*old(self), *final(self)) {
                (RunningApp::Vim(before), RunningApp::Vim(after)) => {
                    &&& after.content() == before.content()
                    &&& after.locator() == before.locator()
                    &&& usable_size((width, height)) ==> after@ == before@.after_resize(
                        width as nat,
                        (height - 1) as nat,
                    ) && out@ == after@.render() && after.term_size() == (
                        width as u16,
                        height as u16,
                    )
                    &&& !usable_size((width, height)) ==> after@ == before@ && out@ == Seq::<
                        u8,
                    >::empty() && after.term_size() == before.term_size()
                },
            },
    {
        match self {
            RunningApp::Vim(vim) => vim.resize(width, height),
        }
    }
}

} // verus!
