//! The terminal-aware printer: terminal geometry (size and physical cursor),
//! the line edit buffer, and the queue of output actions.
//!
//! Nothing here touches a real terminal. Every write, cursor move, clear or
//! scroll the printer wants performed is pushed onto a queue of
//! [`OutputAction`] values; the embedding program drains the queue with
//! [`PrinterTerm::take_actions`] and performs each action on the device. The
//! geometry bookkeeping — how far a span of text advances the cursor, when
//! the screen must scroll, how the cursor wraps at the edges — is all decided
//! and verified here.

use vstd::prelude::*;

use crate::buffer::LineBuffer;

verus! {

/// A direction for [`PrinterTerm::update_cursor`]. `Down(n)` carries the
/// length of a just-rendered span of text; the cursor then advances past the
/// rows that span occupied, plus one trailing row. `Up` is accepted and
/// leaves the position unchanged.
pub enum Direction {
    Left,
    Right,
    Down(u16),
    Up,
}

/// One queued effect on the terminal device, to be performed by the
/// embedding program. Coordinates are (column, row), 0-indexed.
pub enum OutputAction {
    /// Write the text at the device's current write position.
    Print(String),
    /// Move the write position to (column, row).
    MoveTo(u16, u16),
    /// Move the write position to the given column of the current row.
    MoveToColumn(u16),
    /// Clear the current row.
    ClearLine,
    /// Clear the whole screen.
    ClearAll,
    /// Scroll the terminal contents up by the given number of rows.
    ScrollUp(usize),
    /// A bare line break, outside the tracked geometry.
    Newline,
}

/// The specification-level value of one [`OutputAction`]: the same shape,
/// with text abstracted to its character sequence.
pub enum ActionView {
    Print(Seq<char>),
    MoveTo(u16, u16),
    MoveToColumn(u16),
    ClearLine,
    ClearAll,
    ScrollUp(nat),
    Newline,
}

impl View for OutputAction {
    type V = ActionView;

    open spec fn view(&self) -> ActionView {
        match self {
            OutputAction::Print(s) => ActionView::Print(s@),
            OutputAction::MoveTo(c, r) => ActionView::MoveTo(*c, *r),
            OutputAction::MoveToColumn(c) => ActionView::MoveToColumn(*c),
            OutputAction::ClearLine => ActionView::ClearLine,
            OutputAction::ClearAll => ActionView::ClearAll,
            OutputAction::ScrollUp(n) => ActionView::ScrollUp(*n as nat),
            OutputAction::Newline => ActionView::Newline,
        }
    }
}

/// The number of extra wrapped rows a span of `len` characters occupies on
/// rows of `cols` columns: `len / cols`, so a span whose length is an exact
/// multiple of the width needs no extra wrap row beyond the trailing
/// advance. Spans beyond `u16::MAX` wrap rows — farther than any tracked
/// screen — count as `u16::MAX`; a width of 0 admits no wrapping.
pub open spec fn span_rows(len: nat, cols: u16) -> nat {
    if cols == 0 {
        0
    } else if len / (cols as nat) > u16::MAX as nat {
        u16::MAX as nat
    } else {
        len / (cols as nat)
    }
}

/// The row the cursor lands on after advancing over `extra` wrapped rows
/// plus the one trailing row, clamped to the last visible row.
pub open spec fn advanced_row(row: u16, extra: nat, rows: u16) -> u16 {
    if rows == 0 {
        0u16
    } else if row + extra + 1 <= rows - 1 {
        (row + extra + 1) as u16
    } else {
        (rows - 1) as u16
    }
}

/// How many rows the terminal must scroll up so that the advance of
/// [`advanced_row`] stays on the screen: one per row by which the new
/// position would pass the last visible row.
pub open spec fn advance_scroll_count(row: u16, extra: nat, rows: u16) -> nat {
    if rows == 0 {
        0
    } else if row + extra + 1 <= rows - 1 {
        0
    } else {
        (row + extra + 1 - (rows - 1)) as nat
    }
}

/// The cursor position after one move left. At column 0 the cursor wraps to
/// the full width of the row above, but only if the edit buffer's index is
/// nonzero; at the top row, or with the index at 0, the move is a no-op.
pub open spec fn left_cursor(col: u16, row: u16, cols: u16, idx_nonzero: bool) -> (u16, u16) {
    if col == 0 {
        if idx_nonzero && row > 0 {
            (cols, (row - 1) as u16)
        } else {
            (col, row)
        }
    } else {
        ((col - 1) as u16, row)
    }
}

/// The cursor position after one move right: at or past the right edge it
/// wraps to column 0 of the next row (the row saturating at its maximum).
pub open spec fn right_cursor(col: u16, row: u16, cols: u16) -> (u16, u16) {
    if col >= cols {
        (0u16, if row < u16::MAX {
            (row + 1) as u16
        } else {
            row
        })
    } else {
        ((col + 1) as u16, row)
    }
}

/// Relies on String::push: appends exactly the given character to the
/// string and changes nothing else.
#[verifier::external_body]
pub(crate) fn push_char(s: &mut String, c: char)
    ensures
        final(s)@ == old(s)@.push(c),
{
    s.push(c);
}

/// Terminal geometry, the line edit buffer, and the pending output actions.
pub struct PrinterTerm {
    /// Physical cursor position: (column, row), 0-indexed.
    cursor: (u16, u16),
    /// Terminal size: (columns, rows).
    size_limit: (u16, u16),
    /// The in-progress line of input.
    buffer: LineBuffer,
    /// Queued effects for the embedding program to perform.
    pending: Vec<OutputAction>,
}

impl PrinterTerm {
    /// The cursor's column.
    pub closed spec fn cursor_col(self) -> u16 {
        self.cursor.0
    }

    /// The cursor's row.
    pub closed spec fn cursor_row(self) -> u16 {
        self.cursor.1
    }

    /// The terminal width in columns.
    pub closed spec fn cols(self) -> u16 {
        self.size_limit.0
    }

    /// The terminal height in rows.
    pub closed spec fn rows(self) -> u16 {
        self.size_limit.1
    }

    /// The characters in the edit buffer.
    pub closed spec fn buffer_text(self) -> Seq<char> {
        self.buffer.text()
    }

    /// The edit buffer's insertion index.
    pub closed spec fn buffer_idx(self) -> nat {
        self.buffer.idx()
    }

    /// The queued output actions, oldest first.
    pub closed spec fn actions(self) -> Seq<ActionView> {
        self.pending@.map(|i: int, a: OutputAction| a@)
    }

    /// True when only the queue of pending actions may differ between the
    /// two printer states: geometry and edit buffer agree.
    pub open spec fn same_core(self, other: PrinterTerm) -> bool {
        &&& self.cursor_col() == other.cursor_col()
        &&& self.cursor_row() == other.cursor_row()
        &&& self.cols() == other.cols()
        &&& self.rows() == other.rows()
        &&& self.buffer_text() == other.buffer_text()
        &&& self.buffer_idx() == other.buffer_idx()
    }

    /// A fresh printer for a terminal of the given size. The cursor starts
    /// at the origin, the edit buffer is empty, and the queue opens with a
    /// clear-screen and a move to the origin.
    pub fn new(cols: u16, rows: u16) -> (p: PrinterTerm)
        ensures
            p.cursor_col() == 0,
            p.cursor_row() == 0,
            p.cols() == cols,
            p.rows() == rows,
            p.buffer_text() == Seq::<char>::empty(),
            p.buffer_idx() == 0,
            p.actions() == seq![ActionView::ClearAll, ActionView::MoveTo(0, 0)],
    {
        let mut pending: Vec<OutputAction> = Vec::new();
        pending.push(OutputAction::ClearAll);
        pending.push(OutputAction::MoveTo(0, 0));
        let p = PrinterTerm {
            cursor: (0, 0),
            size_limit: (cols, rows),
            buffer: LineBuffer::new(),
            pending,
        };
        proof {
            assert(p.actions() =~= seq![ActionView::ClearAll, ActionView::MoveTo(0, 0)]);
        }
        p
    }

    /// The current cursor position as (column, row).
    pub fn get_cursor(&self) -> (c: (u16, u16))
        ensures
            c.0 == self.cursor_col(),
            c.1 == self.cursor_row(),
    {
        self.cursor
    }

    /// The current terminal size as (columns, rows).
    pub fn get_size(&self) -> (s: (u16, u16))
        ensures
            s.0 == self.cols(),
            s.1 == self.rows(),
    {
        self.size_limit
    }

    /// Hands the queued actions to the caller, oldest first, and empties
    /// the queue. The embedding program performs them on the device in
    /// this order.
    pub fn take_actions(&mut self) -> (acts: Vec<OutputAction>)
        ensures
            acts@.map(|i: int, a: OutputAction| a@) == old(self).actions(),
            final(self).actions() == Seq::<ActionView>::empty(),
            final(self).same_core(*old(self)),
    {
        let mut out: Vec<OutputAction> = Vec::new();
        core::mem::swap(&mut out, &mut self.pending);
        proof {
            assert(self.actions() =~= Seq::<ActionView>::empty());
        }
        out
    }

    /// Replaces the stored terminal size verbatim; the cursor is not
    /// repositioned.
    pub fn resize(&mut self, cols: u16, rows: u16)
        ensures
            final(self).cols() == cols,
            final(self).rows() == rows,
            final(self).cursor_col() == old(self).cursor_col(),
            final(self).cursor_row() == old(self).cursor_row(),
            final(self).buffer_text() == old(self).buffer_text(),
            final(self).buffer_idx() == old(self).buffer_idx(),
            final(self).actions() == old(self).actions(),
    {
        self.size_limit = (cols, rows);
    }

    /// Advances the cursor past a just-rendered span of `len` characters:
    /// down the span's wrapped rows plus one trailing row, column reset to
    /// 0, scrolling the terminal as far as the advance passes the last
    /// visible row, and queues the move to the new position.
    fn advance_span(&mut self, len: usize)
        ensures
            final(self).cursor_col() == 0,
            final(self).cursor_row() == advanced_row(
                old(self).cursor_row(),
                span_rows(len as nat, old(self).cols()),
                old(self).rows(),
            ),
            final(self).cols() == old(self).cols(),
            final(self).rows() == old(self).rows(),
            final(self).buffer_text() == old(self).buffer_text(),
            final(self).buffer_idx() == old(self).buffer_idx(),
            final(self).actions() == old(self).actions() + scroll_then_move(
                advance_scroll_count(
                    old(self).cursor_row(),
                    span_rows(len as nat, old(self).cols()),
                    old(self).rows(),
                ),
                0,
                advanced_row(
                    old(self).cursor_row(),
                    span_rows(len as nat, old(self).cols()),
                    old(self).rows(),
                ),
            ),
    {
        let ghost start = self.actions();
        let cols = self.size_limit.0;
        let rows = self.size_limit.1;
        let extra: usize = if cols == 0 {
            0
        } else {
            let e = len / (cols as usize);
            if e > 65535 {
                65535
            } else {
                e
            }
        };
        assert(extra == span_rows(len as nat, cols));
        let row = self.cursor.1;
        let (new_row, scrolls): (u16, usize) = if rows == 0 {
            (0u16, 0usize)
        } else {
            let last = (rows - 1) as usize;
            let raw = row as usize + extra + 1;
            if raw <= last {
                (raw as u16, 0usize)
            } else {
                ((rows - 1) as u16, raw - last)
            }
        };
        assert(new_row == advanced_row(row, extra as nat, rows));
        assert(scrolls == advance_scroll_count(row, extra as nat, rows));
        if scrolls > 0 {
            self.pending.push(OutputAction::ScrollUp(scrolls));
        }
        self.cursor = (0, new_row);
        self.pending.push(OutputAction::MoveTo(0, new_row));
        proof {
            assert(self.actions() =~= start + scroll_then_move(
                scrolls as nat,
                0,
                new_row,
            ));
        }
    }

    /// Moves the tracked cursor one step in the given direction — `Down(n)`
    /// advances past a span of `n` characters — and queues the move to the
    /// resulting position. `Up` changes nothing but still queues the move.
    pub fn update_cursor(&mut self, direction: Direction)
        ensures
            final(self).cols() == old(self).cols(),
            final(self).rows() == old(self).rows(),
            final(self).buffer_text() == old(self).buffer_text(),
            final(self).buffer_idx() == old(self).buffer_idx(),
            (final(self).cursor_col(), final(self).cursor_row()) == match direction {
                Direction::Left => left_cursor(
                    old(self).cursor_col(),
                    old(self).cursor_row(),
                    old(self).cols(),
                    old(self).buffer_idx() != 0,
                ),
                Direction::Right => right_cursor(
                    old(self).cursor_col(),
                    old(self).cursor_row(),
                    old(self).cols(),
                ),
                Direction::Down(n) => (
                    0u16,
                    advanced_row(
                        old(self).cursor_row(),
                        span_rows(n as nat, old(self).cols()),
                        old(self).rows(),
                    ),
                ),
                Direction::Up => (old(self).cursor_col(), old(self).cursor_row()),
            },
            final(self).actions() == old(self).actions() + (match direction {
                Direction::Down(n) => scroll_then_move(
                    advance_scroll_count(
                        old(self).cursor_row(),
                        span_rows(n as nat, old(self).cols()),
                        old(self).rows(),
                    ),
                    final(self).cursor_col(),
                    final(self).cursor_row(),
                ),
                _ => seq![ActionView::MoveTo(final(self).cursor_col(), final(self).cursor_row())],
            }),
    {
        match direction {
            Direction::Down(n) => {
                self.advance_span(n as usize);
            },
            Direction::Left => {
                let idx_nonzero = self.buffer.index() != 0;
                self.move_left_cursor(idx_nonzero);
            },
            Direction::Right => {
                let ghost start = self.actions();
                let cols = self.size_limit.0;
                let (col, row) = self.cursor;
                let new_pos: (u16, u16) = if col >= cols {
                    (0, if row < 65535 {
                        row + 1
                    } else {
                        row
                    })
                } else {
                    (col + 1, row)
                };
                self.cursor = new_pos;
                self.pending.push(OutputAction::MoveTo(new_pos.0, new_pos.1));
                proof {
                    assert(self.actions() =~= start + seq![
                        ActionView::MoveTo(new_pos.0, new_pos.1),
                    ]);
                }
            },
            Direction::Up => {
                let ghost start = self.actions();
                let (col, row) = self.cursor;
                self.pending.push(OutputAction::MoveTo(col, row));
                proof {
                    assert(self.actions() =~= start + seq![ActionView::MoveTo(col, row)]);
                }
            },
        }
    }

    /// One cursor step left, wrapping at column 0 to the full width of the
    /// row above when `idx_nonzero` says the edit buffer's index is off its
    /// start; queues the move to the resulting position.
    fn move_left_cursor(&mut self, idx_nonzero: bool)
        ensures
            final(self).cols() == old(self).cols(),
            final(self).rows() == old(self).rows(),
            final(self).buffer_text() == old(self).buffer_text(),
            final(self).buffer_idx() == old(self).buffer_idx(),
            (final(self).cursor_col(), final(self).cursor_row()) == left_cursor(
                old(self).cursor_col(),
                old(self).cursor_row(),
                old(self).cols(),
                idx_nonzero,
            ),
            final(self).actions() == old(self).actions() + seq![
                ActionView::MoveTo(final(self).cursor_col(), final(self).cursor_row()),
            ],
    {
        let ghost start = self.actions();
        let cols = self.size_limit.0;
        let (col, row) = self.cursor;
        let new_pos: (u16, u16) = if col == 0 {
            if idx_nonzero && row > 0 {
                (cols, row - 1)
            } else {
                (col, row)
            }
        } else {
            (col - 1, row)
        };
        self.cursor = new_pos;
        self.pending.push(OutputAction::MoveTo(new_pos.0, new_pos.1));
        proof {
            assert(self.actions() =~= start + seq![
                ActionView::MoveTo(new_pos.0, new_pos.1),
            ]);
        }
    }

    /// Queues `text`, written at the tracked cursor position, then advances
    /// the cursor past the span as [`advanced_row`] says, scrolling when the
    /// advance passes the last visible row. The single chokepoint through
    /// which all rendered output flows, so the geometry never drifts from
    /// the device.
    pub fn print_wrapped(&mut self, text: &str)
        ensures
            printed(*old(self), *final(self), text@),
    {
        let ghost start = self.actions();
        let (col, row) = self.cursor;
        self.pending.push(OutputAction::MoveTo(col, row));
        self.pending.push(OutputAction::Print(text.to_owned()));
        proof {
            assert(self.actions() =~= start + seq![
                ActionView::MoveTo(col, row),
                ActionView::Print(text@),
            ]);
        }
        let len = text.unicode_len();
        self.advance_span(len);
        proof {
            assert(self.actions() =~= start + print_effect(
                col,
                row,
                self.cols(),
                self.rows(),
                text@,
            ));
        }
    }

    /// Queues a bare line break, outside the tracked geometry; nothing else
    /// changes.
    pub fn print_newline(&mut self)
        ensures
            final(self).same_core(*old(self)),
            final(self).actions() == old(self).actions().push(ActionView::Newline),
    {
        let ghost start = self.actions();
        self.pending.push(OutputAction::Newline);
        proof {
            assert(self.actions() =~= start.push(ActionView::Newline));
        }
    }

    /// Returns the completed line as an owned string and resets the edit
    /// buffer to empty with its index at 0. Geometry and queued actions are
    /// untouched.
    pub fn flush_line(&mut self) -> (line: String)
        ensures
            line@ == old(self).buffer_text(),
            final(self).buffer_text() == Seq::<char>::empty(),
            final(self).buffer_idx() == 0,
            final(self).cursor_col() == old(self).cursor_col(),
            final(self).cursor_row() == old(self).cursor_row(),
            final(self).cols() == old(self).cols(),
            final(self).rows() == old(self).rows(),
            final(self).actions() == old(self).actions(),
    {
        let chars = self.buffer.flush();
        let mut line = String::new();
        let n = chars.len();
        let mut i: usize = 0;
        while i < n
            invariant
                i <= n,
                n == chars@.len(),
                line@ == chars@.subrange(0, i as int),
            decreases n - i,
        {
            push_char(&mut line, chars[i]);
            proof {
                assert(line@ =~= chars@.subrange(0, i + 1));
            }
            i = i + 1;
        }
        proof {
            assert(line@ =~= chars@);
        }
        line
    }
    /// The edit buffer's characters from `from` onward, as an owned string.
    fn buffer_suffix(&self, from: usize) -> (s: String)
        requires
            from as int <= self.buffer_text().len(),
        ensures
            s@ == self.buffer_text().skip(from as int),
    {
        let mut s = String::new();
        let n = self.buffer.len();
        let mut i: usize = from;
        while i < n
            invariant
                from <= i <= n,
                n == self.buffer_text().len(),
                s@ == self.buffer_text().subrange(from as int, i as int),
            decreases n - i,
        {
            push_char(&mut s, self.buffer.char_at(i));
            proof {
                assert(s@ =~= self.buffer_text().subrange(from as int, i + 1));
            }
            i = i + 1;
        }
        proof {
            assert(s@ =~= self.buffer_text().skip(from as int));
        }
        s
    }

    /// Feeds one input event to the editor's state machine and returns what
    /// the embedding program should do next: keep feeding events, hand a
    /// completed line to the dispatcher, or release the terminal and end.
    ///
    /// Enter flushes the buffer and advances one row. Backspace deletes
    /// before the index and re-renders the line in place. Left and Right
    /// move the edit index, bounded, and the cursor with it. A printable
    /// character is inserted at the index and the tail of the line from that
    /// character onward is echoed. A resize replaces the geometry verbatim.
    /// Tab is a reserved no-op; every other event is ignored.
    pub fn handle_event(&mut self, event: InputEvent) -> (step: ReadStep)
        ensures
            event_transition(*old(self), *final(self), event, step),
    {
        match event {
            InputEvent::Key(KeyCode::Enter) => {
                let line = self.flush_line();
                self.advance_span(0);
                ReadStep::Line(line)
            },
            InputEvent::Key(KeyCode::Tab) => {
                // Reserved extension point for completion; no behavior yet.
                ReadStep::Pending
            },
            InputEvent::Key(KeyCode::Backspace) => {
                if self.buffer.index() != 0 {
                    self.buffer.delete_back();
                    let line = self.buffer_suffix(0);
                    proof {
                        assert(self.buffer_text().skip(0) =~= self.buffer_text());
                    }
                    let ghost mid = self.actions();
                    self.pending.push(OutputAction::ClearLine);
                    self.pending.push(OutputAction::MoveToColumn(0));
                    self.pending.push(OutputAction::Print(line));
                    proof {
                        assert(self.actions() =~= mid + seq![
                            ActionView::ClearLine,
                            ActionView::MoveToColumn(0),
                            ActionView::Print(self.buffer_text()),
                        ]);
                    }
                    let idx_nonzero = self.buffer.index() != 0;
                    self.move_left_cursor(idx_nonzero);
                    proof {
                        assert(self.actions() =~= old(self).actions() + seq![
                            ActionView::ClearLine,
                            ActionView::MoveToColumn(0),
                            ActionView::Print(self.buffer_text()),
                            ActionView::MoveTo(self.cursor_col(), self.cursor_row()),
                        ]);
                    }
                }
                ReadStep::Pending
            },
            InputEvent::Key(KeyCode::Left) => {
                // The index bound is checked before any decrement, and the
                // column wrap is decided by where the index stood before the
                // move: the two edge checks are kept distinct.
                let idx_nonzero = self.buffer.index() != 0;
                self.buffer.move_left();
                self.move_left_cursor(idx_nonzero);
                ReadStep::Pending
            },
            InputEvent::Key(KeyCode::Right) => {
                if self.buffer.index() < self.buffer.len() {
                    self.buffer.move_right();
                    self.update_cursor(Direction::Right);
                }
                ReadStep::Pending
            },
            InputEvent::Key(KeyCode::Esc) => {
                ReadStep::Terminate
            },
            InputEvent::Key(KeyCode::Char(c)) => {
                self.buffer.insert(c);
                let idx = self.buffer.index();
                let tail = self.buffer_suffix(idx - 1);
                self.pending.push(OutputAction::Print(tail));
                self.update_cursor(Direction::Right);
                proof {
                    assert(self.actions() =~= old(self).actions() + seq![
                        ActionView::Print(
                            self.buffer_text().skip(old(self).buffer_idx() as int),
                        ),
                        ActionView::MoveTo(self.cursor_col(), self.cursor_row()),
                    ]);
                }
                ReadStep::Pending
            },
            InputEvent::Key(KeyCode::Other) => {
                ReadStep::Pending
            },
            InputEvent::Resize(x, y) => {
                self.resize(x, y);
                ReadStep::Pending
            },
            InputEvent::Other => {
                ReadStep::Pending
            },
        }
    }

    /// Of a burst of resize events — the first observed size and those that
    /// followed within the coalescing window — only the last size is
    /// retained as new geometry; the first and last are returned as the
    /// batch's summary.
    pub fn flush_resize_events(
        first_resize: (u16, u16),
        later: &Vec<(u16, u16)>,
    ) -> (r: ((u16, u16), (u16, u16)))
        ensures
            r.0 == first_resize,
            r.1 == if later@.len() == 0 {
                first_resize
            } else {
                later@.last()
            },
    {
        let mut last = first_resize;
        let n = later.len();
        let mut i: usize = 0;
        while i < n
            invariant
                i <= n,
                n == later@.len(),
                last == if i == 0 {
                    first_resize
                } else {
                    later@[i - 1]
                },
            decreases n - i,
        {
            last = later[i];
            i = i + 1;
        }
        (first_resize, last)
    }
}

/// A key recognized by the event loop.
#[derive(Clone, Copy)]
pub enum KeyCode {
    Enter,
    Tab,
    Backspace,
    Left,
    Right,
    Esc,
    Char(char),
    /// Any other key: ignored.
    Other,
}

/// A terminal input event, as the embedding program reports it.
#[derive(Clone, Copy)]
pub enum InputEvent {
    Key(KeyCode),
    /// A new terminal size: (columns, rows).
    Resize(u16, u16),
    /// Any other event: ignored.
    Other,
}

/// What the embedding program should do after feeding one event to
/// [`PrinterTerm::handle_event`].
pub enum ReadStep {
    /// Keep reading events.
    Pending,
    /// A line was completed; dispatch it.
    Line(String),
    /// The session was ended from the keyboard; release the terminal and
    /// stop.
    Terminate,
}

/// The render-relevant part of a printer: where the next print lands, the
/// terminal size, and what has been queued. Used to state, step by step,
/// what a sequence of prints leaves behind.
pub struct RenderState {
    pub col: u16,
    pub row: u16,
    pub cols: u16,
    pub rows: u16,
    pub acts: Seq<ActionView>,
}

/// The render state a printer is in.
pub open spec fn render_state_of(p: PrinterTerm) -> RenderState {
    RenderState {
        col: p.cursor_col(),
        row: p.cursor_row(),
        cols: p.cols(),
        rows: p.rows(),
        acts: p.actions(),
    }
}

/// The render state after one print of `text` through the chokepoint: the
/// print's actions are queued and the cursor lands on column 0 of the
/// advanced row.
pub open spec fn state_after_print(st: RenderState, text: Seq<char>) -> RenderState {
    RenderState {
        col: 0,
        row: advanced_row(st.row, span_rows(text.len(), st.cols), st.rows),
        cols: st.cols,
        rows: st.rows,
        acts: st.acts + print_effect(st.col, st.row, st.cols, st.rows, text),
    }
}

/// State `post` is state `pre` after exactly one print of `text` through
/// the renderer chokepoint: the text and the cursor moves are queued, the
/// cursor lands on column 0 of the advanced row, and nothing else changes.
pub open spec fn printed(pre: PrinterTerm, post: PrinterTerm, text: Seq<char>) -> bool {
    &&& post.cursor_col() == 0
    &&& post.cursor_row() == advanced_row(
        pre.cursor_row(),
        span_rows(text.len(), pre.cols()),
        pre.rows(),
    )
    &&& post.cols() == pre.cols()
    &&& post.rows() == pre.rows()
    &&& post.buffer_text() == pre.buffer_text()
    &&& post.buffer_idx() == pre.buffer_idx()
    &&& post.actions() == pre.actions() + print_effect(
        pre.cursor_col(),
        pre.cursor_row(),
        pre.cols(),
        pre.rows(),
        text,
    )
}

/// The actions queued by one [`PrinterTerm::print_wrapped`] of `text` from
/// cursor position (`col`, `row`): the move to that position, the text, and
/// the closing scroll-and-move of the advance.
pub open spec fn print_effect(
    col: u16,
    row: u16,
    cols: u16,
    rows: u16,
    text: Seq<char>,
) -> Seq<ActionView> {
    seq![ActionView::MoveTo(col, row), ActionView::Print(text)] + scroll_then_move(
        advance_scroll_count(row, span_rows(text.len(), cols), rows),
        0,
        advanced_row(row, span_rows(text.len(), cols), rows),
    )
}

/// The actions that close an advance of the cursor: a scroll (when one is
/// needed) followed by the move to the new position.
pub open spec fn scroll_then_move(scrolls: nat, col: u16, row: u16) -> Seq<ActionView> {
    if scrolls > 0 {
        seq![ActionView::ScrollUp(scrolls), ActionView::MoveTo(col, row)]
    } else {
        seq![ActionView::MoveTo(col, row)]
    }
}


/// The full transition relation of [`PrinterTerm::handle_event`]: how state
/// `pre` becomes state `post` and which [`ReadStep`] comes back when `event`
/// is fed to the editor.
pub open spec fn event_transition(
    pre: PrinterTerm,
    post: PrinterTerm,
    event: InputEvent,
    step: ReadStep,
) -> bool {
    &&& ((step matches ReadStep::Terminate) <==> (event matches InputEvent::Key(KeyCode::Esc)))
    &&& ((step matches ReadStep::Line(_)) <==> (event matches InputEvent::Key(KeyCode::Enter)))
    &&& match event {
        InputEvent::Key(KeyCode::Enter) => {
            &&& (step matches ReadStep::Line(l) ==> l@ == pre.buffer_text())
            &&& post.buffer_text() == Seq::<char>::empty()
            &&& post.buffer_idx() == 0
            &&& post.cursor_col() == 0
            &&& post.cursor_row() == advanced_row(
                pre.cursor_row(),
                0,
                pre.rows(),
            )
            &&& post.cols() == pre.cols()
            &&& post.rows() == pre.rows()
            &&& post.actions() == pre.actions() + scroll_then_move(
                advance_scroll_count(pre.cursor_row(), 0, pre.rows()),
                0,
                advanced_row(pre.cursor_row(), 0, pre.rows()),
            )
        },
        InputEvent::Key(KeyCode::Backspace) => {
            if pre.buffer_idx() == 0 {
                post == pre
            } else {
                &&& post.buffer_text() == pre.buffer_text().remove(
                    pre.buffer_idx() - 1,
                )
                &&& post.buffer_idx() == pre.buffer_idx() - 1
                &&& (post.cursor_col(), post.cursor_row()) == left_cursor(
                    pre.cursor_col(),
                    pre.cursor_row(),
                    pre.cols(),
                    pre.buffer_idx() != 1,
                )
                &&& post.cols() == pre.cols()
                &&& post.rows() == pre.rows()
                &&& post.actions() == pre.actions() + seq![
                    ActionView::ClearLine,
                    ActionView::MoveToColumn(0),
                    ActionView::Print(post.buffer_text()),
                    ActionView::MoveTo(
                        post.cursor_col(),
                        post.cursor_row(),
                    ),
                ]
            }
        },
        InputEvent::Key(KeyCode::Left) => {
            &&& post.buffer_text() == pre.buffer_text()
            &&& post.buffer_idx() == if pre.buffer_idx() > 0 {
                (pre.buffer_idx() - 1) as nat
            } else {
                0nat
            }
            &&& (post.cursor_col(), post.cursor_row()) == left_cursor(
                pre.cursor_col(),
                pre.cursor_row(),
                pre.cols(),
                pre.buffer_idx() != 0,
            )
            &&& post.cols() == pre.cols()
            &&& post.rows() == pre.rows()
            &&& post.actions() == pre.actions() + seq![
                ActionView::MoveTo(post.cursor_col(), post.cursor_row()),
            ]
        },
        InputEvent::Key(KeyCode::Right) => {
            if pre.buffer_idx() < pre.buffer_text().len() {
                &&& post.buffer_text() == pre.buffer_text()
                &&& post.buffer_idx() == pre.buffer_idx() + 1
                &&& (post.cursor_col(), post.cursor_row()) == right_cursor(
                    pre.cursor_col(),
                    pre.cursor_row(),
                    pre.cols(),
                )
                &&& post.cols() == pre.cols()
                &&& post.rows() == pre.rows()
                &&& post.actions() == pre.actions() + seq![
                    ActionView::MoveTo(
                        post.cursor_col(),
                        post.cursor_row(),
                    ),
                ]
            } else {
                post == pre
            }
        },
        InputEvent::Key(KeyCode::Char(c)) => {
            &&& post.buffer_text() == pre.buffer_text().insert(
                pre.buffer_idx() as int,
                c,
            )
            &&& post.buffer_idx() == pre.buffer_idx() + 1
            &&& (post.cursor_col(), post.cursor_row()) == right_cursor(
                pre.cursor_col(),
                pre.cursor_row(),
                pre.cols(),
            )
            &&& post.cols() == pre.cols()
            &&& post.rows() == pre.rows()
            &&& post.actions() == pre.actions() + seq![
                ActionView::Print(
                    post.buffer_text().skip(pre.buffer_idx() as int),
                ),
                ActionView::MoveTo(post.cursor_col(), post.cursor_row()),
            ]
        },
        InputEvent::Resize(x, y) => {
            &&& post.cols() == x
            &&& post.rows() == y
            &&& post.cursor_col() == pre.cursor_col()
            &&& post.cursor_row() == pre.cursor_row()
            &&& post.buffer_text() == pre.buffer_text()
            &&& post.buffer_idx() == pre.buffer_idx()
            &&& post.actions() == pre.actions()
        },
        _ => post == pre,
    }
}

} // verus!
