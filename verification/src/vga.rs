//! A text console on the VGA buffer: characters go at the cursor, a newline
//! or a full line moves to the next row, and past the last row the screen
//! scrolls up by one row, colours and all.
use vstd::prelude::*;
use vstd::string::StringSliceAdditionalSpecFns;
use crate::screen::{
    Screen, char_at, color_at, on_screen, with_cell, with_text, paint, lemma_with_cell, lemma_screen_ext, lemma_paint,
};

verus! {

pub const BUFFER_WIDTH: usize = 80;
pub const BUFFER_HEIGHT: usize = 25;

/// White on black.
pub const DEFAULT_COLOR: u8 = 0x0f;

/// The abstract state of a console: cursor, colour and buffer.
pub ghost struct ConsoleView {
    pub column: usize,
    pub row: usize,
    pub color: u8,
    pub cells: Seq<u8>,
}

/// The cursor lies on the screen (the column may sit just past the last
/// cell of its row) and the buffer has every cell.
pub open spec fn console_wf(v: ConsoleView) -> bool {
    v.row < 25 && v.column <= 80 && v.cells.len() == 4000
}

/// The buffer moved up by one row, with a blank bottom row in `color`.
pub open spec fn scrolled(s: Seq<u8>, color: u8) -> Seq<u8> {
    paint(
        |r: int, c: int|
            if r < 24 {
                char_at(s, r + 1, c)
            } else {
                0x20u8
            },
        |r: int, c: int|
            if r < 24 {
                color_at(s, r + 1, c)
            } else {
                color
            },
    )
}

/// The console after a line break: the next row, or the same last row of a
/// scrolled screen, at column 0.
pub open spec fn new_line_spec(v: ConsoleView) -> ConsoleView {
    if v.row < 24 {
        ConsoleView { row: (v.row + 1) as usize, column: 0, ..v }
    } else {
        ConsoleView { cells: scrolled(v.cells, v.color), column: 0, ..v }
    }
}

/// The console after writing one byte: a newline breaks the line; any other
/// byte breaks a full line first, then goes at the cursor, which moves on.
pub open spec fn write_byte_spec(v: ConsoleView, byte: u8) -> ConsoleView {
    if byte == 10 {
        new_line_spec(v)
    } else {
        let w = if v.column >= 80 {
            new_line_spec(v)
        } else {
            v
        };
        ConsoleView {
            cells: with_cell(w.cells, w.row as int, w.column as int, byte, w.color),
            column: (w.column + 1) as usize,
            ..w
        }
    }
}

/// The console after writing `bytes` one after the other.
pub open spec fn write_bytes_spec(v: ConsoleView, bytes: Seq<u8>) -> ConsoleView
    decreases bytes.len(),
{
    if bytes.len() == 0 {
        v
    } else {
        write_byte_spec(write_bytes_spec(v, bytes.drop_last()), bytes.last())
    }
}

/// The cell `(r, c)` after scrolling.
pub proof fn lemma_scrolled(s: Seq<u8>, color: u8, r: int, c: int)
    requires
        on_screen(r, c),
    ensures
        char_at(scrolled(s, color), r, c) == (if r < 24 {
            char_at(s, r + 1, c)
        } else {
            0x20u8
        }),
        color_at(scrolled(s, color), r, c) == (if r < 24 {
            color_at(s, r + 1, c)
        } else {
            color
        }),
{
    lemma_paint(
        |r: int, c: int|
            if r < 24 {
                char_at(s, r + 1, c)
            } else {
                0x20u8
            },
        |r: int, c: int|
            if r < 24 {
                color_at(s, r + 1, c)
            } else {
                color
            },
        r,
        c,
    );
}

/// Writing `a` and then `b` is writing `a + b`.
pub proof fn lemma_write_concat(v: ConsoleView, a: Seq<u8>, b: Seq<u8>)
    ensures
        write_bytes_spec(v, a + b) == write_bytes_spec(write_bytes_spec(v, a), b),
    decreases b.len(),
{
    if b.len() == 0 {
        assert(a + b =~= a);
    } else {
        assert((a + b).drop_last() =~= a + b.drop_last());
        assert((a + b).last() == b.last());
        lemma_write_concat(v, a, b.drop_last());
    }
}

/// Writing keeps the console well formed.
pub proof fn lemma_write_keeps_wf(v: ConsoleView, bytes: Seq<u8>)
    requires
        console_wf(v),
    ensures
        console_wf(write_bytes_spec(v, bytes)),
    decreases bytes.len(),
{
    if bytes.len() > 0 {
        lemma_write_keeps_wf(v, bytes.drop_last());
        let w = write_bytes_spec(v, bytes.drop_last());
        let b = bytes.last();
        if b != 10 {
            let x = if w.column >= 80 { new_line_spec(w) } else { w };
            lemma_with_cell(x.cells, x.row as int, x.column as int, b, x.color);
        }
    }
}

/// A byte written past the end of a row lands where a newline followed by
/// that byte would put it.
pub proof fn lemma_wrap_is_new_line(v: ConsoleView, b: u8)
    requires
        b != 10,
        v.column >= 80,
    ensures
        write_byte_spec(v, b) == write_byte_spec(write_byte_spec(v, 10), b),
{
}

/// A line break on the last row scrolls: every row moves up by one with
/// its characters and colours, the bottom row becomes blank in the
/// writer's colour, and the cursor goes to column 0 of the last row. A
/// line break on any other row moves the cursor down and keeps the screen.
pub proof fn lemma_line_break(v: ConsoleView)
    requires
        console_wf(v),
    ensures
        v.row == 24 ==> {
            let w = write_byte_spec(v, 10);
            &&& w.row == 24 && w.column == 0 && w.color == v.color
            &&& forall|r: int, c: int|
                0 <= r < 24 && 0 <= c < 80 ==> #[trigger] w.cells[(r * 80 + c) * 2] == v.cells[((r + 1) * 80 + c) * 2]
                    && w.cells[(r * 80 + c) * 2 + 1] == v.cells[((r + 1) * 80 + c) * 2 + 1]
            &&& forall|c: int| 0 <= c < 80 ==> #[trigger] w.cells[(24 * 80 + c) * 2] == 0x20u8 && w.cells[(24 * 80 + c) * 2 + 1] == v.color
        },
        v.row < 24 ==> write_byte_spec(v, 10) == (ConsoleView { row: (v.row + 1) as usize, column: 0, ..v }),
{
    if v.row == 24 {
        let w = write_byte_spec(v, 10);
        assert forall|r: int, c: int| 0 <= r < 24 && 0 <= c < 80 implies #[trigger] w.cells[(r * 80 + c) * 2]
            == v.cells[((r + 1) * 80 + c) * 2] && w.cells[(r * 80 + c) * 2 + 1] == v.cells[((r + 1) * 80 + c) * 2 + 1] by {
            lemma_scrolled(v.cells, v.color, r, c);
        }
        assert forall|c: int| 0 <= c < 80 implies #[trigger] w.cells[(24 * 80 + c) * 2] == 0x20u8 && w.cells[(24 * 80 + c) * 2 + 1]
            == v.color by {
            lemma_scrolled(v.cells, v.color, 24, c);
        }
    }
}

/// A full last row wraps by scrolling: the byte written after it lands at
/// the start of the new bottom row and the full row moves up intact.
pub proof fn lemma_full_last_row_scrolls(v: ConsoleView, b: u8)
    requires
        console_wf(v),
        v.row == 24,
        v.column >= 80,
        b != 10,
    ensures
        ({
            let w = write_byte_spec(v, b);
            &&& w.row == 24 && w.column == 1
            &&& w.cells[3840int] == b
            &&& forall|c: int| 0 <= c < 80 ==> #[trigger] w.cells[(23 * 80 + c) * 2] == v.cells[(24 * 80 + c) * 2]
            &&& forall|c: int| 1 <= c < 80 ==> #[trigger] w.cells[(24 * 80 + c) * 2] == 0x20u8
        }),
{
    let x = write_byte_spec(v, 10);
    lemma_line_break(v);
    lemma_wrap_is_new_line(v, b);
    lemma_with_cell(x.cells, 24, 0, b, x.color);
    let w = write_byte_spec(v, b);
    assert forall|c: int| 0 <= c < 80 implies #[trigger] w.cells[(23 * 80 + c) * 2] == v.cells[(24 * 80 + c) * 2] by {
        assert(x.cells[(23 * 80 + c) * 2] == v.cells[((23 + 1) * 80 + c) * 2]);
        assert(char_at(w.cells, 23, c) == char_at(x.cells, 23, c));
    }
    assert forall|c: int| 1 <= c < 80 implies #[trigger] w.cells[(24 * 80 + c) * 2] == 0x20u8 by {
        assert(x.cells[(24 * 80 + c) * 2] == 0x20u8);
        assert(char_at(w.cells, 24, c) == char_at(x.cells, 24, c));
    }
}

/// A text writer with its cursor, colour and screen.
pub struct Writer {
    column_position: usize,
    row_position: usize,
    color_code: u8,
    screen: Screen,
}

impl View for Writer {
    type V = ConsoleView;

    closed spec fn view(&self) -> ConsoleView {
        ConsoleView {
            column: self.column_position,
            row: self.row_position,
            color: self.color_code,
            cells: self.screen@,
        }
    }
}

impl Writer {
    pub open spec fn wf(&self) -> bool {
        console_wf(self@)
    }

    /// A writer at the top left, white on black, over a zeroed screen.
    pub fn new() -> (w: Writer)
        ensures
            w.wf(),
            w@.column == 0,
            w@.row == 0,
            w@.color == DEFAULT_COLOR,
            forall|i: int| 0 <= i < 4000 ==> #[trigger] w@.cells[i] == 0,
    {
        Writer { column_position: 0, row_position: 0, color_code: DEFAULT_COLOR, screen: Screen::new() }
    }

    /// A writer at the top left, white on black, over the screen as it is.
    pub fn over(screen: Screen) -> (w: Writer)
        requires
            screen.wf(),
        ensures
            w.wf(),
            w@ == (ConsoleView { column: 0, row: 0, color: DEFAULT_COLOR, cells: screen@ }),
    {
        Writer { column_position: 0, row_position: 0, color_code: DEFAULT_COLOR, screen }
    }

    /// The screen written so far.
    pub fn screen(&self) -> (s: &Screen)
        ensures
            s@ == self@.cells,
    {
        &self.screen
    }

    /// Writes one byte: a newline breaks the line, anything else is shown at
    /// the cursor in the writer's colour.
    pub fn write_byte(&mut self, byte: u8)
        requires
            old(self).wf(),
        ensures
            final(self)@ == write_byte_spec(old(self)@, byte),
            final(self).wf(),
    {
        if byte == 10 {
            self.new_line();
        } else {
            if self.column_position >= BUFFER_WIDTH {
                self.new_line();
            }
            let row = self.row_position;
            let col = self.column_position;
            self.screen.write_cell(row, col, byte, self.color_code);
            self.column_position = self.column_position + 1;
        }
    }

    /// The row the cursor is on.
    pub fn row(&self) -> (r: usize)
        ensures
            r == self@.row,
    {
        self.row_position
    }

    /// Shows `text` on row `row` from column `col` on in the writer's
    /// colour, over what is there; the cursor stays where it is.
    pub fn write_at(&mut self, row: usize, col: usize, text: &[u8])
        requires
            old(self).wf(),
            row < 25,
            col + text@.len() <= 80,
        ensures
            final(self)@ == (ConsoleView {
                cells: with_text(old(self)@.cells, row as int, col as int, text@, old(self)@.color),
                ..old(self)@
            }),
            final(self).wf(),
    {
        let color = self.color_code;
        self.screen.write_text(row, col, text, color);
    }

    /// Writes the bytes of `s` one after the other.
    pub fn write_str(&mut self, s: &str)
        requires
            old(self).wf(),
        ensures
            final(self)@ == write_bytes_spec(old(self)@, s.spec_bytes()),
            final(self).wf(),
    {
        let bytes = s.as_bytes();
        let mut i: usize = 0;
        while i < bytes.len()
            invariant
                i <= bytes@.len(),
                bytes@ == s.spec_bytes(),
                self.wf(),
                self@ == write_bytes_spec(old(self)@, bytes@.subrange(0, i as int)),
            decreases bytes@.len() - i,
        {
            proof {
                assert(bytes@.subrange(0, i as int + 1).drop_last() =~= bytes@.subrange(0, i as int));
            }
            self.write_byte(bytes[i]);
            i = i + 1;
        }
        assert(bytes@.subrange(0, i as int) =~= bytes@);
    }

    /// Moves to the next row, scrolling the screen up when on the last row.
    fn new_line(&mut self)
        requires
            old(self).wf(),
        ensures
            final(self)@ == new_line_spec(old(self)@),
            final(self).wf(),
    {
        if self.row_position < BUFFER_HEIGHT - 1 {
            self.row_position = self.row_position + 1;
        } else {
            let ghost s0 = self.screen@;
            let mut y: usize = 1;
            while y < BUFFER_HEIGHT
                invariant
                    1 <= y <= 25,
                    self.screen.wf(),
                    s0.len() == 4000,
                    self@ == (ConsoleView { cells: self.screen@, ..old(self)@ }),
                    forall|r: int, c: int|
                        on_screen(r, c) ==> {
                            &&& #[trigger] char_at(self.screen@, r, c) == (if r < y - 1 {
                                char_at(s0, r + 1, c)
                            } else {
                                char_at(s0, r, c)
                            })
                            &&& color_at(self.screen@, r, c) == (if r < y - 1 {
                                color_at(s0, r + 1, c)
                            } else {
                                color_at(s0, r, c)
                            })
                        },
                decreases 25 - y,
            {
                let mut x: usize = 0;
                while x < BUFFER_WIDTH
                    invariant
                        1 <= y < 25,
                        x <= 80,
                        self.screen.wf(),
                        s0.len() == 4000,
                        self@ == (ConsoleView { cells: self.screen@, ..old(self)@ }),
                        forall|r: int, c: int|
                            on_screen(r, c) ==> {
                                &&& #[trigger] char_at(self.screen@, r, c) == (if r < y - 1 || (r == y - 1
                                    && c < x) {
                                    char_at(s0, r + 1, c)
                                } else {
                                    char_at(s0, r, c)
                                })
                                &&& color_at(self.screen@, r, c) == (if r < y - 1 || (r == y - 1 && c < x) {
                                    color_at(s0, r + 1, c)
                                } else {
                                    color_at(s0, r, c)
                                })
                            },
                    decreases 80 - x,
                {
                    let ch = self.screen.read_char(y, x);
                    let color = self.screen.read_color(y, x);
                    let ghost before = self.screen@;
                    self.screen.write_cell(y - 1, x, ch, color);
                    proof {
                        lemma_with_cell(before, y - 1, x as int, ch, color);
                        assert forall|r: int, c: int| on_screen(r, c) implies {
                            &&& #[trigger] char_at(self.screen@, r, c) == (if r < y - 1 || (r == y - 1 && c
                                < x + 1) {
                                char_at(s0, r + 1, c)
                            } else {
                                char_at(s0, r, c)
                            })
                            &&& color_at(self.screen@, r, c) == (if r < y - 1 || (r == y - 1 && c < x + 1) {
                                color_at(s0, r + 1, c)
                            } else {
                                color_at(s0, r, c)
                            })
                        } by {
                            if r != y - 1 || c != x {
                                assert(char_at(self.screen@, r, c) == char_at(before, r, c));
                                assert(color_at(self.screen@, r, c) == color_at(before, r, c));
                            } else {
                                assert(char_at(before, y as int, x as int) == char_at(s0, y as int, x as int));
                                assert(color_at(before, y as int, x as int) == color_at(s0, y as int, x as int));
                            }
                        }
                    }
                    x = x + 1;
                }
                y = y + 1;
            }
            self.clear_row(BUFFER_HEIGHT - 1);
            proof {
                let goal = scrolled(s0, self.color_code);
                assert forall|r: int, c: int| on_screen(r, c) implies #[trigger] char_at(self.screen@, r, c)
                    == char_at(goal, r, c) && color_at(self.screen@, r, c) == color_at(goal, r, c) by {
                    lemma_scrolled(s0, self.color_code, r, c);
                }
                lemma_screen_ext(self.screen@, goal);
            }
        }
        self.column_position = 0;
    }

    /// Blanks row `row` in the writer's colour.
    fn clear_row(&mut self, row: usize)
        requires
            old(self).wf(),
            row < 25,
        ensures
            final(self)@ == (ConsoleView { cells: final(self)@.cells, ..old(self)@ }),
            final(self).wf(),
            forall|r: int, c: int|
                on_screen(r, c) ==> {
                    &&& #[trigger] char_at(final(self)@.cells, r, c) == (if r == row {
                        0x20u8
                    } else {
                        char_at(old(self)@.cells, r, c)
                    })
                    &&& color_at(final(self)@.cells, r, c) == (if r == row {
                        old(self)@.color
                    } else {
                        color_at(old(self)@.cells, r, c)
                    })
                },
    {
        let mut x: usize = 0;
        while x < BUFFER_WIDTH
            invariant
                x <= 80,
                row < 25,
                self.screen.wf(),
                self@ == (ConsoleView { cells: self.screen@, ..old(self)@ }),
                forall|r: int, c: int|
                    on_screen(r, c) ==> {
                        &&& #[trigger] char_at(self.screen@, r, c) == (if r == row && c < x {
                            0x20u8
                        } else {
                            char_at(old(self)@.cells, r, c)
                        })
                        &&& color_at(self.screen@, r, c) == (if r == row && c < x {
                            old(self)@.color
                        } else {
                            color_at(old(self)@.cells, r, c)
                        })
                    },
            decreases 80 - x,
        {
            let blank: u8 = 0x20;
            let ghost before = self.screen@;
            let color = self.color_code;
            assert(color == old(self)@.color);
            self.screen.write_cell(row, x, blank, color);
            proof {
                lemma_with_cell(before, row as int, x as int, blank, color);
                assert forall|r: int, c: int| on_screen(r, c) implies {
                    &&& #[trigger] char_at(self.screen@, r, c) == (if r == row && c < x + 1 {
                        0x20u8
                    } else {
                        char_at(old(self)@.cells, r, c)
                    })
                    &&& color_at(self.screen@, r, c) == (if r == row && c < x + 1 {
                        old(self)@.color
                    } else {
                        color_at(old(self)@.cells, r, c)
                    })
                } by {
                    if r != row || c != x {
                        assert(char_at(self.screen@, r, c) == char_at(before, r, c));
                        assert(color_at(self.screen@, r, c) == color_at(before, r, c));
                    } else {
                        assert(char_at(self.screen@, r, c) == 0x20u8);
                        assert(color_at(self.screen@, r, c) == color);
                    }
                }
            }
            x = x + 1;
        }
    }
}

} // verus!
