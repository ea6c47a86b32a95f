//! The VGA text buffer: 25 rows of 80 cells, each cell a character byte
//! followed by an attribute (colour) byte.
use vstd::prelude::*;

verus! {

/// Number of columns of the text screen.
pub const BUFFER_WIDTH: usize = 80;
/// Number of rows of the text screen.
pub const BUFFER_HEIGHT: usize = 25;
/// Number of bytes of the text buffer (two per cell).
pub const SCREEN_BYTES: usize = 4000;

/// Offset of the character byte of the cell at `(row, col)`.
pub open spec fn cell_offset(row: int, col: int) -> int {
    (row * 80 + col) * 2
}

/// Whether `(row, col)` names a cell of the screen.
pub open spec fn on_screen(row: int, col: int) -> bool {
    0 <= row < 25 && 0 <= col < 80
}

/// The character byte shown at `(row, col)` of a buffer.
pub open spec fn char_at(s: Seq<u8>, row: int, col: int) -> u8 {
    s[cell_offset(row, col)]
}

/// The attribute byte of the cell at `(row, col)` of a buffer.
pub open spec fn color_at(s: Seq<u8>, row: int, col: int) -> u8 {
    s[cell_offset(row, col) + 1]
}

/// A buffer with the cell at `(row, col)` set to `ch` in colour `color`.
pub open spec fn with_cell(s: Seq<u8>, row: int, col: int, ch: u8, color: u8) -> Seq<u8> {
    s.update(cell_offset(row, col), ch).update(cell_offset(row, col) + 1, color)
}

/// Two distinct cells never share a byte.
pub proof fn lemma_cells_disjoint(r1: int, c1: int, r2: int, c2: int)
    requires
        on_screen(r1, c1),
        on_screen(r2, c2),
        r1 != r2 || c1 != c2,
    ensures
        cell_offset(r1, c1) != cell_offset(r2, c2),
        cell_offset(r1, c1) != cell_offset(r2, c2) + 1,
        cell_offset(r1, c1) + 1 != cell_offset(r2, c2),
{
}

/// Every cell lies inside the buffer.
pub proof fn lemma_cell_in_buffer(row: int, col: int)
    requires
        on_screen(row, col),
    ensures
        0 <= cell_offset(row, col),
        cell_offset(row, col) + 1 < 4000,
{
}

/// A cell written anywhere in the buffer reads back as written; cells are
/// numbered row by row, so a column past the last lands on a later row.
pub proof fn lemma_write_then_read(s: Seq<u8>, row: int, col: int, ch: u8, color: u8)
    requires
        s.len() == 4000,
        0 <= row,
        0 <= col,
        row * 80 + col < 2000,
    ensures
        char_at(with_cell(s, row, col, ch, color), row, col) == ch,
        color_at(with_cell(s, row, col, ch, color), row, col) == color,
        with_cell(s, row, col, ch, color).len() == 4000,
        forall|i: int|
            0 <= i < 4000 && i != cell_offset(row, col) && i != cell_offset(row, col) + 1 ==> #[trigger] with_cell(
                s,
                row,
                col,
                ch,
                color,
            )[i] == s[i],
{
}

/// The cell `(r, c)` after writing the cell `(row, col)`.
pub proof fn lemma_with_cell_at(s: Seq<u8>, row: int, col: int, ch: u8, color: u8, r: int, c: int)
    requires
        s.len() == 4000,
        on_screen(row, col),
        on_screen(r, c),
    ensures
        char_at(with_cell(s, row, col, ch, color), r, c) == (if r == row && c == col {
            ch
        } else {
            char_at(s, r, c)
        }),
        color_at(with_cell(s, row, col, ch, color), r, c) == (if r == row && c == col {
            color
        } else {
            color_at(s, r, c)
        }),
{
    if r != row || c != col {
        lemma_cells_disjoint(r, c, row, col);
        lemma_cells_disjoint(row, col, r, c);
    }
}

/// Writing one cell leaves every other cell as it was.
pub proof fn lemma_with_cell(s: Seq<u8>, row: int, col: int, ch: u8, color: u8)
    requires
        s.len() == 4000,
        on_screen(row, col),
    ensures
        with_cell(s, row, col, ch, color).len() == 4000,
        char_at(with_cell(s, row, col, ch, color), row, col) == ch,
        color_at(with_cell(s, row, col, ch, color), row, col) == color,
        forall|r: int, c: int|
            on_screen(r, c) && (r != row || c != col) ==> {
                &&& #[trigger] char_at(with_cell(s, row, col, ch, color), r, c) == char_at(s, r, c)
                &&& color_at(with_cell(s, row, col, ch, color), r, c) == color_at(s, r, c)
            },
{
    assert forall|r: int, c: int| on_screen(r, c) && (r != row || c != col) implies {
        &&& #[trigger] char_at(with_cell(s, row, col, ch, color), r, c) == char_at(s, r, c)
        &&& color_at(with_cell(s, row, col, ch, color), r, c) == color_at(s, r, c)
    } by {
        lemma_cells_disjoint(r, c, row, col);
        lemma_cells_disjoint(row, col, r, c);
    }
}

/// The buffer whose cell `(r, c)` holds character `chars(r, c)` in colour `colors(r, c)`.
pub open spec fn paint(chars: spec_fn(int, int) -> u8, colors: spec_fn(int, int) -> u8) -> Seq<u8> {
    Seq::new(
        4000,
        |i: int|
            if i % 2 == 0 {
                chars(i / 160, (i % 160) / 2)
            } else {
                colors(i / 160, (i % 160) / 2)
            },
    )
}

/// The buffer `s` with `text` written on row `row` from column `col` on, in colour `color`.
pub open spec fn with_text(s: Seq<u8>, row: int, col: int, text: Seq<u8>, color: u8) -> Seq<u8> {
    paint(
        |r: int, c: int|
            if r == row && col <= c < col + text.len() {
                text[c - col]
            } else {
                char_at(s, r, c)
            },
        |r: int, c: int|
            if r == row && col <= c < col + text.len() {
                color
            } else {
                color_at(s, r, c)
            },
    )
}

/// The buffer `s` with `text` written cell after cell from cell number
/// `start` on (cells are numbered row by row), in colour `color`.
pub open spec fn with_run(s: Seq<u8>, start: int, text: Seq<u8>, color: u8) -> Seq<u8> {
    Seq::new(
        s.len(),
        |i: int|
            if 2 * start <= i < 2 * (start + text.len()) {
                if (i - 2 * start) % 2 == 0 {
                    text[(i - 2 * start) / 2]
                } else {
                    color
                }
            } else {
                s[i]
            },
    )
}

/// The buffer with every cell set to `ch` in colour `color`.
pub open spec fn filled(ch: u8, color: u8) -> Seq<u8> {
    paint(|r: int, c: int| ch, |r: int, c: int| color)
}

/// Each byte of the buffer belongs to exactly one cell.
pub proof fn lemma_offset_cell(i: int)
    requires
        0 <= i < 4000,
    ensures
        on_screen(i / 160, (i % 160) / 2),
        i % 2 == 0 ==> i == cell_offset(i / 160, (i % 160) / 2),
        i % 2 != 0 ==> i == cell_offset(i / 160, (i % 160) / 2) + 1,
{
}

/// The cell `(row, col)` of a painted buffer is what the painting says.
pub proof fn lemma_paint(chars: spec_fn(int, int) -> u8, colors: spec_fn(int, int) -> u8, row: int, col: int)
    requires
        on_screen(row, col),
    ensures
        char_at(paint(chars, colors), row, col) == chars(row, col),
        color_at(paint(chars, colors), row, col) == colors(row, col),
{
    let o = cell_offset(row, col);
    assert(o / 160 == row && (o % 160) / 2 == col && o % 2 == 0);
    assert((o + 1) / 160 == row && ((o + 1) % 160) / 2 == col && (o + 1) % 2 == 1);
}

/// The cell `(r, c)` of a buffer with text written on it.
pub proof fn reveal_paint_text(s: Seq<u8>, row: int, col: int, text: Seq<u8>, color: u8, r: int, c: int)
    requires
        on_screen(r, c),
    ensures
        char_at(with_text(s, row, col, text, color), r, c) == (if r == row && col <= c < col + text.len() {
            text[c - col]
        } else {
            char_at(s, r, c)
        }),
        color_at(with_text(s, row, col, text, color), r, c) == (if r == row && col <= c < col + text.len() {
            color
        } else {
            color_at(s, r, c)
        }),
{
    lemma_paint(
        |r: int, c: int|
            if r == row && col <= c < col + text.len() {
                text[c - col]
            } else {
                char_at(s, r, c)
            },
        |r: int, c: int|
            if r == row && col <= c < col + text.len() {
                color
            } else {
                color_at(s, r, c)
            },
        r,
        c,
    );
}

/// Two buffers that agree on every cell are equal.
pub proof fn lemma_screen_ext(a: Seq<u8>, b: Seq<u8>)
    requires
        a.len() == 4000,
        b.len() == 4000,
        forall|r: int, c: int|
            on_screen(r, c) ==> #[trigger] char_at(a, r, c) == char_at(b, r, c) && color_at(a, r, c)
                == color_at(b, r, c),
    ensures
        a == b,
{
    assert forall|i: int| 0 <= i < 4000 implies a[i] == b[i] by {
        lemma_offset_cell(i);
        let r = i / 160;
        let c = (i % 160) / 2;
        assert(char_at(a, r, c) == char_at(b, r, c));
    }
    assert(a =~= b);
}

/// The text buffer as plain bytes, in the layout of VGA memory.
pub struct Screen {
    bytes: Vec<u8>,
}

impl View for Screen {
    type V = Seq<u8>;

    closed spec fn view(&self) -> Seq<u8> {
        self.bytes@
    }
}

impl Screen {
    /// Well-formed: exactly one character byte and one colour byte per cell.
    pub open spec fn wf(&self) -> bool {
        self@.len() == 4000
    }

    /// A buffer whose every byte is zero, as freshly cleared memory.
    pub fn new() -> (s: Screen)
        ensures
            s.wf(),
            forall|i: int| 0 <= i < 4000 ==> #[trigger] s@[i] == 0,
    {
        let mut bytes: Vec<u8> = Vec::new();
        let mut i: usize = 0;
        while i < SCREEN_BYTES
            invariant
                i <= 4000,
                bytes@.len() == i,
                forall|j: int| 0 <= j < i ==> #[trigger] bytes@[j] == 0,
            decreases 4000 - i,
        {
            bytes.push(0);
            i = i + 1;
        }
        Screen { bytes }
    }

    /// Sets the cell at `(row, col)` to character `ch` shown in colour `color`.
    pub fn write_cell(&mut self, row: usize, col: usize, ch: u8, color: u8)
        requires
            old(self).wf(),
            row * 80 + col < 2000,
        ensures
            final(self)@ == with_cell(old(self)@, row as int, col as int, ch, color),
            final(self).wf(),
    {
        let offset = (row * BUFFER_WIDTH + col) * 2;
        self.bytes.set(offset, ch);
        self.bytes.set(offset + 1, color);
    }

    /// The buffer holding `bytes`, if they are exactly one buffer's worth.
    pub fn from_bytes(bytes: Vec<u8>) -> (s: Option<Screen>)
        ensures
            bytes@.len() == 4000 <==> s is Some,
            s matches Some(scr) ==> scr@ == bytes@ && scr.wf(),
    {
        if bytes.len() == SCREEN_BYTES {
            Some(Screen { bytes })
        } else {
            None
        }
    }

    /// Sets every cell to character `ch` in colour `color`.
    pub fn fill(&mut self, ch: u8, color: u8)
        requires
            old(self).wf(),
        ensures
            final(self)@ == filled(ch, color),
            final(self).wf(),
    {
        let mut i: usize = 0;
        while i < SCREEN_BYTES
            invariant
                i <= 4000,
                self.bytes@.len() == 4000,
                forall|j: int| 0 <= j < i ==> #[trigger] self.bytes@[j] == (if j % 2 == 0 { ch } else { color }),
            decreases 4000 - i,
        {
            if i % 2 == 0 {
                self.bytes.set(i, ch);
            } else {
                self.bytes.set(i, color);
            }
            i = i + 1;
        }
        assert(self.bytes@ =~= filled(ch, color));
    }

    /// Writes `text` on row `row` from column `col` on, each character in colour `color`.
    pub fn write_text(&mut self, row: usize, col: usize, text: &[u8], color: u8)
        requires
            old(self).wf(),
            row < 25,
            col + text@.len() <= 80,
        ensures
            final(self)@ == with_text(old(self)@, row as int, col as int, text@, color),
            final(self).wf(),
    {
        let ghost s0 = self@;
        let mut i: usize = 0;
        proof {
            assert forall|r: int, c: int| on_screen(r, c) implies #[trigger] char_at(s0, r, c) == char_at(
                with_text(s0, row as int, col as int, text@.subrange(0, 0), color), r, c) && color_at(s0, r, c)
                == color_at(with_text(s0, row as int, col as int, text@.subrange(0, 0), color), r, c) by {
                reveal_paint_text(s0, row as int, col as int, text@.subrange(0, 0), color, r, c);
            }
            lemma_screen_ext(s0, with_text(s0, row as int, col as int, text@.subrange(0, 0), color));
        }
        while i < text.len()
            invariant
                i <= text@.len(),
                row < 25,
                col + text@.len() <= 80,
                self.wf(),
                self@ == with_text(s0, row as int, col as int, text@.subrange(0, i as int), color),
                s0.len() == 4000,
            decreases text@.len() - i,
        {
            let ghost before = self@;
            self.write_cell(row, col + i, text[i], color);
            proof {
                let t1 = text@.subrange(0, i as int + 1);
                let t0 = text@.subrange(0, i as int);
                let goal = with_text(s0, row as int, col as int, t1, color);
                lemma_with_cell(before, row as int, (col + i) as int, text@[i as int], color);
                assert forall|r: int, c: int| on_screen(r, c) implies #[trigger] char_at(self@, r, c) == char_at(goal, r, c)
                    && color_at(self@, r, c) == color_at(goal, r, c) by {
                    reveal_paint_text(s0, row as int, col as int, t1, color, r, c);
                    reveal_paint_text(s0, row as int, col as int, t0, color, r, c);
                }
                lemma_screen_ext(self@, goal);
            }
            i = i + 1;
        }
        assert(text@.subrange(0, text@.len() as int) =~= text@);
    }

    /// Writes `text` cell after cell from cell number `start` on, each
    /// character in colour `color`; a text longer than the rest of a row goes
    /// on at the start of the next.
    pub fn write_run(&mut self, start: usize, text: &[u8], color: u8)
        requires
            old(self).wf(),
            start + text@.len() <= 2000,
        ensures
            final(self)@ == with_run(old(self)@, start as int, text@, color),
            final(self).wf(),
    {
        let mut i: usize = 0;
        while i < text.len()
            invariant
                i <= text@.len(),
                start + text@.len() <= 2000,
                self.wf(),
                self@ == with_run(old(self)@, start as int, text@.subrange(0, i as int), color),
            decreases text@.len() - i,
        {
            let ghost before = self@;
            self.write_cell(0, start + i, text[i], color);
            assert(self@ =~= with_run(old(self)@, start as int, text@.subrange(0, i as int + 1), color));
            i = i + 1;
        }
        assert(text@.subrange(0, i as int) =~= text@);
    }

    /// The character byte at `(row, col)`.
    pub fn read_char(&self, row: usize, col: usize) -> (ch: u8)
        requires
            self.wf(),
            row * 80 + col < 2000,
        ensures
            ch == char_at(self@, row as int, col as int),
    {
        self.bytes[(row * BUFFER_WIDTH + col) * 2]
    }

    /// The colour byte at `(row, col)`.
    pub fn read_color(&self, row: usize, col: usize) -> (color: u8)
        requires
            self.wf(),
            row * 80 + col < 2000,
        ensures
            color == color_at(self@, row as int, col as int),
    {
        self.bytes[(row * BUFFER_WIDTH + col) * 2 + 1]
    }

    /// The raw bytes, to be copied into VGA memory.
    pub fn as_bytes(&self) -> (b: &Vec<u8>)
        ensures
            b@ == self@,
    {
        &self.bytes
    }
}

} // verus!
