//! A one-row console: characters go along the top row of the VGA buffer,
//! and a newline or a full row sends the cursor back to the first column.
use vstd::prelude::*;
use vstd::string::StringSliceAdditionalSpecFns;
use crate::screen::{Screen, with_cell};

verus! {

pub const BUFFER_WIDTH: usize = 80;

/// White on black.
pub const DEFAULT_COLOR: u8 = 0x0f;

/// The abstract state of the one-row console.
pub ghost struct LineView {
    pub column: usize,
    pub color: u8,
    pub cells: Seq<u8>,
}

pub open spec fn line_wf(v: LineView) -> bool {
    v.column < 80 && v.cells.len() == 4000
}

/// The console after writing one byte: a newline returns to column 0; any
/// other byte goes at the cursor on row 0, and the cursor moves on, back to
/// column 0 at the end of the row.
pub open spec fn line_write_byte(v: LineView, byte: u8) -> LineView {
    if byte == 10 {
        LineView { column: 0, ..v }
    } else {
        LineView {
            cells: with_cell(v.cells, 0, v.column as int, byte, v.color),
            column: if v.column + 1 >= 80 {
                0
            } else {
                (v.column + 1) as usize
            },
            ..v
        }
    }
}

/// The console after writing `bytes` one after the other.
pub open spec fn line_write_bytes(v: LineView, bytes: Seq<u8>) -> LineView
    decreases bytes.len(),
{
    if bytes.len() == 0 {
        v
    } else {
        line_write_byte(line_write_bytes(v, bytes.drop_last()), bytes.last())
    }
}

/// A writer along the top row.
pub struct Writer {
    column_position: usize,
    color_code: u8,
    screen: Screen,
}

impl View for Writer {
    type V = LineView;

    closed spec fn view(&self) -> LineView {
        LineView { column: self.column_position, color: self.color_code, cells: self.screen@ }
    }
}

impl Writer {
    pub open spec fn wf(&self) -> bool {
        line_wf(self@)
    }

    /// A writer at column 0, white on black, over a zeroed screen.
    pub fn new() -> (w: Writer)
        ensures
            w.wf(),
            w@.column == 0,
            w@.color == DEFAULT_COLOR,
            forall|i: int| 0 <= i < 4000 ==> #[trigger] w@.cells[i] == 0,
    {
        Writer { column_position: 0, color_code: DEFAULT_COLOR, screen: Screen::new() }
    }

    /// A writer at column 0, white on black, over the screen as it is.
    pub fn over(screen: Screen) -> (w: Writer)
        requires
            screen.wf(),
        ensures
            w.wf(),
            w@ == (LineView { column: 0, color: DEFAULT_COLOR, cells: screen@ }),
    {
        Writer { column_position: 0, color_code: DEFAULT_COLOR, screen }
    }

    /// The screen written so far.
    pub fn screen(&self) -> (s: &Screen)
        ensures
            s@ == self@.cells,
    {
        &self.screen
    }

    /// Writes one byte.
    pub fn write_byte(&mut self, byte: u8)
        requires
            old(self).wf(),
        ensures
            final(self)@ == line_write_byte(old(self)@, byte),
            final(self).wf(),
    {
        if byte == 10 {
            self.new_line();
        } else {
            let col = self.column_position;
            self.screen.write_cell(0, col, byte, self.color_code);
            self.column_position = self.column_position + 1;
            if self.column_position >= BUFFER_WIDTH {
                self.new_line();
            }
        }
    }

    /// Writes the bytes of `s` one after the other.
    pub fn write_str(&mut self, s: &str)
        requires
            old(self).wf(),
        ensures
            final(self)@ == line_write_bytes(old(self)@, s.spec_bytes()),
            final(self).wf(),
    {
        let bytes = s.as_bytes();
        let mut i: usize = 0;
        while i < bytes.len()
            invariant
                i <= bytes@.len(),
                bytes@ == s.spec_bytes(),
                self.wf(),
                self@ == line_write_bytes(old(self)@, bytes@.subrange(0, i as int)),
            decreases bytes@.len() - i,
        {
            proof {
                assert(bytes@.subrange(0, i as int + 1).drop_last() =~= bytes@.subrange(0, i as int));
            }
            self.write_byte(bytes[i]);
            i = i + 1;
        }
        assert(bytes@.subrange(0, i as int) =~= bytes@);
    }

    /// Returns the cursor to column 0.
    fn new_line(&mut self)
        ensures
            final(self)@ == (LineView { column: 0, ..old(self)@ }),
    {
        self.column_position = 0;
    }
}

} // verus!
