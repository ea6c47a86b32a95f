//! Background-colour graphics on the VGA text buffer: every cell holds a
//! blank whose background shows one of the sixteen VGA colours.
use vstd::prelude::*;
use crate::screen::{
    Screen, char_at, color_at, on_screen, with_cell, paint, lemma_with_cell, lemma_screen_ext, lemma_paint,
};

verus! {

pub const BUFFER_WIDTH: usize = 80;
pub const BUFFER_HEIGHT: usize = 25;

/// The sixteen colours of the VGA palette.
#[derive(Clone, Copy, PartialEq, Eq, Structural, Debug)]
pub enum Color {
    Black,
    Blue,
    Green,
    Cyan,
    Red,
    Magenta,
    Brown,
    LightGray,
    DarkGray,
    LightBlue,
    LightGreen,
    LightCyan,
    LightRed,
    Pink,
    Yellow,
    White,
}

/// The palette number of a colour.
pub open spec fn color_number(c: Color) -> u8 {
    match c {
        Color::Black => 0,
        Color::Blue => 1,
        Color::Green => 2,
        Color::Cyan => 3,
        Color::Red => 4,
        Color::Magenta => 5,
        Color::Brown => 6,
        Color::LightGray => 7,
        Color::DarkGray => 8,
        Color::LightBlue => 9,
        Color::LightGreen => 10,
        Color::LightCyan => 11,
        Color::LightRed => 12,
        Color::Pink => 13,
        Color::Yellow => 14,
        Color::White => 15,
    }
}

/// The attribute byte that shows background colour number `n` behind a
/// black foreground.
pub open spec fn background(n: u8) -> u8 {
    ((n % 16) * 16) as u8
}

impl Color {
    /// The colour whose palette number is `value` modulo 16.
    pub fn from(value: u8) -> (c: Color)
        ensures
            color_number(c) == value % 16,
    {
        let n = value % 16;
        if n == 0 {
            Color::Black
        } else if n == 1 {
            Color::Blue
        } else if n == 2 {
            Color::Green
        } else if n == 3 {
            Color::Cyan
        } else if n == 4 {
            Color::Red
        } else if n == 5 {
            Color::Magenta
        } else if n == 6 {
            Color::Brown
        } else if n == 7 {
            Color::LightGray
        } else if n == 8 {
            Color::DarkGray
        } else if n == 9 {
            Color::LightBlue
        } else if n == 10 {
            Color::LightGreen
        } else if n == 11 {
            Color::LightCyan
        } else if n == 12 {
            Color::LightRed
        } else if n == 13 {
            Color::Pink
        } else if n == 14 {
            Color::Yellow
        } else {
            Color::White
        }
    }

    /// The palette number of this colour.
    pub fn value(self) -> (n: u8)
        ensures
            n == color_number(self),
    {
        match self {
            Color::Black => 0,
            Color::Blue => 1,
            Color::Green => 2,
            Color::Cyan => 3,
            Color::Red => 4,
            Color::Magenta => 5,
            Color::Brown => 6,
            Color::LightGray => 7,
            Color::DarkGray => 8,
            Color::LightBlue => 9,
            Color::LightGreen => 10,
            Color::LightCyan => 11,
            Color::LightRed => 12,
            Color::Pink => 13,
            Color::Yellow => 14,
            Color::White => 15,
        }
    }
}

/// Converting a colour's palette number back gives the colour.
pub proof fn lemma_color_number_roundtrip(c: Color, d: Color)
    ensures
        color_number(c) < 16,
        color_number(c) == color_number(d) ==> c == d,
{
}

/// The screen of vertical colour bands that `colors` draws: column `c`
/// shows colour number `c * 16 / 80`.
pub open spec fn bands() -> Seq<u8> {
    paint(|r: int, c: int| 0x20u8, |r: int, c: int| background((c * 16 / 80) as u8))
}

/// The screen that `image` draws from `data` over `s`: cell `(r, c)` shows
/// colour `data[r][c]` where the data has such an entry, and is left as it
/// was elsewhere.
pub open spec fn picture(s: Seq<u8>, data: Seq<Seq<u8>>) -> Seq<u8> {
    paint(
        |r: int, c: int|
            if r < data.len() && c < data[r].len() {
                0x20u8
            } else {
                char_at(s, r, c)
            },
        |r: int, c: int|
            if r < data.len() && c < data[r].len() {
                background(data[r][c])
            } else {
                color_at(s, r, c)
            },
    )
}

/// Every cell of the screen that has a data entry is painted: a blank on
/// the background colour `data[r][c] % 16` (the attribute byte
/// `(data[r][c] % 16) * 16`), on every row of the screen the data reaches,
/// the last included. Every other cell keeps its character and colour.
pub proof fn lemma_picture_cells(s: Seq<u8>, data: Seq<Seq<u8>>, r: int, c: int)
    requires
        0 <= r < 25,
        0 <= c < 80,
    ensures
        r < data.len() && c < data[r].len() ==> {
            &&& picture(s, data)[(r * 80 + c) * 2] == 0x20u8
            &&& picture(s, data)[(r * 80 + c) * 2 + 1] == ((data[r][c] % 16) * 16) as u8
        },
        !(r < data.len() && c < data[r].len()) ==> {
            &&& picture(s, data)[(r * 80 + c) * 2] == s[(r * 80 + c) * 2]
            &&& picture(s, data)[(r * 80 + c) * 2 + 1] == s[(r * 80 + c) * 2 + 1]
        },
{
    lemma_paint(
        |r: int, c: int|
            if r < data.len() && c < data[r].len() {
                0x20u8
            } else {
                char_at(s, r, c)
            },
        |r: int, c: int|
            if r < data.len() && c < data[r].len() {
                background(data[r][c])
            } else {
                color_at(s, r, c)
            },
        r,
        c,
    );
}

/// A painter of background colours.
pub struct Writer {
    screen: Screen,
}

impl View for Writer {
    type V = Seq<u8>;

    closed spec fn view(&self) -> Seq<u8> {
        self.screen@
    }
}

impl Writer {
    pub open spec fn wf(&self) -> bool {
        self@.len() == 4000
    }

    /// A painter over a zeroed screen.
    pub fn new() -> (w: Writer)
        ensures
            w.wf(),
            forall|i: int| 0 <= i < 4000 ==> #[trigger] w@[i] == 0,
    {
        Writer { screen: Screen::new() }
    }

    /// A painter over the screen as it is.
    pub fn over(screen: Screen) -> (w: Writer)
        requires
            screen.wf(),
        ensures
            w.wf(),
            w@ == screen@,
    {
        Writer { screen }
    }

    /// The screen painted so far.
    pub fn screen(&self) -> (s: &Screen)
        ensures
            s@ == self@,
    {
        &self.screen
    }

    /// Shows colour `color` behind a blank at column `x` of row `y`; does
    /// nothing off the screen.
    pub fn set_bg_color(&mut self, x: usize, y: usize, color: Color)
        requires
            old(self).wf(),
        ensures
            final(self).wf(),
            final(self)@ == (if x < 80 && y < 25 {
                with_cell(old(self)@, y as int, x as int, 0x20, background(color_number(color)))
            } else {
                old(self)@
            }),
    {
        if x >= BUFFER_WIDTH || y >= BUFFER_HEIGHT {
            return;
        }
        let n = color.value();
        let attr = n << 4u8;
        assert(attr == (n % 16) * 16) by (bit_vector)
            requires
                n < 16,
                attr == n << 4u8,
        ;
        self.screen.write_cell(y, x, 0x20, attr);
    }
}

/// Paints sixteen vertical bands, one per colour, across the screen.
pub fn colors() -> (w: Writer)
    ensures
        w.wf(),
        w@ == bands(),
{
    let mut writer = Writer::new();
    let mut row: usize = 0;
    while row < BUFFER_HEIGHT
        invariant
            row <= 25,
            writer.wf(),
            forall|r: int, c: int|
                on_screen(r, c) && r < row ==> #[trigger] char_at(writer@, r, c) == 0x20u8 && color_at(writer@, r, c)
                    == background((c * 16 / 80) as u8),
        decreases 25 - row,
    {
        let mut col: usize = 0;
        while col < BUFFER_WIDTH
            invariant
                row < 25,
                col <= 80,
                writer.wf(),
                forall|r: int, c: int|
                    on_screen(r, c) && (r < row || (r == row && c < col)) ==> #[trigger] char_at(writer@, r, c)
                        == 0x20u8 && color_at(writer@, r, c) == background((c * 16 / 80) as u8),
            decreases 80 - col,
        {
            let color = (col * 16 / BUFFER_WIDTH) as u8;
            let ghost before = writer@;
            writer.set_bg_color(col, row, Color::from(color));
            proof {
                lemma_with_cell(before, row as int, col as int, 0x20, background(color % 16));
                assert(color % 16 == color);
                assert forall|r: int, c: int|
                    on_screen(r, c) && (r < row || (r == row && c < col + 1)) implies #[trigger] char_at(writer@, r, c)
                        == 0x20u8 && color_at(writer@, r, c) == background((c * 16 / 80) as u8) by {
                    if r != row || c != col {
                        assert(char_at(writer@, r, c) == char_at(before, r, c));
                    }
                }
            }
            col = col + 1;
        }
        row = row + 1;
    }
    proof {
        let goal = bands();
        assert forall|r: int, c: int| on_screen(r, c) implies #[trigger] char_at(writer@, r, c) == char_at(goal, r, c)
            && color_at(writer@, r, c) == color_at(goal, r, c) by {
            lemma_paint(|r: int, c: int| 0x20u8, |r: int, c: int| background((c * 16 / 80) as u8), r, c);
        }
        lemma_screen_ext(writer@, goal);
    }
    writer
}

/// Paints a picture over `screen`: row `r` of `data` gives the colours of
/// row `r` of the screen, as far as the screen reaches; cells without data
/// stay as they were.
pub fn image(screen: Screen, data: &[Vec<u8>]) -> (w: Writer)
    requires
        screen.wf(),
    ensures
        w.wf(),
        w@ == picture(screen@, data@.map_values(|line: Vec<u8>| line@)),
{
    let ghost d = data@.map_values(|line: Vec<u8>| line@);
    let ghost s0 = screen@;
    let mut writer = Writer::over(screen);
    let max_rows = if data.len() < 25 { data.len() } else { 25 };
    let mut row: usize = 0;
    while row < max_rows
        invariant
            row <= max_rows,
            max_rows <= 25,
            max_rows == (if data@.len() < 25 { data@.len() } else { 25 }),
            d == data@.map_values(|line: Vec<u8>| line@),
            writer.wf(),
            forall|r: int, c: int|
                on_screen(r, c) ==> #[trigger] char_at(writer@, r, c) == (if r < row && c < d[r].len() {
                    0x20u8
                } else {
                    char_at(s0, r, c)
                }) && color_at(writer@, r, c) == (if r < row && c < d[r].len() {
                    background(d[r][c])
                } else {
                    color_at(s0, r, c)
                }),
        decreases max_rows - row,
    {
        let line = &data[row];
        assert(line@ == d[row as int]);
        let max_cols = if line.len() < 80 { line.len() } else { 80 };
        let mut col: usize = 0;
        while col < max_cols
            invariant
                row < max_rows,
                max_rows <= 25,
                max_rows == (if data@.len() < 25 { data@.len() } else { 25 }),
                col <= max_cols,
                max_cols == (if line@.len() < 80 { line@.len() } else { 80 }),
                line@ == d[row as int],
                d == data@.map_values(|line: Vec<u8>| line@),
                writer.wf(),
                forall|r: int, c: int|
                    on_screen(r, c) ==> #[trigger] char_at(writer@, r, c) == (if (r < row || (r == row && c < col))
                        && c < d[r].len() {
                        0x20u8
                    } else {
                        char_at(s0, r, c)
                    }) && color_at(writer@, r, c) == (if (r < row || (r == row && c < col)) && c < d[r].len() {
                        background(d[r][c])
                    } else {
                        color_at(s0, r, c)
                    }),
            decreases max_cols - col,
        {
            let value = line[col];
            let ghost before = writer@;
            writer.set_bg_color(col, row, Color::from(value));
            proof {
                lemma_with_cell(before, row as int, col as int, 0x20, background(value % 16));
                assert(background(value % 16) == background(value));
                assert forall|r: int, c: int| on_screen(r, c) implies #[trigger] char_at(writer@, r, c) == (if (r < row
                    || (r == row && c < col + 1)) && c < d[r].len() {
                    0x20u8
                } else {
                    char_at(s0, r, c)
                }) && color_at(writer@, r, c) == (if (r < row || (r == row && c < col + 1)) && c < d[r].len() {
                    background(d[r][c])
                } else {
                    color_at(s0, r, c)
                }) by {
                    if r != row || c != col {
                        assert(char_at(writer@, r, c) == char_at(before, r, c));
                    }
                }
            }
            col = col + 1;
        }
        row = row + 1;
    }
    proof {
        assert(d.len() == data@.len());
        let goal = picture(s0, d);
        assert forall|r: int, c: int| on_screen(r, c) implies #[trigger] char_at(writer@, r, c) == char_at(goal, r, c)
            && color_at(writer@, r, c) == color_at(goal, r, c) by {
            lemma_paint(
                |r: int, c: int|
                    if r < d.len() && c < d[r].len() {
                        0x20u8
                    } else {
                        char_at(s0, r, c)
                    },
                |r: int, c: int|
                    if r < d.len() && c < d[r].len() {
                        background(d[r][c])
                    } else {
                        color_at(s0, r, c)
                    },
                r,
                c,
            );
            assert(r < row <==> r < d.len());
        }
        lemma_screen_ext(writer@, goal);
    }
    writer
}

} // verus!
