//! A wall clock set from the keyboard: six digits HHMMSS are typed, then
//! the timer ticks (about 18 per second) advance the time shown.
use vstd::prelude::*;
use crate::keyboard::{Key, KeyDecoder, decoded_char};
use crate::screen::with_text;
use crate::vga::{Writer, ConsoleView};

verus! {

/// Timer interrupts per second, rounded down (the timer fires at about 18.2 Hz).
pub const TICKS_PER_SECOND: usize = 18;
/// Digits of the starting time, HHMMSS.
pub const DIGITS: usize = 6;

/// The abstract state of the digit entry.
pub ghost struct ClockInputView {
    pub digits: Seq<u8>,
    pub count: usize,
    pub running: bool,
    pub start_ticks: usize,
}

/// A digit character.
pub open spec fn is_digit(c: char) -> bool {
    '0' <= c <= '9'
}

/// The entry after key `c` arrives at tick count `ticks`: while the clock is
/// not running a digit is stored in the next free place, and the sixth digit
/// starts the clock at `ticks`; anything else changes nothing.
pub open spec fn on_key_spec(v: ClockInputView, c: char, ticks: usize) -> ClockInputView {
    if !v.running && is_digit(c) && v.count < 6 {
        ClockInputView {
            digits: v.digits.update(v.count as int, (c as u32 - '0' as u32) as u8),
            count: (v.count + 1) as usize,
            running: v.count + 1 == 6,
            start_ticks: if v.count + 1 == 6 {
                ticks
            } else {
                v.start_ticks
            },
        }
    } else {
        v
    }
}

/// The seconds since midnight shown `elapsed` seconds after the typed time.
pub open spec fn total_seconds(digits: Seq<u8>, elapsed: int) -> int {
    (digits[0] * 10 + digits[1]) * 3600 + (digits[2] * 10 + digits[3]) * 60 + digits[4] * 10 + digits[5]
        + elapsed
}

/// The time of day `(hh, mm, ss)` shown `elapsed` seconds after the typed time.
pub open spec fn reading(digits: Seq<u8>, elapsed: int) -> (usize, usize, usize) {
    let total = total_seconds(digits, elapsed);
    (((total / 3600) % 24) as usize, ((total % 3600) / 60) as usize, (total % 60) as usize)
}

/// The reading is the typed time HHMMSS in seconds plus the elapsed
/// seconds, taken modulo one day and split into hours, minutes and seconds.
pub proof fn lemma_reading_of_typed_time(d: Seq<u8>, elapsed: int)
    requires
        d.len() == 6,
        elapsed >= 0,
    ensures
        ({
            let t = 3600 * (10 * d[0] + d[1]) + 60 * (10 * d[2] + d[3]) + (10 * d[4] + d[5]) + elapsed;
            reading(d, elapsed) == (((t % 86400) / 3600) as usize, ((t % 3600) / 60) as usize, (t % 60) as usize)
        }),
{
    let t = 3600 * (10 * d[0] + d[1]) + 60 * (10 * d[2] + d[3]) + (10 * d[4] + d[5]) + elapsed;
    assert(total_seconds(d, elapsed) == t);
    assert((t / 3600) % 24 == (t % 86400) / 3600) by (nonlinear_arith)
        requires
            t >= 0,
    {
        vstd::arithmetic::div_mod::lemma_fundamental_div_mod(t, 86400);
        vstd::arithmetic::div_mod::lemma_breakdown(t, 3600, 24);
    }
}

/// With nothing elapsed, a valid typed time HHMMSS reads back as typed.
pub proof fn lemma_reading_at_start(d: Seq<u8>)
    requires
        d.len() == 6,
        10 * d[0] + d[1] < 24,
        10 * d[2] + d[3] < 60,
        10 * d[4] + d[5] < 60,
    ensures
        reading(d, 0) == ((10 * d[0] + d[1]) as usize, (10 * d[2] + d[3]) as usize, (10 * d[4] + d[5]) as usize),
{
    let h = 10 * d[0] + d[1];
    let m = 10 * d[2] + d[3];
    let sec = 10 * d[4] + d[5];
    let t = 3600 * h + 60 * m + sec;
    assert(total_seconds(d, 0) == t);
    assert(t / 3600 == h && t % 3600 == 60 * m + sec) by {
        vstd::arithmetic::div_mod::lemma_fundamental_div_mod_converse(t, 3600, h, 60 * m + sec);
    }
    assert((60 * m + sec) / 60 == m && (60 * m + sec) % 60 == sec) by {
        vstd::arithmetic::div_mod::lemma_fundamental_div_mod_converse(60 * m + sec, 60, m, sec);
    }
    assert(t % 60 == sec) by {
        vstd::arithmetic::div_mod::lemma_fundamental_div_mod_converse(t, 60, 60 * h + m, sec);
    }
}

/// Once the clock runs, keys change nothing.
pub proof fn lemma_running_ignores_keys(v: ClockInputView, c: char, ticks: usize)
    requires
        v.running,
    ensures
        on_key_spec(v, c, ticks) == v,
{
}

/// The digit entry of the clock.
pub struct ClockInput {
    digits: Vec<u8>,
    digit_count: usize,
    clock_running: bool,
    start_ticks: usize,
}

impl View for ClockInput {
    type V = ClockInputView;

    closed spec fn view(&self) -> ClockInputView {
        ClockInputView {
            digits: self.digits@,
            count: self.digit_count,
            running: self.clock_running,
            start_ticks: self.start_ticks,
        }
    }
}

/// Six places for digits, at most six filled, each with a digit value, and
/// the clock running exactly when all six are filled.
pub open spec fn input_wf(v: ClockInputView) -> bool {
    &&& v.digits.len() == 6
    &&& v.count <= 6
    &&& (v.running <==> v.count == 6)
    &&& forall|i: int| 0 <= i < v.count ==> #[trigger] v.digits[i] <= 9
}

impl ClockInput {
    pub open spec fn wf(&self) -> bool {
        input_wf(self@)
    }

    /// No digits typed, clock stopped.
    pub fn new() -> (c: ClockInput)
        ensures
            c.wf(),
            c@.digits == seq![0u8, 0u8, 0u8, 0u8, 0u8, 0u8],
            c@.count == 0,
            !c@.running,
            c@.start_ticks == 0,
    {
        let c = ClockInput { digits: vec![0u8, 0u8, 0u8, 0u8, 0u8, 0u8], digit_count: 0, clock_running: false, start_ticks: 0 };
        assert(c@.digits =~= seq![0u8, 0u8, 0u8, 0u8, 0u8, 0u8]);
        c
    }

    /// Takes a decoded key at tick count `ticks`; tells whether it was
    /// accepted as a digit, so that it is echoed.
    pub fn on_key(&mut self, c: char, ticks: usize) -> (echo: bool)
        requires
            old(self).wf(),
        ensures
            final(self)@ == on_key_spec(old(self)@, c, ticks),
            final(self).wf(),
            echo == (!old(self)@.running && is_digit(c) && old(self)@.count < 6),
    {
        if !self.clock_running {
            if '0' <= c && c <= '9' {
                let count = self.digit_count;
                if count < DIGITS {
                    let d = (c as u32 - '0' as u32) as u8;
                    self.digits.set(count, d);
                    self.digit_count = count + 1;
                    if count + 1 == DIGITS {
                        self.start_ticks = ticks;
                        self.clock_running = true;
                    }
                    return true;
                }
            }
        }
        false
    }

    /// Whether all six digits are in and the clock runs.
    pub fn running(&self) -> (r: bool)
        ensures
            r == self@.running,
    {
        self.clock_running
    }

    /// The tick count at which the clock started.
    pub fn start_ticks(&self) -> (t: usize)
        ensures
            t == self@.start_ticks,
    {
        self.start_ticks
    }

    /// The digits typed, unfilled places zero.
    pub fn digits(&self) -> (d: &Vec<u8>)
        ensures
            d@ == self@.digits,
    {
        &self.digits
    }
}

/// Takes a scancode at tick count `ticks`: decodes it and hands a decoded
/// character to the digit entry. Gives the character when the entry took
/// it, so that it is echoed.
pub fn clock_on_scancode(input: &mut ClockInput, dec: &mut KeyDecoder, scancode: u8, ticks: usize) -> (echo: Option<
    char,
>)
    requires
        old(input).wf(),
    ensures
        final(input).wf(),
        final(dec)@ == old(dec)@.push(scancode),
        decoded_char(final(dec)@) matches Some(c) ==> {
            &&& final(input)@ == on_key_spec(old(input)@, c, ticks)
            &&& echo == (if !old(input)@.running && is_digit(c) && old(input)@.count < 6 {
                Some(c)
            } else {
                None
            })
        },
        decoded_char(final(dec)@) is None ==> final(input)@ == old(input)@ && echo is None,
{
    let k = dec.decode(scancode);
    proof {
        if let Some(c) = decoded_char(dec@) {
            assert(k matches Some(Key::Unicode(c2)) && c2 == c);
        }
    }
    match k {
        Some(Key::Unicode(c)) => {
            if input.on_key(c, ticks) {
                Some(c)
            } else {
                None
            }
        },
        _ => None,
    }
}

/// The time of day `(hh, mm, ss)` shown at tick count `ticks` for a clock
/// started at `start` from the typed `digits`.
pub fn clock_reading(digits: &[u8], ticks: usize, start: usize) -> (t: (usize, usize, usize))
    requires
        digits@.len() == 6,
        start <= ticks,
    ensures
        t == reading(digits@, (ticks - start) / 18),
        t.0 < 24 && t.1 < 60 && t.2 < 60,
{
    let elapsed_secs = (ticks - start) / TICKS_PER_SECOND;
    let h = digits[0] as usize * 10 + digits[1] as usize;
    let m = digits[2] as usize * 10 + digits[3] as usize;
    let s = digits[4] as usize * 10 + digits[5] as usize;
    assert(elapsed_secs <= usize::MAX / 18);
    let total = h * 3600 + m * 60 + s + elapsed_secs;
    let hh = (total / 3600) % 24;
    let mm = (total % 3600) / 60;
    let ss = total % 60;
    (hh, mm, ss)
}

/// The text `hh:mm:ss` of a time, two digits each.
pub open spec fn time_text_spec(t: (usize, usize, usize)) -> Seq<u8> {
    seq![
        (48 + t.0 / 10) as u8,
        (48 + t.0 % 10) as u8,
        58u8,
        (48 + t.1 / 10) as u8,
        (48 + t.1 % 10) as u8,
        58u8,
        (48 + t.2 / 10) as u8,
        (48 + t.2 % 10) as u8,
    ]
}

/// The time as text, `hh:mm:ss` with two digits each.
pub fn time_text(t: (usize, usize, usize)) -> (v: Vec<u8>)
    requires
        t.0 < 100,
        t.1 < 100,
        t.2 < 100,
    ensures
        v@ == time_text_spec(t),
{
    let (h, m, s) = t;
    let v = vec![
        (48 + h / 10) as u8,
        (48 + h % 10) as u8,
        58u8,
        (48 + m / 10) as u8,
        (48 + m % 10) as u8,
        58u8,
        (48 + s / 10) as u8,
        (48 + s % 10) as u8,
    ];
    assert(v@ =~= time_text_spec(t));
    v
}

/// Shows the time on the console's current row from column 0, over the
/// time shown before; the cursor stays where it is.
pub fn show_time(console: &mut Writer, t: (usize, usize, usize))
    requires
        old(console).wf(),
        t.0 < 100,
        t.1 < 100,
        t.2 < 100,
    ensures
        final(console).wf(),
        final(console)@ == (ConsoleView {
            cells: with_text(old(console)@.cells, old(console)@.row as int, 0, time_text_spec(t), old(console)@.color),
            ..old(console)@
        }),
{
    let text = time_text(t);
    let row = console.row();
    console.write_at(row, 0, text.as_slice());
}

/// What the main loop does in one round.
pub struct ClockFrame {
    /// Blank the screen first.
    pub clear_screen: bool,
    /// A new time to show, if the second changed.
    pub time: Option<(usize, usize, usize)>,
}

/// The main loop's memory: whether the screen was cleared for the clock,
/// and the elapsed second last shown.
pub struct ClockDisplay {
    pub clock_started: bool,
    pub last_secs: usize,
}

impl ClockDisplay {
    /// Nothing shown yet.
    pub fn new() -> (d: ClockDisplay)
        ensures
            !d.clock_started,
            d.last_secs == usize::MAX,
    {
        ClockDisplay { clock_started: false, last_secs: usize::MAX }
    }

    /// One round of the main loop: while the clock runs, clear the screen
    /// the first time, and show the time whenever the elapsed second changed.
    pub fn step(&mut self, running: bool, ticks: usize, start: usize, digits: &[u8]) -> (f: ClockFrame)
        requires
            digits@.len() == 6,
            running ==> start <= ticks,
        ensures
            !running ==> f.time is None && !f.clear_screen && *final(self) == *old(self),
            running ==> {
                let elapsed = (ticks - start) / 18;
                &&& f.clear_screen == !old(self).clock_started
                &&& final(self).clock_started
                &&& final(self).last_secs == elapsed
                &&& f.time == (if elapsed != old(self).last_secs {
                    Some(reading(digits@, elapsed as int))
                } else {
                    None
                })
            },
    {
        if !running {
            return ClockFrame { clear_screen: false, time: None };
        }
        let mut clear = false;
        if !self.clock_started {
            self.clock_started = true;
            clear = true;
        }
        let elapsed_secs = (ticks - start) / TICKS_PER_SECOND;
        if elapsed_secs != self.last_secs {
            self.last_secs = elapsed_secs;
            let t = clock_reading(digits, ticks, start);
            ClockFrame { clear_screen: clear, time: Some(t) }
        } else {
            ClockFrame { clear_screen: clear, time: None }
        }
    }
}

} // verus!
