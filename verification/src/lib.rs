//! Verified pieces of a small x86 teaching kernel: the VGA text screen and
//! the writers that draw on it, the snake game, a byte-map allocator, the
//! keyboard scancode ring, the wall clock, and a word counter.
use vstd::prelude::*;

pub mod screen;
pub mod snake;
pub mod seed_cycle;
pub mod malloc;
pub mod vga;
pub mod vga_line;
pub mod graphics;
pub mod keyboard;
pub mod clock;
pub mod wc;
pub mod message;

verus! {

} // verus!
