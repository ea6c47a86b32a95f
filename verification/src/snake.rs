//! The snake game: a snake of cells walks over the play area inside a
//! border; eating food makes it grow, and running into the border or into
//! itself ends the game.
//!
//! The game reads the screen to decide what lies ahead, so the screen is part
//! of its state: the contracts speak of the text buffer as well as of the
//! snake.
use std::collections::VecDeque;
use vstd::prelude::*;
use crate::seed_cycle::{lemma_free_cell_is_found, lemma_short_snake_leaves_free_cell};
use crate::screen::{
    Screen, char_at, color_at, on_screen, with_cell, with_text, filled, paint, lemma_with_cell,
    lemma_screen_ext, lemma_paint, reveal_paint_text, lemma_with_cell_at,
};

verus! {

pub const WIDTH: usize = 80;
pub const HEIGHT: usize = 25;

/// Box-drawing characters of code page 437.
pub const H_BAR: u8 = 0xC4;
pub const V_BAR: u8 = 0xB3;
pub const TL: u8 = 0xDA;
pub const TR: u8 = 0xBF;
pub const BL: u8 = 0xC0;
pub const BR: u8 = 0xD9;

pub const FOOD: u8 = 0xA2;
pub const SNAKE: u8 = 0xDB;
pub const EMPTY: u8 = 0x20;

pub const COLOR_NORMAL: u8 = 0x0F;
pub const COLOR_SNAKE: u8 = 0x0A;
pub const COLOR_FOOD: u8 = 0x0C;
pub const COLOR_BORDER: u8 = 0x0F;

pub const DIR_RIGHT: u8 = 0;
pub const DIR_LEFT: u8 = 1;
pub const DIR_UP: u8 = 2;
pub const DIR_DOWN: u8 = 3;

/// Exit code reported to the emulator when the player wins.
pub const QEMU_PASS: u32 = 0x10;
/// Exit code reported to the emulator when the game is lost.
pub const QEMU_FAIL: u32 = 0x11;

/// Cells inside the border: once the snake has this many segments it fills
/// the play area and the player wins.
pub const PLAY_AREA: usize = 1794;

/// How many draws the search for a free food cell makes at most.
pub const FOOD_SEARCH_LIMIT: u64 = 0xffff_ffff_ffff_ffff;

/// Multiplier and increment of the pseudo-random sequence of food cells.
pub const LCG_MUL: u64 = 6364136223846793005;
pub const LCG_INC: u64 = 1442695040888963407;
/// Multiplier that turns the tick count into a new seed after a meal.
pub const TICK_MUL: u64 = 2654435761;

/// A character that the border is drawn with.
pub open spec fn is_wall(ch: u8) -> bool {
    ch == H_BAR || ch == V_BAR || ch == TL || ch == TR || ch == BL || ch == BR
}

/// A cell of the border around the play area.
pub open spec fn on_border(r: int, c: int) -> bool {
    on_screen(r, c) && (r == 0 || r == 24 || c == 0 || c == 79)
}

/// A cell of the play area, inside the border.
pub open spec fn in_play_area(p: (usize, usize)) -> bool {
    1 <= p.0 <= 23 && 1 <= p.1 <= 78
}

/// The character the border shows at `(r, c)`.
pub open spec fn border_char(r: int, c: int) -> u8 {
    if r == 0 && c == 0 {
        TL
    } else if r == 0 && c == 79 {
        TR
    } else if r == 24 && c == 0 {
        BL
    } else if r == 24 && c == 79 {
        BR
    } else if r == 0 || r == 24 {
        H_BAR
    } else {
        V_BAR
    }
}

/// The buffer `s` with the border drawn around it.
pub open spec fn bordered(s: Seq<u8>) -> Seq<u8> {
    paint(
        |r: int, c: int|
            if on_border(r, c) {
                border_char(r, c)
            } else {
                char_at(s, r, c)
            },
        |r: int, c: int|
            if on_border(r, c) {
                COLOR_BORDER
            } else {
                color_at(s, r, c)
            },
    )
}

/// The cell the head moves to from `head` in direction `dir`; an unknown
/// direction counts as right.
pub open spec fn next_cell(head: (usize, usize), dir: u8) -> (int, int) {
    if dir == DIR_LEFT {
        (head.0 as int, head.1 - 1)
    } else if dir == DIR_UP {
        (head.0 - 1, head.1 as int)
    } else if dir == DIR_DOWN {
        (head.0 + 1, head.1 as int)
    } else {
        (head.0 as int, head.1 + 1)
    }
}

/// One step of the pseudo-random sequence of seeds.
pub open spec fn lcg(seed: u64) -> u64 {
    vstd::wrapping::u64_specs::wrapping_add(vstd::wrapping::u64_specs::wrapping_mul(seed, LCG_MUL), LCG_INC)
}

/// The cell of the play area that a seed designates for food.
pub open spec fn food_cell(seed: u64) -> (usize, usize) {
    ((((seed >> 33u64) % 23) + 1) as usize, (((seed >> 17u64) % 78) + 1) as usize)
}

/// The search for food: draw seeds until one designates a cell that the
/// snake does not occupy, at most `fuel` times. Gives the last seed drawn,
/// and the cell found, if any.
pub open spec fn food_search(seed: u64, snake: Seq<(usize, usize)>, fuel: nat) -> (u64, Option<(usize, usize)>)
    decreases fuel,
{
    if fuel == 0 {
        (seed, None)
    } else {
        let s = lcg(seed);
        if snake.contains(food_cell(s)) {
            food_search(s, snake, (fuel - 1) as nat)
        } else {
            (s, Some(food_cell(s)))
        }
    }
}

/// "PRESS ANY WASD-KEY TO START"
pub open spec fn start_message() -> Seq<u8> {
    seq![
        80u8, 82u8, 69u8, 83u8, 83u8, 32u8, 65u8, 78u8, 89u8, 32u8, 87u8, 65u8, 83u8, 68u8, 45u8,
        75u8, 69u8, 89u8, 32u8, 84u8, 79u8, 32u8, 83u8, 84u8, 65u8, 82u8, 84u8,
    ]
}

/// "GAME OVER"
pub open spec fn over_message() -> Seq<u8> {
    seq![71u8, 65u8, 77u8, 69u8, 32u8, 79u8, 86u8, 69u8, 82u8]
}

/// "YOU WIN!"
pub open spec fn win_message() -> Seq<u8> {
    seq![89u8, 79u8, 85u8, 32u8, 87u8, 73u8, 78u8, 33u8]
}

/// The screen shown when the game is lost: blank, with the message centred
/// on row 12 in white on red.
pub open spec fn over_screen() -> Seq<u8> {
    with_text(filled(EMPTY, COLOR_NORMAL), 12, 35, over_message(), 0x4F)
}

/// The screen shown when the game is won: blank, with the message centred
/// on row 12 in white on green.
pub open spec fn win_screen() -> Seq<u8> {
    with_text(filled(EMPTY, COLOR_NORMAL), 12, 36, win_message(), 0x2F)
}

/// The screen at the start of a game: blank and bordered,
/// with a snake of three cells on row 12, food at (5, 20) and the prompt
/// on row 23 in cyan.
pub open spec fn start_screen() -> Seq<u8> {
    with_text(
        with_cell(
            with_cell(
                with_cell(
                    with_cell(bordered(filled(EMPTY, COLOR_NORMAL)), 12, 10, SNAKE, COLOR_SNAKE),
                    12,
                    11,
                    SNAKE,
                    COLOR_SNAKE,
                ),
                12,
                12,
                SNAKE,
                COLOR_SNAKE,
            ),
            5,
            20,
            FOOD,
            COLOR_FOOD,
        ),
        23,
        26,
        start_message(),
        0x0B,
    )
}

/// One step of the game at tick count `tick`: the state after it and what it
/// led to.
pub open spec fn step(g: GameView, tick: u64) -> (GameView, Outcome) {
    let head = g.snake.last();
    let next = next_cell(head, g.direction);
    let cell = char_at(g.screen, next.0, next.1);
    if is_wall(cell) || cell == SNAKE {
        (GameView { screen: over_screen(), ..g }, Outcome::GameOver)
    } else {
        let grown = g.snake.push((next.0 as usize, next.1 as usize));
        let drawn = with_cell(g.screen, next.0, next.1, SNAKE, COLOR_SNAKE);
        if cell == FOOD {
            let seed = vstd::wrapping::u64_specs::wrapping_mul(tick, TICK_MUL);
            if grown.len() >= PLAY_AREA {
                (GameView { seed: seed, snake: grown, screen: win_screen(), ..g }, Outcome::Won)
            } else {
                let found = food_search(seed, grown, FOOD_SEARCH_LIMIT as nat);
                match found.1 {
                    Some(p) => (
                        GameView {
                            food: p,
                            seed: found.0,
                            snake: grown,
                            screen: with_cell(drawn, p.0 as int, p.1 as int, FOOD, COLOR_FOOD),
                            ..g
                        },
                        Outcome::Continue,
                    ),
                    None => (GameView { seed: found.0, snake: grown, screen: drawn, ..g }, Outcome::Continue),
                }
            }
        } else {
            let tail = g.snake[0];
            (
                GameView {
                    snake: grown.drop_first(),
                    screen: with_cell(drawn, tail.0 as int, tail.1 as int, EMPTY, COLOR_NORMAL),
                    ..g
                },
                Outcome::Continue,
            )
        }
    }
}

/// A cell the search finds lies in the play area, off the snake.
pub proof fn lemma_food_search(seed: u64, snake: Seq<(usize, usize)>, fuel: nat)
    ensures
        food_search(seed, snake, fuel).1 matches Some(p) ==> in_play_area(p) && !snake.contains(p),
    decreases fuel,
{
    if fuel > 0 {
        let s = lcg(seed);
        assert((s >> 33u64) % 23 < 23 && (s >> 17u64) % 78 < 78);
        lemma_food_search(s, snake, (fuel - 1) as nat);
    }
}

/// The starting screen shows the border and the three cells of the snake.
proof fn lemma_start_screen_wf()
    ensures
        start_screen().len() == 4000,
        forall|r: int, c: int| on_border(r, c) ==> is_wall(#[trigger] char_at(start_screen(), r, c)),
        char_at(start_screen(), 12, 10) == SNAKE,
        char_at(start_screen(), 12, 11) == SNAKE,
        char_at(start_screen(), 12, 12) == SNAKE,
{
    let s0 = filled(EMPTY, COLOR_NORMAL);
    let s1 = bordered(s0);
    let s2 = with_cell(s1, 12, 10, SNAKE, COLOR_SNAKE);
    let s3 = with_cell(s2, 12, 11, SNAKE, COLOR_SNAKE);
    let s4 = with_cell(s3, 12, 12, SNAKE, COLOR_SNAKE);
    let s5 = with_cell(s4, 5, 20, FOOD, COLOR_FOOD);
    lemma_with_cell(s1, 12, 10, SNAKE, COLOR_SNAKE);
    lemma_with_cell(s2, 12, 11, SNAKE, COLOR_SNAKE);
    lemma_with_cell(s3, 12, 12, SNAKE, COLOR_SNAKE);
    lemma_with_cell(s4, 5, 20, FOOD, COLOR_FOOD);
    assert forall|r: int, c: int| on_border(r, c) implies is_wall(#[trigger] char_at(start_screen(), r, c)) by {
        reveal_paint_text(s5, 23, 26, start_message(), 0x0B, r, c);
        lemma_bordered(s0, r, c);
        assert(char_at(s5, r, c) == char_at(s4, r, c));
        assert(char_at(s4, r, c) == char_at(s3, r, c));
        assert(char_at(s3, r, c) == char_at(s2, r, c));
        assert(char_at(s2, r, c) == char_at(s1, r, c));
    }
    reveal_paint_text(s5, 23, 26, start_message(), 0x0B, 12, 10);
    reveal_paint_text(s5, 23, 26, start_message(), 0x0B, 12, 11);
    reveal_paint_text(s5, 23, 26, start_message(), 0x0B, 12, 12);
    assert(char_at(s5, 12, 10) == char_at(s4, 12, 10));
    assert(char_at(s5, 12, 11) == char_at(s4, 12, 11));
    assert(char_at(s4, 12, 10) == char_at(s3, 12, 10));
    assert(char_at(s4, 12, 11) == char_at(s3, 12, 11));
    assert(char_at(s3, 12, 10) == char_at(s2, 12, 10));
}

/// The cell ahead of the snake lies on the screen; if it does not stop the
/// snake it lies in the play area, off the snake.
proof fn lemma_next_cell(g: GameView)
    requires
        game_wf(g),
    ensures
        on_screen(next_cell(g.snake.last(), g.direction).0, next_cell(g.snake.last(), g.direction).1),
        ({
            let next = next_cell(g.snake.last(), g.direction);
            let cell = char_at(g.screen, next.0, next.1);
            !(is_wall(cell) || cell == SNAKE) ==> {
                &&& in_play_area((next.0 as usize, next.1 as usize))
                &&& !g.snake.contains((next.0 as usize, next.1 as usize))
            }
        }),
{
    let head = g.snake.last();
    assert(in_play_area(g.snake[g.snake.len() - 1]));
    let next = next_cell(head, g.direction);
    let cell = char_at(g.screen, next.0, next.1);
    if !(is_wall(cell) || cell == SNAKE) {
        if on_border(next.0, next.1) {
            assert(is_wall(char_at(g.screen, next.0, next.1)));
        }
        let np = (next.0 as usize, next.1 as usize);
        if g.snake.contains(np) {
            let i = choose|i: int| 0 <= i < g.snake.len() && g.snake[i] == np;
            assert(in_play_area(g.snake[i]));
        }
    }
}

/// A step that lets the game go on leaves it in a state where it can move.
pub proof fn lemma_step_keeps_wf(g: GameView, tick: u64)
    requires
        game_wf(g),
    ensures
        step(g, tick).1 == Outcome::Continue ==> game_wf(step(g, tick).0),
{
    lemma_next_cell(g);
    let head = g.snake.last();
    let next = next_cell(head, g.direction);
    let cell = char_at(g.screen, next.0, next.1);
    if !(is_wall(cell) || cell == SNAKE) {
        let np = (next.0 as usize, next.1 as usize);
        let grown = g.snake.push(np);
        let drawn = with_cell(g.screen, next.0, next.1, SNAKE, COLOR_SNAKE);
        lemma_with_cell(g.screen, next.0, next.1, SNAKE, COLOR_SNAKE);
        assert forall|r: int, c: int| on_border(r, c) implies is_wall(#[trigger] char_at(drawn, r, c)) by {
            assert(is_wall(char_at(g.screen, r, c)));
        }
        assert forall|i: int| 0 <= i < grown.len() implies in_play_area(#[trigger] grown[i]) && char_at(
            drawn,
            grown[i].0 as int,
            grown[i].1 as int,
        ) == SNAKE by {
            if i < g.snake.len() {
                assert(grown[i] == g.snake[i]);
                assert(in_play_area(g.snake[i]));
            }
        }
        assert forall|i: int, j: int| 0 <= i < j < grown.len() implies grown[i] != grown[j] by {
            if j == g.snake.len() {
                assert(g.snake.contains(g.snake[i]));
            } else {
                assert(g.snake[i] != g.snake[j]);
            }
        }
        if cell == FOOD {
            let seed = vstd::wrapping::u64_specs::wrapping_mul(tick, TICK_MUL);
            if grown.len() < PLAY_AREA {
                let found = food_search(seed, grown, FOOD_SEARCH_LIMIT as nat);
                lemma_food_search(seed, grown, FOOD_SEARCH_LIMIT as nat);
                if let Some(p) = found.1 {
                    let fed = with_cell(drawn, p.0 as int, p.1 as int, FOOD, COLOR_FOOD);
                    lemma_with_cell(drawn, p.0 as int, p.1 as int, FOOD, COLOR_FOOD);
                    assert forall|r: int, c: int| on_border(r, c) implies is_wall(#[trigger] char_at(fed, r, c)) by {
                        assert(is_wall(char_at(drawn, r, c)));
                    }
                    assert forall|i: int| 0 <= i < grown.len() implies in_play_area(#[trigger] grown[i])
                        && char_at(fed, grown[i].0 as int, grown[i].1 as int) == SNAKE by {
                        assert(grown.contains(grown[i]));
                        assert(char_at(drawn, grown[i].0 as int, grown[i].1 as int) == SNAKE);
                    }
                }
            }
        } else {
            let tail = g.snake[0];
            let after = grown.drop_first();
            let cleared = with_cell(drawn, tail.0 as int, tail.1 as int, EMPTY, COLOR_NORMAL);
            assert(in_play_area(g.snake[0]));
            lemma_with_cell(drawn, tail.0 as int, tail.1 as int, EMPTY, COLOR_NORMAL);
            assert forall|r: int, c: int| on_border(r, c) implies is_wall(#[trigger] char_at(cleared, r, c)) by {
                assert(is_wall(char_at(drawn, r, c)));
            }
            assert forall|i: int| 0 <= i < after.len() implies in_play_area(#[trigger] after[i])
                && char_at(cleared, after[i].0 as int, after[i].1 as int) == SNAKE by {
                assert(after[i] == grown[i + 1]);
                assert(grown[0] != grown[i + 1]);
                assert(char_at(drawn, grown[i + 1].0 as int, grown[i + 1].1 as int) == SNAKE);
            }
            assert forall|i: int, j: int| 0 <= i < j < after.len() implies after[i] != after[j] by {
                assert(grown[i + 1] != grown[j + 1]);
            }
        }
    }
}

/// The snake grows by one cell when it eats and keeps its length when it
/// moves on an empty cell; a finished game leaves it as it was.
pub proof fn lemma_step_length(g: GameView, tick: u64)
    requires
        game_wf(g),
    ensures
        ({
            let next = next_cell(g.snake.last(), g.direction);
            let cell = char_at(g.screen, next.0, next.1);
            let after = step(g, tick);
            &&& after.1 == Outcome::GameOver ==> after.0.snake == g.snake
            &&& after.1 != Outcome::GameOver && cell == FOOD ==> after.0.snake.len() == g.snake.len() + 1
            &&& after.1 != Outcome::GameOver && cell != FOOD ==> after.0.snake.len() == g.snake.len()
            &&& after.1 != Outcome::GameOver ==> after.0.snake.last() == (next.0 as usize, next.1 as usize)
        }),
{
}

/// A meal that does not win the game always places new food: the snake,
/// one cell longer, still leaves a cell of the play area free, and the
/// search finds one.
pub proof fn lemma_meal_places_food(g: GameView, tick: u64)
    requires
        game_wf(g),
    ensures
        ({
            let next = next_cell(g.snake.last(), g.direction);
            let cell = char_at(g.screen, next.0, next.1);
            let grown = g.snake.push((next.0 as usize, next.1 as usize));
            let seed = vstd::wrapping::u64_specs::wrapping_mul(tick, TICK_MUL);
            !(is_wall(cell) || cell == SNAKE) && cell == FOOD && grown.len() < PLAY_AREA ==> {
                &&& food_search(seed, grown, FOOD_SEARCH_LIMIT as nat).1 is Some
                &&& step(g, tick).1 == Outcome::Continue
                &&& step(g, tick).0.food == food_search(seed, grown, FOOD_SEARCH_LIMIT as nat).1.unwrap()
            }
        }),
{
    let next = next_cell(g.snake.last(), g.direction);
    let cell = char_at(g.screen, next.0, next.1);
    let grown = g.snake.push((next.0 as usize, next.1 as usize));
    let seed = vstd::wrapping::u64_specs::wrapping_mul(tick, TICK_MUL);
    if !(is_wall(cell) || cell == SNAKE) && cell == FOOD && grown.len() < PLAY_AREA {
        let p = lemma_short_snake_leaves_free_cell(grown);
        lemma_free_cell_is_found(seed, grown, p);
    }
}

/// The cell ahead of the head at `h` in direction `dir`: one column right
/// for direction 0 (and any unknown direction), one left for 1, one row up
/// for 2 and one row down for 3.
pub proof fn lemma_next_cell_directions(h: (usize, usize), dir: u8)
    ensures
        next_cell(h, dir) == (if dir == 1 {
            (h.0 as int, h.1 - 1)
        } else if dir == 2 {
            (h.0 - 1, h.1 as int)
        } else if dir == 3 {
            (h.0 + 1, h.1 as int)
        } else {
            (h.0 as int, h.1 + 1)
        }),
{
}

/// Only the border and the snake stop the snake: the game ends exactly when
/// the cell ahead shows a border character (0xC4, 0xB3, 0xDA, 0xBF, 0xC0,
/// 0xD9) or a snake segment (0xDB). Any other character, such as a letter
/// of the prompt, is walked over.
pub proof fn lemma_only_walls_and_snake_stop(g: GameView, tick: u64)
    requires
        game_wf(g),
    ensures
        ({
            let (r, c) = next_cell(g.snake.last(), g.direction);
            let ch = g.screen[(r * 80 + c) * 2];
            &&& 0 <= r < 25 && 0 <= c < 80
            &&& (step(g, tick).1 == Outcome::GameOver <==> (ch == 0xC4u8 || ch == 0xB3u8 || ch == 0xDAu8
                || ch == 0xBFu8 || ch == 0xC0u8 || ch == 0xD9u8 || ch == 0xDBu8))
        }),
{
    lemma_next_cell(g);
}

/// The snake after a step: a finished game leaves it as it was; otherwise
/// the head moves onto the cell ahead, the other cells stay, and the tail
/// goes unless the cell showed food (0xA2).
pub proof fn lemma_step_moves_snake(g: GameView, tick: u64)
    requires
        game_wf(g),
    ensures
        ({
            let (r, c) = next_cell(g.snake.last(), g.direction);
            let ch = g.screen[(r * 80 + c) * 2];
            let after = step(g, tick);
            &&& after.1 == Outcome::GameOver ==> after.0.snake == g.snake
            &&& after.1 != Outcome::GameOver ==> after.0.snake.last() == (r as usize, c as usize)
            &&& after.1 != Outcome::GameOver && ch == 0xA2u8 ==> after.0.snake.drop_last() == g.snake
            &&& after.1 != Outcome::GameOver && ch != 0xA2u8 ==> after.0.snake == g.snake.drop_first().push(
                (r as usize, c as usize),
            )
        }),
{
    lemma_next_cell(g);
    let next = next_cell(g.snake.last(), g.direction);
    let np = (next.0 as usize, next.1 as usize);
    let grown = g.snake.push(np);
    assert(grown.drop_last() =~= g.snake);
    assert(grown.drop_first() =~= g.snake.drop_first().push(np));
}

/// After a step that goes on, the cell the head moved to shows a snake
/// segment.
pub proof fn lemma_head_is_drawn(g: GameView, tick: u64)
    requires
        game_wf(g),
        step(g, tick).1 == Outcome::Continue,
    ensures
        ({
            let (r, c) = next_cell(g.snake.last(), g.direction);
            step(g, tick).0.screen[(r * 80 + c) * 2] == 0xDBu8
        }),
{
    lemma_step_keeps_wf(g, tick);
    lemma_step_moves_snake(g, tick);
    let after = step(g, tick).0;
    let k = after.snake.len() - 1;
    assert(in_play_area(after.snake[k]));
}

/// The abstract state of a game.
pub ghost struct GameView {
    pub direction: u8,
    pub food: (usize, usize),
    pub seed: u64,
    pub snake: Seq<(usize, usize)>,
    pub screen: Seq<u8>,
}

/// What a step of the game led to.
#[derive(PartialEq, Eq, Structural, Debug, Clone, Copy)]
pub enum Outcome {
    Continue,
    GameOver,
    Won,
}

/// A game in which the snake can move: the border stands, the snake is not
/// empty, lies in the play area, shows on screen and never crosses itself.
pub open spec fn game_wf(g: GameView) -> bool {
    &&& g.screen.len() == 4000
    &&& forall|r: int, c: int| on_border(r, c) ==> is_wall(#[trigger] char_at(g.screen, r, c))
    &&& g.snake.len() >= 1
    &&& forall|i: int|
        0 <= i < g.snake.len() ==> in_play_area(#[trigger] g.snake[i]) && char_at(
            g.screen,
            g.snake[i].0 as int,
            g.snake[i].1 as int,
        ) == SNAKE
    &&& forall|i: int, j: int| 0 <= i < j < g.snake.len() ==> g.snake[i] != g.snake[j]
}

/// The cell `(r, c)` of a buffer after the border is drawn.
pub proof fn lemma_bordered(s: Seq<u8>, r: int, c: int)
    requires
        on_screen(r, c),
    ensures
        char_at(bordered(s), r, c) == (if on_border(r, c) {
            border_char(r, c)
        } else {
            char_at(s, r, c)
        }),
        color_at(bordered(s), r, c) == (if on_border(r, c) {
            COLOR_BORDER
        } else {
            color_at(s, r, c)
        }),
{
    lemma_paint(
        |r: int, c: int|
            if on_border(r, c) {
                border_char(r, c)
            } else {
                char_at(s, r, c)
            },
        |r: int, c: int|
            if on_border(r, c) {
                COLOR_BORDER
            } else {
                color_at(s, r, c)
            },
        r,
        c,
    );
}

/// The state of a game of snake, with the screen it is drawn on.
pub struct Game {
    direction: u8,
    food_row: usize,
    food_col: usize,
    rand_seed: u64,
    snek: VecDeque<(usize, usize)>,
    screen: Screen,
}

impl View for Game {
    type V = GameView;

    closed spec fn view(&self) -> GameView {
        GameView {
            direction: self.direction,
            food: (self.food_row, self.food_col),
            seed: self.rand_seed,
            snake: self.snek@,
            screen: self.screen@,
        }
    }
}

/// The seed after `seed` in the pseudo-random sequence.
fn next_seed(seed: u64) -> (r: u64)
    ensures
        r == lcg(seed),
{
    seed.wrapping_mul(LCG_MUL).wrapping_add(LCG_INC)
}

/// The food cell that `seed` designates.
fn food_cell_of(seed: u64) -> (p: (usize, usize))
    ensures
        p == food_cell(seed),
        in_play_area(p),
{
    let row = ((seed >> 33u64) % 23 + 1) as usize;
    let col = ((seed >> 17u64) % 78 + 1) as usize;
    (row, col)
}

/// Whether a segment of `snake` lies at `(row, col)`.
fn occupies(snake: &VecDeque<(usize, usize)>, row: usize, col: usize) -> (b: bool)
    ensures
        b == snake@.contains((row, col)),
{
    let mut i: usize = 0;
    while i < snake.len()
        invariant
            i <= snake@.len(),
            forall|j: int| 0 <= j < i ==> snake@[j] != (row, col),
        decreases snake@.len() - i,
    {
        let seg = snake[i];
        if seg.0 == row && seg.1 == col {
            assert(snake@[i as int] == (row, col));
            return true;
        }
        i = i + 1;
    }
    false
}

/// The food search from `seed`, run.
fn search_food(seed: u64, snake: &VecDeque<(usize, usize)>) -> (r: (u64, Option<(usize, usize)>))
    ensures
        r == food_search(seed, snake@, FOOD_SEARCH_LIMIT as nat),
{
    let mut cur = seed;
    let mut attempts: u64 = 0;
    while attempts < FOOD_SEARCH_LIMIT
        invariant
            food_search(seed, snake@, FOOD_SEARCH_LIMIT as nat) == food_search(
                cur,
                snake@,
                (FOOD_SEARCH_LIMIT - attempts) as nat,
            ),
        decreases FOOD_SEARCH_LIMIT - attempts,
    {
        let ghost fuel = (FOOD_SEARCH_LIMIT - attempts) as nat;
        let ghost prev = cur;
        cur = next_seed(cur);
        let (row, col) = food_cell_of(cur);
        let hit = occupies(snake, row, col);
        assert(food_search(prev, snake@, fuel) == (if hit {
            food_search(cur, snake@, (fuel - 1) as nat)
        } else {
            (cur, Some((row, col)))
        }));
        if !hit {
            return (cur, Some((row, col)));
        }
        attempts = attempts + 1;
    }
    (cur, None)
}

fn start_message_bytes() -> (m: Vec<u8>)
    ensures
        m@ == start_message(),
{
    let m = vec![
        80u8, 82u8, 69u8, 83u8, 83u8, 32u8, 65u8, 78u8, 89u8, 32u8, 87u8, 65u8, 83u8, 68u8, 45u8,
        75u8, 69u8, 89u8, 32u8, 84u8, 79u8, 32u8, 83u8, 84u8, 65u8, 82u8, 84u8,
    ];
    assert(m@ =~= start_message());
    m
}

fn over_message_bytes() -> (m: Vec<u8>)
    ensures
        m@ == over_message(),
{
    let m = vec![71u8, 65u8, 77u8, 69u8, 32u8, 79u8, 86u8, 69u8, 82u8];
    assert(m@ =~= over_message());
    m
}

fn win_message_bytes() -> (m: Vec<u8>)
    ensures
        m@ == win_message(),
{
    let m = vec![89u8, 79u8, 85u8, 32u8, 87u8, 73u8, 78u8, 33u8];
    assert(m@ =~= win_message());
    m
}

/// Writes character `ch` in colour `color` at `(row, col)`.
pub fn write_char(screen: &mut Screen, row: usize, col: usize, ch: u8, color: u8)
    requires
        old(screen).wf(),
        row * 80 + col < 2000,
    ensures
        final(screen)@ == with_cell(old(screen)@, row as int, col as int, ch, color),
        final(screen).wf(),
{
    screen.write_cell(row, col, ch, color);
}

/// The character shown at `(row, col)`.
pub fn read_char(screen: &Screen, row: usize, col: usize) -> (ch: u8)
    requires
        screen.wf(),
        row * 80 + col < 2000,
    ensures
        ch == char_at(screen@, row as int, col as int),
{
    screen.read_char(row, col)
}

impl Game {
    pub open spec fn wf(&self) -> bool {
        game_wf(self@)
    }

    /// A game before it starts: heading right, food at (12, 20), seed 1, no
    /// snake, and a screen of zero bytes.
    pub fn new() -> (g: Game)
        ensures
            g@.direction == DIR_RIGHT,
            g@.food == (12usize, 20usize),
            g@.seed == 1,
            g@.snake == Seq::<(usize, usize)>::empty(),
            g@.screen.len() == 4000,
            forall|i: int| 0 <= i < 4000 ==> #[trigger] g@.screen[i] == 0,
    {
        Game {
            direction: DIR_RIGHT,
            food_row: 12,
            food_col: 20,
            rand_seed: 1,
            snek: VecDeque::new(),
            screen: Screen::new(),
        }
    }

    /// The text buffer the game is drawn on.
    pub fn screen(&self) -> (s: &Screen)
        ensures
            s@ == self@.screen,
    {
        &self.screen
    }

    /// The snake, from tail to head.
    pub fn segments(&self) -> (v: Vec<(usize, usize)>)
        ensures
            v@ == self@.snake,
    {
        let mut v: Vec<(usize, usize)> = Vec::new();
        let mut i: usize = 0;
        while i < self.snek.len()
            invariant
                i <= self.snek@.len(),
                v@ == self.snek@.subrange(0, i as int),
            decreases self.snek@.len() - i,
        {
            v.push(self.snek[i]);
            i = i + 1;
            assert(v@ =~= self.snek@.subrange(0, i as int));
        }
        assert(self.snek@.subrange(0, i as int) =~= self.snek@);
        v
    }

    /// The direction the snake heads in.
    pub fn direction(&self) -> (d: u8)
        ensures
            d == self@.direction,
    {
        self.direction
    }

    /// Where the food was last placed.
    pub fn food(&self) -> (p: (usize, usize))
        ensures
            p == self@.food,
    {
        (self.food_row, self.food_col)
    }

    /// The current seed of the food sequence.
    pub fn seed(&self) -> (s: u64)
        ensures
            s == self@.seed,
    {
        self.rand_seed
    }

    /// Blanks the whole screen.
    pub fn clear_screen(&mut self)
        requires
            old(self)@.screen.len() == 4000,
        ensures
            final(self)@ == (GameView { screen: filled(EMPTY, COLOR_NORMAL), ..old(self)@ }),
    {
        self.screen.fill(EMPTY, COLOR_NORMAL);
    }

    /// Draws the border around the play area.
    pub fn draw_border(&mut self)
        requires
            old(self)@.screen.len() == 4000,
        ensures
            final(self)@ == (GameView { screen: bordered(old(self)@.screen), ..old(self)@ }),
    {
        let ghost s0 = self.screen@;
        let mut col: usize = 0;
        while col < WIDTH
            invariant
                col <= 80,
                self.screen.wf(),
                s0.len() == 4000,
                self@ == (GameView { screen: self.screen@, ..old(self)@ }),
                forall|r: int, c: int|
                    on_screen(r, c) ==> {
                        &&& #[trigger] char_at(self.screen@, r, c) == (if (r == 0 || r == 24) && c < col {
                            H_BAR
                        } else {
                            char_at(s0, r, c)
                        })
                        &&& color_at(self.screen@, r, c) == (if (r == 0 || r == 24) && c < col {
                            COLOR_BORDER
                        } else {
                            color_at(s0, r, c)
                        })
                    },
            decreases 80 - col,
        {
            let ghost a = self.screen@;
            write_char(&mut self.screen, 0, col, H_BAR, COLOR_BORDER);
            let ghost b = self.screen@;
            write_char(&mut self.screen, HEIGHT - 1, col, H_BAR, COLOR_BORDER);
            proof {
                lemma_with_cell(a, 0, col as int, H_BAR, COLOR_BORDER);
                lemma_with_cell(b, 24, col as int, H_BAR, COLOR_BORDER);
                assert forall|r: int, c: int| on_screen(r, c) implies {
                    &&& #[trigger] char_at(self.screen@, r, c) == (if (r == 0 || r == 24) && c < col + 1 {
                        H_BAR
                    } else {
                        char_at(s0, r, c)
                    })
                    &&& color_at(self.screen@, r, c) == (if (r == 0 || r == 24) && c < col + 1 {
                        COLOR_BORDER
                    } else {
                        color_at(s0, r, c)
                    })
                } by {
                    lemma_with_cell_at(a, 0, col as int, H_BAR, COLOR_BORDER, r, c);
                    lemma_with_cell_at(b, 24, col as int, H_BAR, COLOR_BORDER, r, c);
                }
            }
            col = col + 1;
        }
        let mut row: usize = 0;
        while row < HEIGHT
            invariant
                row <= 25,
                self.screen.wf(),
                s0.len() == 4000,
                self@ == (GameView { screen: self.screen@, ..old(self)@ }),
                forall|r: int, c: int|
                    on_screen(r, c) ==> {
                        &&& #[trigger] char_at(self.screen@, r, c) == (if (c == 0 || c == 79) && r < row {
                            V_BAR
                        } else if r == 0 || r == 24 {
                            H_BAR
                        } else {
                            char_at(s0, r, c)
                        })
                        &&& color_at(self.screen@, r, c) == (if (c == 0 || c == 79) && r < row || r == 0 || r
                            == 24 {
                            COLOR_BORDER
                        } else {
                            color_at(s0, r, c)
                        })
                    },
            decreases 25 - row,
        {
            let ghost a = self.screen@;
            write_char(&mut self.screen, row, 0, V_BAR, COLOR_BORDER);
            let ghost b = self.screen@;
            write_char(&mut self.screen, row, WIDTH - 1, V_BAR, COLOR_BORDER);
            proof {
                lemma_with_cell(a, row as int, 0, V_BAR, COLOR_BORDER);
                lemma_with_cell(b, row as int, 79, V_BAR, COLOR_BORDER);
                assert forall|r: int, c: int| on_screen(r, c) implies {
                    &&& #[trigger] char_at(self.screen@, r, c) == (if (c == 0 || c == 79) && r < row + 1 {
                        V_BAR
                    } else if r == 0 || r == 24 {
                        H_BAR
                    } else {
                        char_at(s0, r, c)
                    })
                    &&& color_at(self.screen@, r, c) == (if (c == 0 || c == 79) && r < row + 1 || r == 0 || r
                        == 24 {
                        COLOR_BORDER
                    } else {
                        color_at(s0, r, c)
                    })
                } by {
                    if r == row && c == 79 {
                        assert(char_at(self.screen@, r, c) == V_BAR);
                    } else if r == row && c == 0 {
                        assert(char_at(b, r, c) == V_BAR);
                        assert(char_at(self.screen@, r, c) == char_at(b, r, c));
                        assert(color_at(self.screen@, r, c) == color_at(b, r, c));
                    } else {
                        assert(char_at(self.screen@, r, c) == char_at(b, r, c));
                        assert(color_at(self.screen@, r, c) == color_at(b, r, c));
                        assert(char_at(b, r, c) == char_at(a, r, c));
                        assert(color_at(b, r, c) == color_at(a, r, c));
                    }
                }
            }
            row = row + 1;
        }
        let ghost a = self.screen@;
        write_char(&mut self.screen, 0, 0, TL, COLOR_BORDER);
        let ghost b = self.screen@;
        write_char(&mut self.screen, 0, WIDTH - 1, TR, COLOR_BORDER);
        let ghost c1 = self.screen@;
        write_char(&mut self.screen, HEIGHT - 1, 0, BL, COLOR_BORDER);
        let ghost d = self.screen@;
        write_char(&mut self.screen, HEIGHT - 1, WIDTH - 1, BR, COLOR_BORDER);
        proof {
            lemma_with_cell(a, 0, 0, TL, COLOR_BORDER);
            lemma_with_cell(b, 0, 79, TR, COLOR_BORDER);
            lemma_with_cell(c1, 24, 0, BL, COLOR_BORDER);
            lemma_with_cell(d, 24, 79, BR, COLOR_BORDER);
            let goal = bordered(s0);
            assert forall|r: int, c: int| on_screen(r, c) implies #[trigger] char_at(self.screen@, r, c) == char_at(
                goal, r, c) && color_at(self.screen@, r, c) == color_at(goal, r, c) by {
                lemma_bordered(s0, r, c);
                assert(char_at(a, r, c) == (if c == 0 || c == 79 { V_BAR } else if r == 0 || r == 24 { H_BAR } else { char_at(s0, r, c) }));
                assert(char_at(self.screen@, r, c) == char_at(goal, r, c));
                assert(color_at(self.screen@, r, c) == color_at(goal, r, c));
            }
            lemma_screen_ext(self.screen@, goal);
        }
    }

    /// Remembers `(row, col)` as the food's place and draws the food there.
    pub fn place_food(&mut self, row: usize, col: usize)
        requires
            old(self)@.screen.len() == 4000,
            row < 25,
            col < 80,
        ensures
            final(self)@ == (GameView {
                food: (row, col),
                screen: with_cell(old(self)@.screen, row as int, col as int, FOOD, COLOR_FOOD),
                ..old(self)@
            }),
    {
        self.food_row = row;
        self.food_col = col;
        write_char(&mut self.screen, row, col, FOOD, COLOR_FOOD);
    }

    /// Draws seeds until one designates a cell of the play area off the
    /// snake, and gives that cell; the seed advances with each draw. The
    /// seeds run through all 2^64 values, so the limit of draws is never
    /// reached while the snake leaves a cell free; `None` means the snake
    /// fills the play area.
    pub fn next_food_pos(&mut self) -> (pos: Option<(usize, usize)>)
        ensures
            final(self)@ == (GameView {
                seed: food_search(old(self)@.seed, old(self)@.snake, FOOD_SEARCH_LIMIT as nat).0,
                ..old(self)@
            }),
            pos == food_search(old(self)@.seed, old(self)@.snake, FOOD_SEARCH_LIMIT as nat).1,
            pos matches Some(p) ==> in_play_area(p) && !old(self)@.snake.contains(p),
            old(self)@.snake.len() < PLAY_AREA ==> pos is Some,
    {
        proof {
            lemma_food_search(self.rand_seed, self.snek@, FOOD_SEARCH_LIMIT as nat);
            if self.snek@.len() < PLAY_AREA {
                let p = lemma_short_snake_leaves_free_cell(self.snek@);
                lemma_free_cell_is_found(self.rand_seed, self.snek@, p);
            }
        }
        let (seed, pos) = search_food(self.rand_seed, &self.snek);
        self.rand_seed = seed;
        pos
    }

    /// Shows the losing screen and gives the exit code for a lost game.
    pub fn game_over(&mut self) -> (code: u32)
        requires
            old(self)@.screen.len() == 4000,
        ensures
            final(self)@ == (GameView { screen: over_screen(), ..old(self)@ }),
            code == QEMU_FAIL,
    {
        self.clear_screen();
        let msg = over_message_bytes();
        let col = (WIDTH - msg.len()) / 2;
        self.screen.write_text(12, col, msg.as_slice(), 0x4F);
        QEMU_FAIL
    }

    /// Shows the winning screen and gives the exit code for a won game.
    pub fn game_win(&mut self) -> (code: u32)
        requires
            old(self)@.screen.len() == 4000,
        ensures
            final(self)@ == (GameView { screen: win_screen(), ..old(self)@ }),
            code == QEMU_PASS,
    {
        self.clear_screen();
        let msg = win_message_bytes();
        let col = (WIDTH - msg.len()) / 2;
        self.screen.write_text(12, col, msg.as_slice(), 0x2F);
        QEMU_PASS
    }

    /// Sets up a game: blank bordered screen, a snake of three cells on row 12
    /// heading from column 10 to 12, food at (5, 20), and the prompt. The
    /// three cells are added behind the snake there was.
    pub fn init_game(&mut self)
        requires
            old(self)@.screen.len() == 4000,
        ensures
            final(self)@ == (GameView {
                food: (5usize, 20usize),
                snake: old(self)@.snake + seq![(12usize, 10usize), (12usize, 11usize), (12usize, 12usize)],
                screen: start_screen(),
                ..old(self)@
            }),
            old(self)@.snake.len() == 0 ==> final(self).wf(),
    {
        self.clear_screen();
        self.draw_border();
        self.snek.push_back((12, 10));
        self.snek.push_back((12, 11));
        self.snek.push_back((12, 12));
        write_char(&mut self.screen, 12, 10, SNAKE, COLOR_SNAKE);
        write_char(&mut self.screen, 12, 11, SNAKE, COLOR_SNAKE);
        write_char(&mut self.screen, 12, 12, SNAKE, COLOR_SNAKE);
        self.place_food(5, 20);
        let msg = start_message_bytes();
        let col = (WIDTH - msg.len()) / 2;
        self.screen.write_text(23, col, msg.as_slice(), 0x0B);
        proof {
            assert(self@.snake =~= old(self)@.snake + seq![(12usize, 10usize), (12usize, 11usize), (12usize, 12usize)]);
            if old(self)@.snake.len() == 0 {
                lemma_start_screen_wf();
            }
        }
    }

    /// Moves the snake one cell in its direction, at tick count `tick`.
    ///
    /// Running into the border or into the snake ends the game. Otherwise the
    /// head moves on; on food the snake grows, the seed is renewed from the
    /// tick count, and new food is placed unless the snake now fills the play
    /// area, which wins the game; elsewhere the tail cell is cleared.
    pub fn update(&mut self, tick: u64) -> (outcome: Outcome)
        requires
            old(self).wf(),
        ensures
            (final(self)@, outcome) == step(old(self)@, tick),
            outcome == Outcome::Continue ==> final(self).wf(),
    {
        proof {
            lemma_next_cell(self@);
            lemma_step_keeps_wf(self@, tick);
        }
        let ghost g = self@;
        let dir = self.direction;
        let head = self.snek[self.snek.len() - 1];
        proof {
            assert(in_play_area(self.snek@[self.snek@.len() - 1]));
        }
        let (new_row, new_col): (usize, usize) = if dir == DIR_RIGHT {
            (head.0, head.1 + 1)
        } else if dir == DIR_LEFT {
            (head.0, head.1 - 1)
        } else if dir == DIR_UP {
            (head.0 - 1, head.1)
        } else if dir == DIR_DOWN {
            (head.0 + 1, head.1)
        } else {
            (head.0, head.1 + 1)
        };
        let cell = read_char(&self.screen, new_row, new_col);
        if cell == H_BAR || cell == V_BAR || cell == TL || cell == TR || cell == BL || cell == BR
            || cell == SNAKE {
            self.game_over();
            return Outcome::GameOver;
        }
        let ate_food = cell == FOOD;
        self.snek.push_back((new_row, new_col));
        write_char(&mut self.screen, new_row, new_col, SNAKE, COLOR_SNAKE);
        if ate_food {
            self.rand_seed = tick.wrapping_mul(TICK_MUL);
            if self.snek.len() >= PLAY_AREA {
                self.game_win();
                return Outcome::Won;
            }
            match self.next_food_pos() {
                Some(p) => {
                    self.place_food(p.0, p.1);
                },
                None => {},
            }
            Outcome::Continue
        } else {
            let tail = self.snek.pop_front().unwrap();
            proof {
                assert(self.snek@ =~= g.snake.push((new_row, new_col)).drop_first());
            }
            write_char(&mut self.screen, tail.0, tail.1, EMPTY, COLOR_NORMAL);
            Outcome::Continue
        }
    }

    /// Whether the game is in a state where the snake can move: the check
    /// that `update` needs.
    pub fn can_move(&self) -> (b: bool)
        ensures
            b == self.wf(),
    {
        if self.screen.as_bytes().len() != 4000 {
            return false;
        }
        let mut r: usize = 0;
        while r < HEIGHT
            invariant
                r <= 25,
                self.screen.wf(),
                forall|r2: int, c2: int| on_border(r2, c2) && r2 < r ==> is_wall(#[trigger] char_at(self.screen@, r2, c2)),
            decreases 25 - r,
        {
            let mut c: usize = 0;
            while c < WIDTH
                invariant
                    r < 25,
                    c <= 80,
                    self.screen.wf(),
                    forall|r2: int, c2: int|
                        on_border(r2, c2) && (r2 < r || (r2 == r && c2 < c)) ==> is_wall(
                            #[trigger] char_at(self.screen@, r2, c2),
                        ),
                decreases 80 - c,
            {
                if r == 0 || r == HEIGHT - 1 || c == 0 || c == WIDTH - 1 {
                    let ch = self.screen.read_char(r, c);
                    if !(ch == H_BAR || ch == V_BAR || ch == TL || ch == TR || ch == BL || ch == BR) {
                        return false;
                    }
                }
                c = c + 1;
            }
            r = r + 1;
        }
        let n = self.snek.len();
        if n == 0 {
            return false;
        }
        let mut i: usize = 0;
        while i < n
            invariant
                i <= n,
                n == self.snek@.len(),
                self.screen.wf(),
                forall|k: int|
                    0 <= k < i ==> in_play_area(#[trigger] self.snek@[k]) && char_at(
                        self.screen@,
                        self.snek@[k].0 as int,
                        self.snek@[k].1 as int,
                    ) == SNAKE,
                forall|k: int, l: int| 0 <= k < i && k < l < n ==> self.snek@[k] != self.snek@[l],
            decreases n - i,
        {
            let seg = self.snek[i];
            if !(1 <= seg.0 && seg.0 <= 23 && 1 <= seg.1 && seg.1 <= 78) {
                return false;
            }
            if self.screen.read_char(seg.0, seg.1) != SNAKE {
                return false;
            }
            let mut j: usize = i + 1;
            while j < n
                invariant
                    i < j <= n,
                    n == self.snek@.len(),
                    seg == self.snek@[i as int],
                    forall|l: int| i < l < j ==> self.snek@[i as int] != self.snek@[l],
                decreases n - j,
            {
                let other = self.snek[j];
                if other.0 == seg.0 && other.1 == seg.1 {
                    return false;
                }
                j = j + 1;
            }
            i = i + 1;
        }
        true
    }

    /// Turns the snake.
    pub fn set_direction(&mut self, dir: u8)
        ensures
            final(self)@ == (GameView { direction: dir, ..old(self)@ }),
    {
        self.direction = dir;
    }
}

} // verus!
