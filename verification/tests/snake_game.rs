use osirs::snake::{
    read_char, write_char, Game, Outcome, BL, BR, COLOR_FOOD, COLOR_NORMAL, COLOR_SNAKE, DIR_DOWN,
    DIR_LEFT, DIR_UP, EMPTY, FOOD, H_BAR, QEMU_FAIL, QEMU_PASS, SNAKE, TL, TR, V_BAR,
};
use osirs::screen::Screen;

fn started() -> Game {
    let mut g = Game::new();
    g.init_game();
    g
}

fn text_at(s: &Screen, row: usize, col: usize, len: usize) -> Vec<u8> {
    (0..len).map(|i| s.read_char(row, col + i)).collect()
}

#[test]
fn write_then_read_char() {
    let mut s = Screen::new();
    write_char(&mut s, 3, 4, b'x', 0x1e);
    assert_eq!(read_char(&s, 3, 4), b'x');
    assert_eq!(s.read_color(3, 4), 0x1e);
    assert_eq!(read_char(&s, 3, 5), 0);
    assert_eq!(s.as_bytes()[(3 * 80 + 4) * 2], b'x');
}

#[test]
fn new_game_defaults() {
    let g = Game::new();
    assert_eq!(g.direction(), 0);
    assert_eq!(g.food(), (12, 20));
    assert_eq!(g.seed(), 1);
    assert!(g.segments().is_empty());
}

#[test]
fn clear_screen_blanks_every_cell() {
    let mut g = Game::new();
    g.clear_screen();
    for r in 0..25 {
        for c in 0..80 {
            assert_eq!(g.screen().read_char(r, c), EMPTY);
            assert_eq!(g.screen().read_color(r, c), COLOR_NORMAL);
        }
    }
}

#[test]
fn border_is_drawn_with_corners() {
    let mut g = Game::new();
    g.clear_screen();
    g.draw_border();
    let s = g.screen();
    assert_eq!(s.read_char(0, 0), TL);
    assert_eq!(s.read_char(0, 79), TR);
    assert_eq!(s.read_char(24, 0), BL);
    assert_eq!(s.read_char(24, 79), BR);
    assert_eq!(s.read_char(0, 40), H_BAR);
    assert_eq!(s.read_char(24, 1), H_BAR);
    assert_eq!(s.read_char(10, 0), V_BAR);
    assert_eq!(s.read_char(10, 79), V_BAR);
    assert_eq!(s.read_char(10, 40), EMPTY);
}

#[test]
fn init_game_lays_out_the_board() {
    let g = started();
    assert_eq!(g.segments(), vec![(12, 10), (12, 11), (12, 12)]);
    assert_eq!(g.food(), (5, 20));
    let s = g.screen();
    for c in 10..13 {
        assert_eq!(s.read_char(12, c), SNAKE);
        assert_eq!(s.read_color(12, c), COLOR_SNAKE);
    }
    assert_eq!(s.read_char(5, 20), FOOD);
    assert_eq!(s.read_color(5, 20), COLOR_FOOD);
    assert_eq!(text_at(s, 23, 26, 27), b"PRESS ANY WASD-KEY TO START".to_vec());
    assert_eq!(s.read_color(23, 26), 0x0B);
}

#[test]
fn update_moves_head_and_clears_tail() {
    let mut g = started();
    assert_eq!(g.update(0), Outcome::Continue);
    assert_eq!(g.segments(), vec![(12, 11), (12, 12), (12, 13)]);
    assert_eq!(g.screen().read_char(12, 13), SNAKE);
    assert_eq!(g.screen().read_char(12, 10), EMPTY);
    assert_eq!(g.screen().read_color(12, 10), COLOR_NORMAL);
}

#[test]
fn update_turns_down() {
    let mut g = started();
    g.set_direction(DIR_DOWN);
    assert_eq!(g.update(0), Outcome::Continue);
    assert_eq!(g.segments(), vec![(12, 11), (12, 12), (13, 12)]);
}

#[test]
fn unknown_direction_moves_right() {
    let mut g = started();
    g.set_direction(9);
    assert_eq!(g.update(0), Outcome::Continue);
    assert_eq!(g.segments(), vec![(12, 11), (12, 12), (12, 13)]);
}

#[test]
fn running_into_the_wall_ends_the_game() {
    let mut g = started();
    g.set_direction(DIR_UP);
    for _ in 0..11 {
        assert_eq!(g.update(0), Outcome::Continue);
    }
    assert_eq!(g.segments().last(), Some(&(1, 12)));
    assert_eq!(g.update(0), Outcome::GameOver);
    let s = g.screen();
    assert_eq!(text_at(s, 12, 35, 9), b"GAME OVER".to_vec());
    assert_eq!(s.read_color(12, 35), 0x4F);
    assert_eq!(s.read_char(0, 0), EMPTY);
}

#[test]
fn turning_back_into_the_snake_ends_the_game() {
    let mut g = started();
    g.set_direction(DIR_LEFT);
    assert_eq!(g.update(0), Outcome::GameOver);
    assert_eq!(g.segments().len(), 3);
}

#[test]
fn eating_food_grows_and_reseeds() {
    let mut g = started();
    g.place_food(12, 13);
    assert_eq!(g.update(5), Outcome::Continue);
    assert_eq!(g.segments(), vec![(12, 10), (12, 11), (12, 12), (12, 13)]);
    assert_eq!(g.seed(), 3198757649837228256);
    assert_eq!(g.food(), (4, 53));
    assert_eq!(g.screen().read_char(4, 53), FOOD);
}

#[test]
fn next_food_pos_from_first_seed() {
    let mut g = started();
    assert_eq!(g.next_food_pos(), Some((10, 41)));
    assert_eq!(g.seed(), 7806831264735756412);
}

#[test]
fn next_food_pos_avoids_the_snake() {
    let mut g = Game::new();
    g.init_game();
    for _ in 0..50 {
        let p = g.next_food_pos().unwrap();
        assert!(!g.segments().contains(&p));
        assert!(p.0 >= 1 && p.0 <= 23 && p.1 >= 1 && p.1 <= 78);
    }
}

#[test]
fn game_over_and_win_screens() {
    let mut g = started();
    assert_eq!(g.game_win(), QEMU_PASS);
    assert_eq!(text_at(g.screen(), 12, 36, 8), b"YOU WIN!".to_vec());
    assert_eq!(g.screen().read_color(12, 36), 0x2F);
    assert_eq!(g.game_over(), QEMU_FAIL);
    assert_eq!(text_at(g.screen(), 12, 35, 9), b"GAME OVER".to_vec());
    assert_eq!(g.screen().read_char(12, 44), EMPTY);
}

#[test]
fn border_survives_the_game() {
    let mut g = started();
    g.set_direction(DIR_DOWN);
    for _ in 0..5 {
        assert_eq!(g.update(7), Outcome::Continue);
    }
    g.set_direction(DIR_LEFT);
    for _ in 0..5 {
        assert_eq!(g.update(7), Outcome::Continue);
    }
    let s = g.screen();
    for c in 1..79 {
        assert_eq!(s.read_char(0, c), H_BAR);
        assert_eq!(s.read_char(24, c), H_BAR);
    }
    for r in 1..24 {
        assert_eq!(s.read_char(r, 0), V_BAR);
        assert_eq!(s.read_char(r, 79), V_BAR);
    }
    assert_eq!(g.segments().len(), 3);
    for (r, c) in g.segments() {
        assert_eq!(s.read_char(r, c), SNAKE);
    }
}

#[test]
fn write_char_past_last_column_lands_on_next_row() {
    let mut s = Screen::new();
    write_char(&mut s, 2, 85, b'z', 0x07);
    assert_eq!(read_char(&s, 3, 5), b'z');
    assert_eq!(read_char(&s, 2, 85), b'z');
    assert_eq!(s.read_color(3, 5), 0x07);
    write_char(&mut s, 0, 1999, b'e', 0x01);
    assert_eq!(read_char(&s, 24, 79), b'e');
}

#[test]
fn can_move_only_in_a_running_game() {
    let mut g = Game::new();
    assert!(!g.can_move());
    g.init_game();
    assert!(g.can_move());
    g.set_direction(DIR_LEFT);
    assert_eq!(g.update(0), Outcome::GameOver);
    assert!(!g.can_move());
}
