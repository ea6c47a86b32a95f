//! The seed sequence of the snake's food runs through every 64-bit value:
//! its multiplier is 1 modulo 4 and its increment is odd, so its period is
//! the full 2^64. Hence a free cell of the play area is always found.
use vstd::prelude::*;
use vstd::arithmetic::power2::{pow2, lemma_pow2_unfold, lemma_pow2_adds, lemma_pow2_pos, lemma2_to64};
use vstd::arithmetic::div_mod::{
    lemma_add_mod_noop, lemma_mul_mod_noop_right, lemma_mod_mod, lemma_mod_multiples_vanish,
    lemma_breakdown, lemma_mod_add_multiples_vanish, lemma_fundamental_div_mod,
    lemma_fundamental_div_mod_converse_mod,
};
use vstd::set_lib::{set_int_range, lemma_int_range, lemma_len_subset};
use crate::snake::{lcg, food_cell, food_search, in_play_area, LCG_MUL, LCG_INC, FOOD_SEARCH_LIMIT, PLAY_AREA};

verus! {

/// 2^64.
pub open spec fn modulus() -> int {
    0x1_0000_0000_0000_0000
}

/// One step of the sequence, on integers.
pub open spec fn step_int(z: int) -> int {
    (LCG_MUL * z + LCG_INC) % modulus()
}

/// `n` steps of the sequence from `z`, on integers.
pub open spec fn iter_int(z: int, n: nat) -> int
    decreases n,
{
    if n == 0 {
        z
    } else {
        iter_int(step_int(z), (n - 1) as nat)
    }
}

/// `n` steps of the seed sequence from `s`.
pub open spec fn lcg_iter(s: u64, n: nat) -> u64
    decreases n,
{
    if n == 0 {
        s
    } else {
        lcg_iter(lcg(s), (n - 1) as nat)
    }
}

/// A step of the seed sequence is the integer step.
pub proof fn lemma_lcg_is_step(s: u64)
    ensures
        lcg(s) as int == step_int(s as int),
{
    let m = modulus();
    let w = vstd::wrapping::u64_specs::wrapping_mul(s, LCG_MUL);
    assert(w as int == (s * LCG_MUL) % m);
    lemma_add_mod_noop(s * LCG_MUL, LCG_INC as int, m);
    assert((LCG_INC as int) % m == LCG_INC as int);
    assert((w as int + LCG_INC as int) % m == (s * LCG_MUL + LCG_INC) % m);
}

/// Steps of the seed sequence are steps on integers.
pub proof fn lemma_iter_agree(s: u64, n: nat)
    ensures
        lcg_iter(s, n) as int == iter_int(s as int, n),
    decreases n,
{
    if n > 0 {
        lemma_lcg_is_step(s);
        lemma_iter_agree(lcg(s), (n - 1) as nat);
    }
}

/// Running `m` steps and then `n` steps is running `m + n` steps.
pub proof fn lemma_iter_add(z: int, m: nat, n: nat)
    ensures
        iter_int(z, m + n) == iter_int(iter_int(z, m), n),
    decreases m,
{
    if m > 0 {
        lemma_iter_add(step_int(z), (m - 1) as nat, n);
        assert((m + n - 1) as nat == ((m - 1) as nat + n) as nat);
    }
}

/// Steps stay below 2^64.
pub proof fn lemma_iter_range(z: int, n: nat)
    requires
        0 <= z < modulus(),
    ensures
        0 <= iter_int(z, n) < modulus(),
    decreases n,
{
    if n > 0 {
        lemma_iter_range(step_int(z), (n - 1) as nat);
    }
}

/// Reducing before an affine map changes nothing modulo 2^64.
proof fn lemma_affine_mod(a: int, b: int, y: int)
    ensures
        (a * (y % modulus()) + b) % modulus() == (a * y + b) % modulus(),
{
    let m = modulus();
    lemma_mul_mod_noop_right(a, y, m);
    lemma_add_mod_noop(a * (y % m), b, m);
    lemma_add_mod_noop(a * y, b, m);
}

/// `2^k` steps form an affine map `z -> A z + C` modulo 2^64 whose
/// multiplier is 1 modulo `2^(k+2)` and whose increment is `2^k` times an
/// odd number.
pub proof fn lemma_doubling(k: nat) -> (r: (int, int, int, int))
    ensures
        r.0 == 1 + pow2(k + 2) * r.2,
        r.1 == pow2(k) * (2 * r.3 + 1),
        forall|z: int| #[trigger] iter_int(z, pow2(k)) == (r.0 * z + r.1) % modulus(),
    decreases k,
{
    lemma2_to64();
    if k == 0 {
        let a = LCG_MUL as int;
        let c = LCG_INC as int;
        let t = (a - 1) / 4;
        let v = (c - 1) / 2;
        assert(a == 1 + 4 * t);
        assert(c == 2 * v + 1);
        assert forall|z: int| #[trigger] iter_int(z, pow2(k)) == (a * z + c) % modulus() by {
            assert(iter_int(z, 1) == iter_int(step_int(z), 0));
        }
        (a, c, t, v)
    } else {
        let km = (k - 1) as nat;
        let (a0, c0, t0, v0) = lemma_doubling(km);
        let p = pow2(km) as int;
        let q = pow2(k) as int;
        let qq = pow2(k + 1) as int;
        let qqq = pow2(k + 2) as int;
        lemma_pow2_unfold(k);
        lemma_pow2_unfold(k + 1);
        lemma_pow2_unfold(k + 2);
        assert(pow2(km + 2) == pow2(k + 1));
        assert(q == 2 * p && qq == 2 * q && qqq == 2 * qq);
        let a = a0 * a0;
        let c = c0 * (a0 + 1);
        let t = t0 + q * t0 * t0;
        let v = v0 + p * t0 * (2 * v0 + 1);
        assert(a == 1 + qqq * t) by (nonlinear_arith)
            requires
                a == a0 * a0,
                a0 == 1 + qq * t0,
                qq == 2 * q,
                qqq == 2 * qq,
                t == t0 + q * t0 * t0,
        ;
        assert(c == q * (2 * v + 1)) by (nonlinear_arith)
            requires
                c == c0 * (a0 + 1),
                a0 == 1 + qq * t0,
                c0 == p * (2 * v0 + 1),
                q == 2 * p,
                qq == 2 * q,
                v == v0 + p * t0 * (2 * v0 + 1),
        ;
        assert forall|z: int| #[trigger] iter_int(z, pow2(k)) == (a * z + c) % modulus() by {
            lemma_iter_add(z, pow2(km), pow2(km));
            assert(pow2(km) + pow2(km) == pow2(k));
            let y = a0 * z + c0;
            assert(iter_int(z, pow2(km)) == y % modulus());
            lemma_affine_mod(a0, c0, y);
            assert(a0 * y + c0 == a * z + c) by (nonlinear_arith)
                requires
                    y == a0 * z + c0,
                    a == a0 * a0,
                    c == c0 * (a0 + 1),
            ;
        }
        (a, c, t, v)
    }
}

/// `2^k` steps add `2^k` modulo `2^(k+1)`.
pub proof fn lemma_half_step(k: nat, z: int)
    requires
        k <= 63,
    ensures
        iter_int(z, pow2(k)) % (pow2(k + 1) as int) == (z + pow2(k)) % (pow2(k + 1) as int),
{
    let (a, c, t, v) = lemma_doubling(k);
    let p = pow2(k) as int;
    let pp = pow2(k + 1) as int;
    lemma_pow2_unfold(k + 1);
    lemma_pow2_unfold(k + 2);
    lemma_pow2_pos(k + 1);
    lemma_pow2_pos((63 - k) as nat);
    lemma_pow2_adds(k + 1, (63 - k) as nat);
    lemma2_to64();
    assert(k + 1 + (63 - k) as nat == 64);
    let rest = pow2((63 - k) as nat) as int;
    assert(pp * rest == modulus());
    lemma_mod_mod(a * z + c, pp, rest);
    let w = 2 * t * z + v;
    assert(a * z + c == pp * w + (z + p)) by (nonlinear_arith)
        requires
            a == 1 + pow2(k + 2) * t,
            pow2(k + 2) == 2 * pp,
            c == p * (2 * v + 1),
            pp == 2 * p,
            w == 2 * t * z + v,
    ;
    lemma_mod_multiples_vanish(w, z + p, pp);
}

/// `2^64` steps return to the start.
pub proof fn lemma_full_period(z: int)
    requires
        0 <= z < modulus(),
    ensures
        iter_int(z, pow2(64)) == z,
{
    let (a, c, t, v) = lemma_doubling(64);
    lemma2_to64();
    lemma_pow2_unfold(65);
    lemma_pow2_unfold(66);
    let m = modulus();
    let w = 4 * t * z + 2 * v + 1;
    assert(a * z + c == m * w + z) by (nonlinear_arith)
        requires
            a == 1 + pow2(66) * t,
            pow2(66) == 2 * pow2(65),
            pow2(65) == 2 * pow2(64),
            pow2(64) == m,
            c == m * (2 * v + 1),
            w == 4 * t * z + 2 * v + 1,
    ;
    lemma_mod_multiples_vanish(w, z, m);
}

/// From `x`, some number of steps below `2^k` agrees with `y` modulo `2^k`.
pub proof fn lemma_reach(x: int, y: int, k: nat) -> (n: nat)
    requires
        0 <= x < modulus(),
        0 <= y,
        k <= 64,
    ensures
        n < pow2(k),
        iter_int(x, n) % (pow2(k) as int) == y % (pow2(k) as int),
    decreases k,
{
    lemma2_to64();
    if k == 0 {
        0
    } else {
        let km = (k - 1) as nat;
        let n0 = lemma_reach(x, y, km);
        let z = iter_int(x, n0);
        lemma_iter_range(x, n0);
        let p = pow2(km) as int;
        lemma_pow2_unfold(k);
        lemma_pow2_pos(km);
        let pp = pow2(k) as int;
        assert(pp == p * 2);
        lemma_breakdown(z, p, 2);
        lemma_breakdown(y, p, 2);
        if z % pp == y % pp {
            n0
        } else {
            lemma_iter_add(x, n0, pow2(km));
            lemma_half_step(km, z);
            lemma_breakdown(z + p, p, 2);
            lemma_mod_add_multiples_vanish(z, p);
            lemma_fundamental_div_mod(z, p);
            let zq = z / p;
            let zr = z % p;
            assert(z + p == p * (zq + 1) + zr) by (nonlinear_arith)
                requires
                    z == p * zq + zr,
            ;
            lemma_fundamental_div_mod(z + p, p);
            assert((z + p) / p == z / p + 1) by {
                let q1 = (z + p) / p;
                let q0 = z / p + 1;
                assert(p * q1 == p * q0) by {
                    assert((z + p) % p == z % p);
                }
                assert(q1 == q0) by (nonlinear_arith)
                    requires
                        p * q1 == p * q0,
                        p > 0,
                ;
            }
            (n0 + pow2(km)) as nat
        }
    }
}

/// From any seed, every seed is reached in fewer than 2^64 steps.
pub proof fn lemma_reach_seed(x: u64, y: u64) -> (n: nat)
    ensures
        n < modulus(),
        lcg_iter(x, n) == y,
{
    lemma2_to64();
    let n = lemma_reach(x as int, y as int, 64);
    lemma_iter_range(x as int, n);
    lemma_iter_agree(x, n);
    let i = iter_int(x as int, n);
    assert(i % modulus() == i);
    assert((y as int) % modulus() == y as int);
    n
}

/// The seed sequence has period 2^64.
pub proof fn lemma_seed_period(s: u64)
    ensures
        lcg_iter(s, modulus() as nat) == s,
{
    lemma2_to64();
    lemma_full_period(s as int);
    lemma_iter_agree(s, pow2(64));
}

/// If the `n`-th draw from `x` designates a free cell, a search with at
/// least `n` draws finds a cell, the same as a search with exactly `n`.
pub proof fn lemma_search_within(x: u64, snake: Seq<(usize, usize)>, n: nat, fuel: nat)
    requires
        1 <= n <= fuel,
        !snake.contains(food_cell(lcg_iter(x, n))),
    ensures
        food_search(x, snake, fuel).1 is Some,
        food_search(x, snake, fuel) == food_search(x, snake, n),
    decreases n,
{
    let s = lcg(x);
    if snake.contains(food_cell(s)) {
        if n == 1 {
            assert(lcg_iter(x, 1) == lcg_iter(s, 0));
        } else {
            assert(lcg_iter(x, n) == lcg_iter(s, (n - 1) as nat));
            lemma_search_within(s, snake, (n - 1) as nat, (fuel - 1) as nat);
            lemma_search_within(s, snake, (n - 1) as nat, (n - 1) as nat);
        }
    }
}

/// Two distinct seeds that designate the cell `p` of the play area.
pub proof fn lemma_cell_seeds(p: (usize, usize)) -> (r: (u64, u64))
    requires
        in_play_area(p),
    ensures
        r.0 != r.1,
        food_cell(r.0) == p,
        food_cell(r.1) == p,
{
    let h = (p.0 - 1) as int;
    let c = (p.1 - 1) as int;
    let m = (c - h * 65536) % 78;
    let q = (c - h * 65536) / 78;
    lemma_fundamental_div_mod(c - h * 65536, 78);
    assert(h * 65536 + m == c + 78 * (-q));
    lemma_mod_multiples_vanish(-q, c, 78);
    assert((h * 65536 + m) % 78 == c);
    let y0 = (h * 0x2_0000_0000 + m * 0x2_0000) as u64;
    let y1 = (y0 + 1) as u64;
    assert(y0 as int == h * 0x2_0000_0000 + m * 0x2_0000);
    assert(y0 >> 33u64 == y0 / 0x2_0000_0000u64) by (bit_vector);
    assert(y0 >> 17u64 == y0 / 0x2_0000u64) by (bit_vector);
    assert(y1 >> 33u64 == y1 / 0x2_0000_0000u64) by (bit_vector);
    assert(y1 >> 17u64 == y1 / 0x2_0000u64) by (bit_vector);
    assert(y0 / 0x2_0000_0000u64 == h);
    assert(y1 / 0x2_0000_0000u64 == h);
    assert(y0 / 0x2_0000u64 == h * 65536 + m);
    assert(y1 / 0x2_0000u64 == h * 65536 + m);
    (y0, y1)
}

/// A free cell of the play area is always found: the search from any seed
/// gives a cell whenever the snake leaves one free.
pub proof fn lemma_free_cell_is_found(seed: u64, snake: Seq<(usize, usize)>, p: (usize, usize))
    requires
        in_play_area(p),
        !snake.contains(p),
    ensures
        food_search(seed, snake, FOOD_SEARCH_LIMIT as nat).1 is Some,
{
    let (y0, y1) = lemma_cell_seeds(p);
    let y = if y0 != seed { y0 } else { y1 };
    let n = lemma_reach_seed(seed, y);
    assert(n != 0);
    lemma_search_within(seed, snake, n, FOOD_SEARCH_LIMIT as nat);
}

/// While a cell is free, a draw that lands on the snake leads to a search
/// from the drawn seed, as if started afresh there.
pub proof fn lemma_food_search_retry(seed: u64, snake: Seq<(usize, usize)>, p: (usize, usize))
    requires
        in_play_area(p),
        !snake.contains(p),
    ensures
        food_search(seed, snake, FOOD_SEARCH_LIMIT as nat) == (if snake.contains(food_cell(lcg(seed))) {
            food_search(lcg(seed), snake, FOOD_SEARCH_LIMIT as nat)
        } else {
            (lcg(seed), Some(food_cell(lcg(seed))))
        }),
{
    let s1 = lcg(seed);
    let limit = FOOD_SEARCH_LIMIT as nat;
    if snake.contains(food_cell(s1)) {
        let (y0, y1) = lemma_cell_seeds(p);
        let y = if y0 != seed { y0 } else { y1 };
        let n = lemma_reach_seed(s1, y);
        assert(y != s1);
        assert(n != 0);
        lemma2_to64();
        lemma_seed_period(seed);
        assert(lcg_iter(seed, modulus() as nat) == lcg_iter(s1, (modulus() - 1) as nat));
        assert(n != modulus() - 1);
        lemma_search_within(s1, snake, n, (limit - 1) as nat);
        lemma_search_within(s1, snake, n, limit);
    }
}

/// The number of a cell of the play area, row by row from 0.
pub open spec fn play_index(p: (usize, usize)) -> int {
    (p.0 - 1) * 78 + (p.1 - 1)
}

/// A snake shorter than the play area leaves a cell of it free.
pub proof fn lemma_short_snake_leaves_free_cell(snake: Seq<(usize, usize)>) -> (p: (usize, usize))
    requires
        snake.len() < PLAY_AREA,
    ensures
        in_play_area(p),
        !snake.contains(p),
{
    if forall|q: (usize, usize)| in_play_area(q) ==> snake.contains(q) {
        let ids = snake.map_values(|q: (usize, usize)| play_index(q));
        lemma_int_range(0, 1794);
        assert forall|k: int| set_int_range(0, 1794).contains(k) implies ids.to_set().contains(k) by {
            let q = ((k / 78 + 1) as usize, (k % 78 + 1) as usize);
            assert(in_play_area(q));
            assert(snake.contains(q));
            let i = choose|i: int| 0 <= i < snake.len() && snake[i] == q;
            assert(ids[i] == play_index(q));
            assert(play_index(q) == k);
            assert(ids.contains(k));
        }
        ids.lemma_cardinality_of_set();
        lemma_len_subset(set_int_range(0, 1794), ids.to_set());
        assert(false);
    }
    choose|q: (usize, usize)| in_play_area(q) && !snake.contains(q)
}

} // verus!
