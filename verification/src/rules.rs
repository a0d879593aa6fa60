//! The mathematical model of the game: grids as boolean sequences, the
//! toroidal neighbor rule, the B3/S23 step, and the seeding operations.

use vstd::prelude::*;
use vstd::arithmetic::div_mod::{
    lemma_mod_bound,
    lemma_mod_multiples_vanish,
    lemma_mod_add_multiples_vanish,
    lemma_mod_self_0,
    lemma_small_mod,
    lemma_div_pos_is_pos,
    lemma_multiply_divide_lt,
    lemma_fundamental_div_mod_converse,
};
use vstd::arithmetic::mul::lemma_mul_inequality;

verus! {

/// `s` is a well-formed grid state for a `w` by `h` torus.
pub open spec fn grid_ok(s: Seq<bool>, w: int, h: int) -> bool {
    &&& 1 <= w
    &&& 1 <= h
    &&& s.len() == w * h
}

/// Linear index of row `r`, column `c` after toroidal wraparound, for any
/// integers `r` and `c` (the grid has no edges).
pub open spec fn wrap_index(w: int, h: int, r: int, c: int) -> int {
    (r % h) * w + (c % w)
}

/// Liveness of the cell at row `r`, column `c`, with wraparound.
pub open spec fn alive_at(s: Seq<bool>, w: int, h: int, r: int, c: int) -> bool
    recommends
        grid_ok(s, w, h),
{
    s[wrap_index(w, h, r, c)]
}

pub open spec fn one_if(b: bool) -> int {
    if b {
        1
    } else {
        0
    }
}

/// The number of live cells among the eight toroidal neighbors of (r, c).
/// On degenerate tori (width or height 1 or 2) distinct offsets may reach
/// the same physical cell, which is then counted once per offset.
pub open spec fn live_neighbors(s: Seq<bool>, w: int, h: int, r: int, c: int) -> int
    recommends
        grid_ok(s, w, h),
{
    one_if(alive_at(s, w, h, r - 1, c - 1)) + one_if(alive_at(s, w, h, r - 1, c)) + one_if(
        alive_at(s, w, h, r - 1, c + 1),
    ) + one_if(alive_at(s, w, h, r, c - 1)) + one_if(alive_at(s, w, h, r, c + 1)) + one_if(
        alive_at(s, w, h, r + 1, c - 1),
    ) + one_if(alive_at(s, w, h, r + 1, c)) + one_if(alive_at(s, w, h, r + 1, c + 1))
}

/// The birth/survival rule B3/S23: a live cell survives with two or three
/// live neighbors, a dead cell is born with exactly three.
pub open spec fn next_alive(cur: bool, n: int) -> bool {
    if cur {
        n == 2 || n == 3
    } else {
        n == 3
    }
}

/// One simultaneous generation step: every cell's next value is computed
/// against the same pre-step grid.
pub open spec fn step(s: Seq<bool>, w: int, h: int) -> Seq<bool>
    recommends
        grid_ok(s, w, h),
{
    Seq::new(s.len(), |i: int| next_alive(s[i], live_neighbors(s, w, h, i / w, i % w)))
}

/// An all-dead grid of the given dimensions.
pub open spec fn dead_grid(w: int, h: int) -> Seq<bool> {
    Seq::new((w * h) as nat, |i: int| false)
}

/// What clearing does to a grid state: every cell dead, length kept.
pub open spec fn clear_model(s: Seq<bool>) -> Seq<bool> {
    Seq::new(s.len(), |i: int| false)
}

/// Some point of `pts` wraps onto linear index `i`.
pub open spec fn seed_hit(pts: Seq<(int, int)>, w: int, h: int, i: int) -> bool {
    exists|k: int| 0 <= k < pts.len() && #[trigger] wrap_index(w, h, pts[k].0, pts[k].1) == i
}

/// What seeding the points `pts` does to a grid state: every listed cell is
/// forced alive at its wrapped position; no other cell changes.
pub open spec fn seeded(s: Seq<bool>, w: int, h: int, pts: Seq<(int, int)>) -> Seq<bool> {
    Seq::new(s.len(), |i: int| s[i] || seed_hit(pts, w, h, i))
}

/// Caller-supplied coordinate pairs, as exact integer points.
pub open spec fn int_pts(pts: Seq<(u32, u32)>) -> Seq<(int, int)> {
    pts.map_values(|p: (u32, u32)| (p.0 as int, p.1 as int))
}

/// Pattern offsets placed at anchor (r, c): each offset pair is shifted so
/// that the anchor stands `shift` rows and columns into the pattern's box.
pub open spec fn shifted(pts: Seq<(u32, u32)>, r: int, c: int, shift: int) -> Seq<(int, int)> {
    pts.map_values(|p: (u32, u32)| (r + p.0 - shift, c + p.1 - shift))
}

/// The glyph a cell is drawn as: a filled square when alive, a space when
/// dead.
pub open spec fn glyph(b: bool) -> char {
    if b {
        '◼'
    } else {
        ' '
    }
}

/// The text rendering of a grid: one glyph per cell, row-major, each row
/// terminated by a newline, `h * (w + 1)` characters in all.
pub open spec fn render_chars(s: Seq<bool>, w: int, h: int) -> Seq<char>
    recommends
        grid_ok(s, w, h),
{
    Seq::new(
        (h * (w + 1)) as nat,
        |i: int|
            if i % (w + 1) == w {
                '\n'
            } else {
                glyph(s[(i / (w + 1)) * w + (i % (w + 1))])
            },
    )
}

/// The named multi-cell patterns the seeder can place.
#[derive(Clone, Copy, PartialEq, Eq, Structural)]
pub enum Pattern {
    /// The classical five-cell glider.
    Glider,
    /// The 48-cell period-three pulsar.
    Pulsar,
    /// The nine-cell lightweight spaceship.
    Spaceship,
}

/// The fixed offset list of a pattern, relative to the top-left corner of
/// its bounding box.
pub open spec fn pattern_offsets(p: Pattern) -> Seq<(u32, u32)> {
    match p {
        Pattern::Glider => seq![(0u32, 1u32), (1u32, 2u32), (2u32, 0u32), (2u32, 1u32), (2u32, 2u32)],
        Pattern::Pulsar => seq![
            (0u32, 2u32), (0u32, 3u32), (0u32, 4u32), (0u32, 8u32), (0u32, 9u32), (0u32, 10u32),
            (2u32, 0u32), (2u32, 5u32), (2u32, 7u32), (2u32, 12u32),
            (3u32, 0u32), (3u32, 5u32), (3u32, 7u32), (3u32, 12u32),
            (4u32, 0u32), (4u32, 5u32), (4u32, 7u32), (4u32, 12u32),
            (5u32, 2u32), (5u32, 3u32), (5u32, 4u32), (5u32, 8u32), (5u32, 9u32), (5u32, 10u32),
            (7u32, 2u32), (7u32, 3u32), (7u32, 4u32), (7u32, 8u32), (7u32, 9u32), (7u32, 10u32),
            (8u32, 0u32), (8u32, 5u32), (8u32, 7u32), (8u32, 12u32),
            (9u32, 0u32), (9u32, 5u32), (9u32, 7u32), (9u32, 12u32),
            (10u32, 0u32), (10u32, 5u32), (10u32, 7u32), (10u32, 12u32),
            (12u32, 2u32), (12u32, 3u32), (12u32, 4u32), (12u32, 8u32), (12u32, 9u32), (12u32, 10u32),
        ],
        Pattern::Spaceship => seq![
            (0u32, 1u32), (0u32, 4u32),
            (1u32, 0u32),
            (2u32, 0u32), (2u32, 4u32),
            (3u32, 0u32), (3u32, 1u32), (3u32, 2u32), (3u32, 3u32),
        ],
    }
}

/// How far the anchor stands into the pattern's bounding box: a pattern is
/// placed with its box's top-left corner `shift` rows above and `shift`
/// columns left of the anchor.
pub open spec fn pattern_shift(p: Pattern) -> int {
    match p {
        Pattern::Glider => 1,
        Pattern::Pulsar => 6,
        Pattern::Spaceship => 0,
    }
}

/// The absolute (unwrapped) cells of a pattern anchored at (r, c).
pub open spec fn pattern_cells(p: Pattern, r: int, c: int) -> Seq<(int, int)> {
    shifted(pattern_offsets(p), r, c, pattern_shift(p))
}

/// A wrapped index always lands inside the grid.
pub proof fn lemma_wrap_index_bounds(w: int, h: int, r: int, c: int)
    requires
        1 <= w,
        1 <= h,
    ensures
        0 <= wrap_index(w, h, r, c) < w * h,
{
    lemma_mod_bound(r, h);
    lemma_mod_bound(c, w);
    lemma_mul_inequality(r % h, h - 1, w);
    assert((h - 1) * w + (w - 1) < w * h) by (nonlinear_arith);
}

/// Wraparound relabeling: shifting a row query by a multiple of the height,
/// or a column query by a multiple of the width, reads the same cell.
pub proof fn lemma_alive_at_shift(s: Seq<bool>, w: int, h: int, r: int, c: int, kr: int, kc: int)
    requires
        1 <= w,
        1 <= h,
    ensures
        alive_at(s, w, h, r + kr * h, c + kc * w) == alive_at(s, w, h, r, c),
        wrap_index(w, h, r + kr * h, c + kc * w) == wrap_index(w, h, r, c),
{
    lemma_mod_multiples_vanish(kr, r, h);
    lemma_mod_multiples_vanish(kc, c, w);
    assert(r + kr * h == h * kr + r) by (nonlinear_arith);
    assert(c + kc * w == w * kc + c) by (nonlinear_arith);
}

/// The grid whose cell at row `x`, column `y` is alive exactly when
/// `p(x, y)` holds, for in-range rows and columns.
pub open spec fn grid_of(w: int, h: int, p: spec_fn(int, int) -> bool) -> Seq<bool> {
    Seq::new((w * h) as nat, |i: int| p(i / w, i % w))
}

/// Resolves a modulus whose argument lies within one step of the range.
pub proof fn lemma_mod_near(x: int, m: int)
    requires
        1 <= m,
        -1 <= x <= m,
    ensures
        x % m == if x == -1 {
            m - 1
        } else if x == m {
            0int
        } else {
            x
        },
{
    if x == -1 {
        lemma_mod_add_multiples_vanish(-1, m);
        lemma_small_mod((m - 1) as nat, m as nat);
    } else if x == m {
        lemma_mod_self_0(m);
    } else {
        lemma_small_mod(x as nat, m as nat);
    }
}

/// A linear index splits into its in-range row and column.
pub proof fn lemma_index_coords(w: int, h: int, i: int)
    requires
        1 <= w,
        1 <= h,
        0 <= i < w * h,
    ensures
        0 <= i / w < h,
        0 <= i % w < w,
        i == (i / w) * w + (i % w),
{
    lemma_mod_bound(i, w);
    lemma_div_pos_is_pos(i, w);
    lemma_multiply_divide_lt(i, w, h);
    vstd::arithmetic::div_mod::lemma_fundamental_div_mod(i, w);
    assert(i == w * (i / w) + (i % w) ==> i == (i / w) * w + (i % w)) by (nonlinear_arith);
}

/// On a predicate-defined grid, a wrapped read is the predicate at the
/// wrapped coordinates.
pub proof fn lemma_alive_grid_of(w: int, h: int, p: spec_fn(int, int) -> bool, r: int, c: int)
    requires
        1 <= w,
        1 <= h,
    ensures
        alive_at(grid_of(w, h, p), w, h, r, c) == p(r % h, c % w),
{
    lemma_mod_bound(r, h);
    lemma_mod_bound(c, w);
    lemma_wrap_index_bounds(w, h, r, c);
    lemma_fundamental_div_mod_converse((r % h) * w + (c % w), w, r % h, c % w);
}

/// One wraparound step: the value of `x % m` for `-1 <= x <= m`.
pub open spec fn near(x: int, m: int) -> int {
    if x == -1 {
        m - 1
    } else if x == m {
        0
    } else {
        x
    }
}

/// On a predicate-defined grid, the neighbor count of an in-range cell is
/// the number of its eight wrapped neighbor coordinates the predicate holds
/// at.
pub proof fn lemma_neighbors_resolved(w: int, h: int, p: spec_fn(int, int) -> bool, ri: int, ci: int)
    requires
        1 <= w,
        1 <= h,
        0 <= ri < h,
        0 <= ci < w,
    ensures
        live_neighbors(grid_of(w, h, p), w, h, ri, ci) == one_if(
            p(near(ri - 1, h), near(ci - 1, w)),
        ) + one_if(p(near(ri - 1, h), ci)) + one_if(p(near(ri - 1, h), near(ci + 1, w))) + one_if(
            p(ri, near(ci - 1, w)),
        ) + one_if(p(ri, near(ci + 1, w))) + one_if(p(near(ri + 1, h), near(ci - 1, w))) + one_if(
            p(near(ri + 1, h), ci),
        ) + one_if(p(near(ri + 1, h), near(ci + 1, w))),
{
    lemma_alive_grid_of(w, h, p, ri - 1, ci - 1);
    lemma_alive_grid_of(w, h, p, ri - 1, ci);
    lemma_alive_grid_of(w, h, p, ri - 1, ci + 1);
    lemma_alive_grid_of(w, h, p, ri, ci - 1);
    lemma_alive_grid_of(w, h, p, ri, ci + 1);
    lemma_alive_grid_of(w, h, p, ri + 1, ci - 1);
    lemma_alive_grid_of(w, h, p, ri + 1, ci);
    lemma_alive_grid_of(w, h, p, ri + 1, ci + 1);
    lemma_mod_near(ri - 1, h);
    lemma_mod_near(ri, h);
    lemma_mod_near(ri + 1, h);
    lemma_mod_near(ci - 1, w);
    lemma_mod_near(ci, w);
    lemma_mod_near(ci + 1, w);
}

/// Seeding nothing changes nothing.
pub proof fn lemma_seeded_empty(s: Seq<bool>, w: int, h: int, pts: Seq<(int, int)>)
    ensures
        seeded(s, w, h, pts.take(0)) =~= s,
{
}

/// Seeding one more point of the list is one more forced-alive update.
pub proof fn lemma_seeded_take_step(s: Seq<bool>, w: int, h: int, pts: Seq<(int, int)>, k: int)
    requires
        grid_ok(s, w, h),
        0 <= k < pts.len(),
    ensures
        seeded(s, w, h, pts.take(k + 1)) =~= seeded(s, w, h, pts.take(k)).update(
            wrap_index(w, h, pts[k].0, pts[k].1),
            true,
        ),
{
    lemma_wrap_index_bounds(w, h, pts[k].0, pts[k].1);
    let a = seeded(s, w, h, pts.take(k + 1));
    let b = seeded(s, w, h, pts.take(k)).update(wrap_index(w, h, pts[k].0, pts[k].1), true);
    assert forall|i: int| 0 <= i < a.len() implies a[i] == b[i] by {
        if seed_hit(pts.take(k + 1), w, h, i) {
            let j = choose|j: int|
                0 <= j < pts.take(k + 1).len() && #[trigger] wrap_index(
                    w,
                    h,
                    pts.take(k + 1)[j].0,
                    pts.take(k + 1)[j].1,
                ) == i;
            if j < k {
                assert(pts.take(k)[j] == pts[j]);
                assert(seed_hit(pts.take(k), w, h, i));
            }
        }
        if seed_hit(pts.take(k), w, h, i) {
            let j = choose|j: int|
                0 <= j < pts.take(k).len() && #[trigger] wrap_index(
                    w,
                    h,
                    pts.take(k)[j].0,
                    pts.take(k)[j].1,
                ) == i;
            assert(pts.take(k + 1)[j] == pts[j]);
            assert(seed_hit(pts.take(k + 1), w, h, i));
        }
        if i == wrap_index(w, h, pts[k].0, pts[k].1) {
            assert(pts.take(k + 1)[k] == pts[k]);
            assert(seed_hit(pts.take(k + 1), w, h, i));
        }
    }
}

} // verus!
