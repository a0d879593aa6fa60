//! General laws of the engine, stated over the model and proved once for
//! all grids.

use vstd::prelude::*;
use crate::rules::{
    grid_ok,
    wrap_index,
    live_neighbors,
    dead_grid,
    clear_model,
    seeded,
    seed_hit,
    step,
    grid_of,
    Pattern,
    pattern_cells,
    lemma_wrap_index_bounds,
    lemma_alive_at_shift,
    lemma_index_coords,
    lemma_mod_near,
    lemma_neighbors_resolved,
};
use vstd::arithmetic::div_mod::lemma_fundamental_div_mod_converse;

verus! {

/// The four cells of a two-by-two block whose top-left corner is (r, c).
pub open spec fn block_at(r: int, c: int) -> spec_fn(int, int) -> bool {
    |x: int, y: int| (x == r || x == r + 1) && (y == c || y == c + 1)
}

/// The three cells of a horizontal blinker centered at (r, c).
pub open spec fn row_trio_at(r: int, c: int) -> spec_fn(int, int) -> bool {
    |x: int, y: int| x == r && c - 1 <= y <= c + 1
}

/// The three cells of a vertical blinker centered at (r, c).
pub open spec fn col_trio_at(r: int, c: int) -> spec_fn(int, int) -> bool {
    |x: int, y: int| y == c && r - 1 <= x <= r + 1
}

/// Still-life invariance: a two-by-two block of live cells placed away from
/// the grid's edges is unchanged by one generation step.
pub proof fn lemma_block_still_life(w: int, h: int, r: int, c: int)
    requires
        4 <= w,
        4 <= h,
        1 <= r,
        r + 2 < h,
        1 <= c,
        c + 2 < w,
    ensures
        step(grid_of(w, h, block_at(r, c)), w, h) == grid_of(w, h, block_at(r, c)),
{
    let p = block_at(r, c);
    let s = grid_of(w, h, p);
    assert forall|i: int| 0 <= i < s.len() implies step(s, w, h)[i] == s[i] by {
        lemma_index_coords(w, h, i);
        lemma_neighbors_resolved(w, h, p, i / w, i % w);
    }
    assert(step(s, w, h) =~= s);
}

/// On a cleared grid every cell has zero live neighbors, whatever row and
/// column are queried.
pub proof fn lemma_cleared_has_no_neighbors(s: Seq<bool>, w: int, h: int, r: int, c: int)
    requires
        grid_ok(s, w, h),
        s == dead_grid(w, h),
    ensures
        live_neighbors(s, w, h, r, c) == 0,
{
    lemma_wrap_index_bounds(w, h, r - 1, c - 1);
    lemma_wrap_index_bounds(w, h, r - 1, c);
    lemma_wrap_index_bounds(w, h, r - 1, c + 1);
    lemma_wrap_index_bounds(w, h, r, c - 1);
    lemma_wrap_index_bounds(w, h, r, c + 1);
    lemma_wrap_index_bounds(w, h, r + 1, c - 1);
    lemma_wrap_index_bounds(w, h, r + 1, c);
    lemma_wrap_index_bounds(w, h, r + 1, c + 1);
}

/// Toroidal symmetry of the neighbor count: relabeling the queried cell by
/// a full height and width turn yields the same count.
pub proof fn lemma_neighbor_count_toroidal(s: Seq<bool>, w: int, h: int, r: int, c: int)
    requires
        grid_ok(s, w, h),
    ensures
        live_neighbors(s, w, h, r + h, c + w) == live_neighbors(s, w, h, r, c),
{
    lemma_alive_at_shift(s, w, h, r - 1, c - 1, 1, 1);
    lemma_alive_at_shift(s, w, h, r - 1, c, 1, 1);
    lemma_alive_at_shift(s, w, h, r - 1, c + 1, 1, 1);
    lemma_alive_at_shift(s, w, h, r, c - 1, 1, 1);
    lemma_alive_at_shift(s, w, h, r, c + 1, 1, 1);
    lemma_alive_at_shift(s, w, h, r + 1, c - 1, 1, 1);
    lemma_alive_at_shift(s, w, h, r + 1, c, 1, 1);
    lemma_alive_at_shift(s, w, h, r + 1, c + 1, 1, 1);
}

/// One step turns a horizontal blinker away from the edges into the
/// vertical blinker with the same center.
pub proof fn lemma_blinker_turns_vertical(w: int, h: int, r: int, c: int)
    requires
        2 <= r,
        r + 3 <= h,
        2 <= c,
        c + 3 <= w,
    ensures
        step(grid_of(w, h, row_trio_at(r, c)), w, h) == grid_of(w, h, col_trio_at(r, c)),
{
    let p = row_trio_at(r, c);
    let q = col_trio_at(r, c);
    let s = grid_of(w, h, p);
    assert forall|i: int| 0 <= i < s.len() implies step(s, w, h)[i] == grid_of(w, h, q)[i] by {
        lemma_index_coords(w, h, i);
        lemma_neighbors_resolved(w, h, p, i / w, i % w);
    }
    assert(step(s, w, h) =~= grid_of(w, h, q));
}

/// One step turns a vertical blinker away from the edges into the
/// horizontal blinker with the same center.
pub proof fn lemma_blinker_turns_horizontal(w: int, h: int, r: int, c: int)
    requires
        2 <= r,
        r + 3 <= h,
        2 <= c,
        c + 3 <= w,
    ensures
        step(grid_of(w, h, col_trio_at(r, c)), w, h) == grid_of(w, h, row_trio_at(r, c)),
{
    let p = col_trio_at(r, c);
    let q = row_trio_at(r, c);
    let s = grid_of(w, h, p);
    assert forall|i: int| 0 <= i < s.len() implies step(s, w, h)[i] == grid_of(w, h, q)[i] by {
        lemma_index_coords(w, h, i);
        lemma_neighbors_resolved(w, h, p, i / w, i % w);
    }
    assert(step(s, w, h) =~= grid_of(w, h, q));
}

/// Oscillation: a blinker away from the edges returns to its original
/// configuration after exactly two steps, and differs from it after one.
pub proof fn lemma_blinker_period_two(w: int, h: int, r: int, c: int)
    requires
        2 <= r,
        r + 3 <= h,
        2 <= c,
        c + 3 <= w,
    ensures
        step(step(grid_of(w, h, row_trio_at(r, c)), w, h), w, h) == grid_of(
            w,
            h,
            row_trio_at(r, c),
        ),
        step(grid_of(w, h, row_trio_at(r, c)), w, h) != grid_of(w, h, row_trio_at(r, c)),
{
    lemma_blinker_turns_vertical(w, h, r, c);
    lemma_blinker_turns_horizontal(w, h, r, c);
    let above = (r - 1) * w + c;
    assert(0 <= above < w * h) by (nonlinear_arith)
        requires
            1 <= r - 1 < h,
            0 <= c < w,
            above == (r - 1) * w + c,
    ;
    lemma_fundamental_div_mod_converse(above, w, r - 1, c);
    assert(grid_of(w, h, col_trio_at(r, c))[above] == true);
    assert(grid_of(w, h, row_trio_at(r, c))[above] == false);
}

/// The five cells of a glider anchored at (r, c), as the seeder places it.
pub open spec fn glider_phase0_at(r: int, c: int) -> spec_fn(int, int) -> bool {
    |x: int, y: int|
        (x == r - 1 && y == c) || (x == r && y == c + 1) || (x == r + 1 && (y == c - 1 || y == c
            || y == c + 1))
}

/// The glider one generation after `glider_phase0_at(r, c)`.
pub open spec fn glider_phase1_at(r: int, c: int) -> spec_fn(int, int) -> bool {
    |x: int, y: int|
        (x == r && (y == c - 1 || y == c + 1)) || (x == r + 1 && (y == c || y == c + 1)) || (x == r
            + 2 && y == c)
}

/// The glider two generations after `glider_phase0_at(r, c)`.
pub open spec fn glider_phase2_at(r: int, c: int) -> spec_fn(int, int) -> bool {
    |x: int, y: int|
        (x == r && y == c + 1) || (x == r + 1 && (y == c - 1 || y == c + 1)) || (x == r + 2 && (y
            == c || y == c + 1))
}

/// The glider three generations after `glider_phase0_at(r, c)`.
pub open spec fn glider_phase3_at(r: int, c: int) -> spec_fn(int, int) -> bool {
    |x: int, y: int|
        (x == r && y == c) || (x == r + 1 && (y == c + 1 || y == c + 2)) || (x == r + 2 && (y == c
            || y == c + 1))
}

/// Glider translation: a glider away from the edges reproduces its own
/// five-cell shape one row down and one column right after four steps.
pub proof fn lemma_glider_translates(w: int, h: int, r: int, c: int)
    requires
        2 <= r,
        r + 4 <= h,
        2 <= c,
        c + 4 <= w,
    ensures
        step(
            step(step(step(grid_of(w, h, glider_phase0_at(r, c)), w, h), w, h), w, h),
            w,
            h,
        ) == grid_of(w, h, glider_phase0_at(r + 1, c + 1)),
{
    lemma_glider_phase01(w, h, r, c);
    lemma_glider_phase12(w, h, r, c);
    lemma_glider_phase23(w, h, r, c);
    lemma_glider_phase30(w, h, r, c);
}

proof fn lemma_glider_phase01(w: int, h: int, r: int, c: int)
    requires
        2 <= r,
        r + 4 <= h,
        2 <= c,
        c + 4 <= w,
    ensures
        step(grid_of(w, h, glider_phase0_at(r, c)), w, h) == grid_of(w, h, glider_phase1_at(r, c)),
{
    let p = glider_phase0_at(r, c);
    let q = glider_phase1_at(r, c);
    let s = grid_of(w, h, p);
    assert forall|i: int| 0 <= i < s.len() implies step(s, w, h)[i] == grid_of(w, h, q)[i] by {
        lemma_index_coords(w, h, i);
        lemma_neighbors_resolved(w, h, p, i / w, i % w);
    }
    assert(step(s, w, h) =~= grid_of(w, h, q));
}

proof fn lemma_glider_phase12(w: int, h: int, r: int, c: int)
    requires
        2 <= r,
        r + 4 <= h,
        2 <= c,
        c + 4 <= w,
    ensures
        step(grid_of(w, h, glider_phase1_at(r, c)), w, h) == grid_of(w, h, glider_phase2_at(r, c)),
{
    let p = glider_phase1_at(r, c);
    let q = glider_phase2_at(r, c);
    let s = grid_of(w, h, p);
    assert forall|i: int| 0 <= i < s.len() implies step(s, w, h)[i] == grid_of(w, h, q)[i] by {
        lemma_index_coords(w, h, i);
        lemma_neighbors_resolved(w, h, p, i / w, i % w);
    }
    assert(step(s, w, h) =~= grid_of(w, h, q));
}

proof fn lemma_glider_phase23(w: int, h: int, r: int, c: int)
    requires
        2 <= r,
        r + 4 <= h,
        2 <= c,
        c + 4 <= w,
    ensures
        step(grid_of(w, h, glider_phase2_at(r, c)), w, h) == grid_of(w, h, glider_phase3_at(r, c)),
{
    let p = glider_phase2_at(r, c);
    let q = glider_phase3_at(r, c);
    let s = grid_of(w, h, p);
    assert forall|i: int| 0 <= i < s.len() implies step(s, w, h)[i] == grid_of(w, h, q)[i] by {
        lemma_index_coords(w, h, i);
        lemma_neighbors_resolved(w, h, p, i / w, i % w);
    }
    assert(step(s, w, h) =~= grid_of(w, h, q));
}

proof fn lemma_glider_phase30(w: int, h: int, r: int, c: int)
    requires
        2 <= r,
        r + 4 <= h,
        2 <= c,
        c + 4 <= w,
    ensures
        step(grid_of(w, h, glider_phase3_at(r, c)), w, h) == grid_of(
            w,
            h,
            glider_phase0_at(r + 1, c + 1),
        ),
{
    let p = glider_phase3_at(r, c);
    let q = glider_phase0_at(r + 1, c + 1);
    let s = grid_of(w, h, p);
    assert forall|i: int| 0 <= i < s.len() implies step(s, w, h)[i] == grid_of(w, h, q)[i] by {
        lemma_index_coords(w, h, i);
        lemma_neighbors_resolved(w, h, p, i / w, i % w);
    }
    assert(step(s, w, h) =~= grid_of(w, h, q));
}

/// Seeding a glider on an all-dead grid, with its whole box in range,
/// produces exactly the glider's starting phase.
pub proof fn lemma_glider_seeding_matches_phase0(w: int, h: int, r: int, c: int)
    requires
        1 <= r,
        r + 1 < h,
        1 <= c,
        c + 1 < w,
    ensures
        seeded(dead_grid(w, h), w, h, pattern_cells(Pattern::Glider, r, c)) == grid_of(
            w,
            h,
            glider_phase0_at(r, c),
        ),
{
    let pts = pattern_cells(Pattern::Glider, r, c);
    let p = glider_phase0_at(r, c);
    let a = seeded(dead_grid(w, h), w, h, pts);
    let b = grid_of(w, h, p);
    assert(pts[0] == (r - 1, c));
    assert(pts[1] == (r, c + 1));
    assert(pts[2] == (r + 1, c - 1));
    assert(pts[3] == (r + 1, c));
    assert(pts[4] == (r + 1, c + 1));
    assert forall|k: int| 0 <= k < 5 implies #[trigger] wrap_index(w, h, pts[k].0, pts[k].1)
        == pts[k].0 * w + pts[k].1 by {
        lemma_mod_near(pts[k].0, h);
        lemma_mod_near(pts[k].1, w);
    }
    assert forall|i: int| 0 <= i < a.len() implies a[i] == b[i] by {
        lemma_index_coords(w, h, i);
        let ri = i / w;
        let ci = i % w;
        if seed_hit(pts, w, h, i) {
            let k = choose|k: int|
                0 <= k < pts.len() && #[trigger] wrap_index(w, h, pts[k].0, pts[k].1) == i;
            lemma_fundamental_div_mod_converse(i, w, pts[k].0, pts[k].1);
        }
        if p(ri, ci) {
            if ri == r - 1 && ci == c {
                assert(wrap_index(w, h, pts[0].0, pts[0].1) == i);
            } else if ri == r && ci == c + 1 {
                assert(wrap_index(w, h, pts[1].0, pts[1].1) == i);
            } else if ri == r + 1 && ci == c - 1 {
                assert(wrap_index(w, h, pts[2].0, pts[2].1) == i);
            } else if ri == r + 1 && ci == c {
                assert(wrap_index(w, h, pts[3].0, pts[3].1) == i);
            } else {
                assert(wrap_index(w, h, pts[4].0, pts[4].1) == i);
            }
            assert(seed_hit(pts, w, h, i));
        }
    }
    assert(a =~= b);
}

/// Clearing is idempotent: clearing an already cleared grid changes nothing.
pub proof fn lemma_clear_idempotent(s: Seq<bool>)
    ensures
        clear_model(clear_model(s)) =~= clear_model(s),
{
}

/// Seeding is additive and order-independent: seeding `a` then `b` forces
/// alive exactly the union of the two hit sets, the same as `b` then `a`.
pub proof fn lemma_seed_additive(s: Seq<bool>, w: int, h: int, a: Seq<(int, int)>, b: Seq<
    (int, int),
>)
    requires
        grid_ok(s, w, h),
    ensures
        seeded(seeded(s, w, h, a), w, h, b) =~= seeded(seeded(s, w, h, b), w, h, a),
        forall|i: int|
            0 <= i < s.len() ==> seeded(seeded(s, w, h, a), w, h, b)[i] == (s[i] || seed_hit(
                a,
                w,
                h,
                i,
            ) || seed_hit(b, w, h, i)),
{
}

/// Resizing is destructive: the replacement grid has the new length and
/// holds no live cell at all.
pub proof fn lemma_resize_destroys(new_w: int, new_h: int)
    requires
        1 <= new_w,
        1 <= new_h,
    ensures
        dead_grid(new_w, new_h).len() == new_w * new_h,
        forall|i: int| 0 <= i < new_w * new_h ==> !dead_grid(new_w, new_h)[i],
{
}

} // verus!
