//! The grid engine: the packed cell grid with its dimensions and every
//! operation on it.

use vstd::prelude::*;
use vstd::arithmetic::div_mod::{
    lemma_mod_bound,
    lemma_mod_multiples_vanish,
    lemma_fundamental_div_mod_converse,
};
use vstd::arithmetic::mul::lemma_mul_inequality;
use vstd::string::StringExecFns;
use fixedbitset::FixedBitSet;
use crate::bits::{fb_bits, fb_with_capacity, fb_set, fb_get, fb_clone};
use crate::rules::{
    wrap_index,
    alive_at,
    live_neighbors,
    step,
    dead_grid,
    clear_model,
    seeded,
    int_pts,
    shifted,
    Pattern,
    pattern_offsets,
    pattern_cells,
    glyph,
    render_chars,
    lemma_alive_at_shift,
    lemma_seeded_empty,
    lemma_seeded_take_step,
};

verus! {

/// How a freshly constructed grid is filled.
pub enum FillPolicy {
    /// Every cell dead.
    AllDead,
    /// Every cell from one draw of the externally supplied uniform boolean
    /// source, row-major, one draw per cell.
    UniformRandom(Vec<bool>),
    /// All dead, then the named pattern stamped at the given anchor
    /// (row, column).
    NamedPattern(u32, u32, Pattern),
}

/// A toroidal Game of Life grid: `width * height` cells in row-major order,
/// bit-packed; the cell at row `r`, column `c` lives at linear index
/// `r * width + c`.
pub struct Universe {
    width: u32,
    height: u32,
    cells: FixedBitSet,
}

impl View for Universe {
    type V = Seq<bool>;

    closed spec fn view(&self) -> Seq<bool> {
        fb_bits(self.cells)
    }
}

impl Universe {
    /// The grid's width, as a mathematical integer.
    pub closed spec fn w(&self) -> int {
        self.width as int
    }

    /// The grid's height, as a mathematical integer.
    pub closed spec fn h(&self) -> int {
        self.height as int
    }

    /// The grid invariant: positive dimensions, a cell count that fits the
    /// machine, and exactly `width * height` stored cells.
    pub open spec fn wf(&self) -> bool {
        &&& 1 <= self.w()
        &&& 1 <= self.h()
        &&& self.w() * self.h() <= usize::MAX as int
        &&& self@.len() == self.w() * self.h()
    }

    pub fn width(&self) -> (r: u32)
        ensures
            r as int == self.w(),
    {
        self.width
    }

    pub fn height(&self) -> (r: u32)
        ensures
            r as int == self.h(),
    {
        self.height
    }

    /// Constructs a grid of the given dimensions, filled per the policy.
    pub fn new(width: u32, height: u32, fill: FillPolicy) -> (u: Universe)
        requires
            1 <= width,
            1 <= height,
            width * height <= usize::MAX,
            fill matches FillPolicy::UniformRandom(draws) ==> draws@.len() == width * height,
        ensures
            u.wf(),
            u.w() == width as int,
            u.h() == height as int,
            u@ == match fill {
                FillPolicy::AllDead => dead_grid(width as int, height as int),
                FillPolicy::UniformRandom(draws) => draws@,
                FillPolicy::NamedPattern(r, c, p) => seeded(
                    dead_grid(width as int, height as int),
                    width as int,
                    height as int,
                    pattern_cells(p, r as int, c as int),
                ),
            },
    {
        let size = ((width as u64) * (height as u64)) as usize;
        let cells = fb_with_capacity(size);
        let mut u = Universe { width, height, cells };
        proof {
            assert(u@ =~= dead_grid(width as int, height as int));
        }
        match fill {
            FillPolicy::AllDead => {},
            FillPolicy::UniformRandom(draws) => {
                u.randomize(draws.as_slice());
            },
            FillPolicy::NamedPattern(r, c, p) => {
                u.seed_pattern(r, c, p);
            },
        }
        u
    }

    /// Sets every cell to dead; the dimensions are unchanged.
    pub fn clear(&mut self)
        requires
            old(self).wf(),
        ensures
            final(self).wf(),
            final(self).w() == old(self).w(),
            final(self).h() == old(self).h(),
            final(self)@ == clear_model(old(self)@),
    {
        let w64 = self.width as u64;
        let h64 = self.height as u64;
        let n = (w64 * h64) as usize;
        let mut i: usize = 0;
        while i < n
            invariant
                old(self).wf(),
                self.w() == old(self).w(),
                self.h() == old(self).h(),
                n as int == self.w() * self.h(),
                self@.len() == n as int,
                i <= n,
                forall|j: int| 0 <= j < i as int ==> !self@[j],
            decreases n - i,
        {
            fb_set(&mut self.cells, i, false);
            i += 1;
        }
        proof {
            assert(self@ =~= clear_model(old(self)@));
        }
    }

    /// Linear index of an in-range row and column: `row * width + col`.
    fn get_index(&self, row: u32, col: u32) -> (r: usize)
        requires
            self.wf(),
            (row as int) < self.h(),
            (col as int) < self.w(),
        ensures
            r as int == row as int * self.w() + col as int,
            r < self@.len(),
    {
        proof {
            lemma_mul_inequality(row as int, self.h() - 1, self.w());
            assert((self.h() - 1) * self.w() + (self.w() - 1) < self.w() * self.h())
                by (nonlinear_arith);
        }
        ((row as u64) * (self.width as u64) + (col as u64)) as usize
    }

    /// Forces the cell at the wrapped position of (r, c) alive.
    fn set_live(&mut self, r: u64, c: u64)
        requires
            old(self).wf(),
        ensures
            final(self).wf(),
            final(self).w() == old(self).w(),
            final(self).h() == old(self).h(),
            final(self)@ == old(self)@.update(
                wrap_index(old(self).w(), old(self).h(), r as int, c as int),
                true,
            ),
    {
        let w64 = self.width as u64;
        let h64 = self.height as u64;
        let rr = r % h64;
        let cc = c % w64;
        proof {
            lemma_mod_bound(r as int, self.h());
            lemma_mod_bound(c as int, self.w());
            lemma_mul_inequality(rr as int, self.h() - 1, self.w());
            assert((self.h() - 1) * self.w() + (self.w() - 1) < self.w() * self.h())
                by (nonlinear_arith);
        }
        let idx = (rr * w64 + cc) as usize;
        fb_set(&mut self.cells, idx, true);
    }

    /// Reads the cell at the wrapped position of (r, c).
    fn live_wrapped(&self, r: u64, c: u64) -> (b: bool)
        requires
            self.wf(),
        ensures
            b == alive_at(self@, self.w(), self.h(), r as int, c as int),
    {
        let w64 = self.width as u64;
        let h64 = self.height as u64;
        let rr = r % h64;
        let cc = c % w64;
        proof {
            lemma_mod_bound(r as int, self.h());
            lemma_mod_bound(c as int, self.w());
            lemma_mul_inequality(rr as int, self.h() - 1, self.w());
            assert((self.h() - 1) * self.w() + (self.w() - 1) < self.w() * self.h())
                by (nonlinear_arith);
        }
        let idx = (rr * w64 + cc) as usize;
        fb_get(&self.cells, idx)
    }

    /// Flips the one cell at the in-range row and column.
    pub fn toggle_cell(&mut self, row: u32, col: u32)
        requires
            old(self).wf(),
            (row as int) < old(self).h(),
            (col as int) < old(self).w(),
        ensures
            final(self).wf(),
            final(self).w() == old(self).w(),
            final(self).h() == old(self).h(),
            final(self)@ == old(self)@.update(
                row as int * old(self).w() + col as int,
                !old(self)@[row as int * old(self).w() + col as int],
            ),
    {
        let idx = self.get_index(row, col);
        let cur = fb_get(&self.cells, idx);
        fb_set(&mut self.cells, idx, !cur);
    }

    /// Sets every cell from the externally supplied uniform boolean source,
    /// one draw per cell in row-major order.
    pub fn randomize(&mut self, draws: &[bool])
        requires
            old(self).wf(),
            draws@.len() == old(self)@.len(),
        ensures
            final(self).wf(),
            final(self).w() == old(self).w(),
            final(self).h() == old(self).h(),
            final(self)@ == draws@,
    {
        let w64 = self.width as u64;
        let h64 = self.height as u64;
        let n = (w64 * h64) as usize;
        let mut i: usize = 0;
        while i < n
            invariant
                old(self).wf(),
                self.w() == old(self).w(),
                self.h() == old(self).h(),
                n as int == self.w() * self.h(),
                self@.len() == n as int,
                draws@.len() == n as int,
                i <= n,
                forall|j: int| 0 <= j < i as int ==> self@[j] == draws@[j],
            decreases n - i,
        {
            let v = draws[i];
            fb_set(&mut self.cells, i, v);
            i += 1;
        }
        proof {
            assert(self@ =~= draws@);
        }
    }

    /// Replaces the grid's width; the cells are reallocated all dead at the
    /// new size (a documented, intentional loss of the prior state).
    pub fn set_width(&mut self, width: u32)
        requires
            old(self).wf(),
            1 <= width,
            width as int * old(self).h() <= usize::MAX as int,
        ensures
            final(self).wf(),
            final(self).w() == width as int,
            final(self).h() == old(self).h(),
            final(self)@ == dead_grid(width as int, old(self).h()),
    {
        self.width = width;
        let size = ((self.width as u64) * (self.height as u64)) as usize;
        self.cells = fb_with_capacity(size);
        proof {
            assert(self@ =~= dead_grid(self.w(), self.h()));
        }
    }

    /// Replaces the grid's height; the cells are reallocated all dead at the
    /// new size (a documented, intentional loss of the prior state).
    pub fn set_height(&mut self, height: u32)
        requires
            old(self).wf(),
            1 <= height,
            old(self).w() * height as int <= usize::MAX as int,
        ensures
            final(self).wf(),
            final(self).w() == old(self).w(),
            final(self).h() == height as int,
            final(self)@ == dead_grid(old(self).w(), height as int),
    {
        self.height = height;
        let size = ((self.width as u64) * (self.height as u64)) as usize;
        self.cells = fb_with_capacity(size);
        proof {
            assert(self@ =~= dead_grid(self.w(), self.h()));
        }
    }

    /// The backing bit sequence itself, for zero-copy inspection.
    pub fn get_cells(&self) -> (r: &FixedBitSet)
        ensures
            fb_bits(*r) == self@,
    {
        &self.cells
    }

    /// A row-major snapshot of the whole grid, one boolean per cell.
    pub fn cells(&self) -> (r: Vec<bool>)
        requires
            self.wf(),
        ensures
            r@ == self@,
    {
        let w64 = self.width as u64;
        let h64 = self.height as u64;
        let n = (w64 * h64) as usize;
        let mut out: Vec<bool> = Vec::new();
        let mut i: usize = 0;
        while i < n
            invariant
                self.wf(),
                n as int == self.w() * self.h(),
                i <= n,
                out@.len() == i as int,
                forall|j: int| 0 <= j < i as int ==> out@[j] == self@[j],
            decreases n - i,
        {
            let v = fb_get(&self.cells, i);
            out.push(v);
            i += 1;
        }
        proof {
            assert(out@ =~= self@);
        }
        out
    }

    /// Forces every listed (row, column) pair alive, wrapped toroidally;
    /// seeding is additive, no other cell changes.
    pub fn set_cells(&mut self, cells: &[(u32, u32)])
        requires
            old(self).wf(),
        ensures
            final(self).wf(),
            final(self).w() == old(self).w(),
            final(self).h() == old(self).h(),
            final(self)@ == seeded(old(self)@, old(self).w(), old(self).h(), int_pts(cells@)),
    {
        let ghost target = int_pts(cells@);
        let n = cells.len();
        let mut k: usize = 0;
        proof {
            lemma_seeded_empty(old(self)@, self.w(), self.h(), target);
        }
        while k < n
            invariant
                old(self).wf(),
                self.wf(),
                self.w() == old(self).w(),
                self.h() == old(self).h(),
                target == int_pts(cells@),
                n as int == target.len(),
                n as int == cells@.len(),
                k <= n,
                self@ == seeded(old(self)@, self.w(), self.h(), target.take(k as int)),
            decreases n - k,
        {
            let (r, c) = cells[k];
            proof {
                assert(target[k as int] == (r as int, c as int));
                lemma_seeded_take_step(old(self)@, self.w(), self.h(), target, k as int);
            }
            self.set_live(r as u64, c as u64);
            k += 1;
        }
        proof {
            assert(target.take(n as int) =~= target);
        }
    }

    /// Places a pattern's offsets at the anchor (row, col), each cell wrapped
    /// toroidally; the offsets must fit a small pattern box.
    fn seed_shifted(&mut self, row: u32, col: u32, shift: u32, offs: &Vec<(u32, u32)>)
        requires
            old(self).wf(),
            shift <= 6,
            forall|k: int|
                0 <= k < offs@.len() ==> (#[trigger] offs@[k]).0 <= 12 && offs@[k].1 <= 12,
        ensures
            final(self).wf(),
            final(self).w() == old(self).w(),
            final(self).h() == old(self).h(),
            final(self)@ == seeded(
                old(self)@,
                old(self).w(),
                old(self).h(),
                shifted(offs@, row as int, col as int, shift as int),
            ),
    {
        let ghost target = shifted(offs@, row as int, col as int, shift as int);
        let h64 = self.height as u64;
        let w64 = self.width as u64;
        let n = offs.len();
        let mut k: usize = 0;
        proof {
            lemma_seeded_empty(old(self)@, self.w(), self.h(), target);
        }
        while k < n
            invariant
                old(self).wf(),
                self.wf(),
                self.w() == old(self).w(),
                self.h() == old(self).h(),
                h64 as int == self.h(),
                w64 as int == self.w(),
                shift <= 6,
                forall|k: int|
                    0 <= k < offs@.len() ==> (#[trigger] offs@[k]).0 <= 12 && offs@[k].1 <= 12,
                target == shifted(offs@, row as int, col as int, shift as int),
                n as int == target.len(),
                n as int == offs@.len(),
                k <= n,
                self@ == seeded(old(self)@, self.w(), self.h(), target.take(k as int)),
            decreases n - k,
        {
            let (dr, dc) = offs[k];
            proof {
                assert(shift as int * h64 as int <= 6 * 0xffff_ffff && shift as int * h64 as int
                    >= shift as int) by (nonlinear_arith)
                    requires
                        shift as int <= 6,
                        0 <= shift as int,
                        1 <= h64 as int <= 0xffff_ffff,
                ;
                assert(shift as int * w64 as int <= 6 * 0xffff_ffff && shift as int * w64 as int
                    >= shift as int) by (nonlinear_arith)
                    requires
                        shift as int <= 6,
                        0 <= shift as int,
                        1 <= w64 as int <= 0xffff_ffff,
                ;
            }
            let sh_h = shift as u64 * h64;
            let sh_w = shift as u64 * w64;
            let r64 = row as u64 + dr as u64 + sh_h - shift as u64;
            let c64 = col as u64 + dc as u64 + sh_w - shift as u64;
            proof {
                assert(target[k as int] == (
                    row as int + dr as int - shift as int,
                    col as int + dc as int - shift as int,
                ));
                lemma_mod_multiples_vanish(
                    shift as int,
                    row as int + dr as int - shift as int,
                    self.h(),
                );
                lemma_mod_multiples_vanish(
                    shift as int,
                    col as int + dc as int - shift as int,
                    self.w(),
                );
                assert(r64 as int == self.h() * shift as int + (
                    row as int + dr as int - shift as int
                )) by (nonlinear_arith)
                    requires
                        r64 as int == row as int + dr as int + shift as int * h64 as int
                            - shift as int,
                        h64 as int == self.h(),
                ;
                assert(c64 as int == self.w() * shift as int + (
                    col as int + dc as int - shift as int
                )) by (nonlinear_arith)
                    requires
                        c64 as int == col as int + dc as int + shift as int * w64 as int
                            - shift as int,
                        w64 as int == self.w(),
                ;
                lemma_seeded_take_step(old(self)@, self.w(), self.h(), target, k as int);
            }
            self.set_live(r64, c64);
            k += 1;
        }
        proof {
            assert(target.take(n as int) =~= target);
        }
    }

    /// A human-readable text rendering: one glyph per cell, one row per
    /// line, every line newline-terminated.
    pub fn render(&self) -> (out: String)
        requires
            self.wf(),
        ensures
            out@ == render_chars(self@, self.w(), self.h()),
    {
        proof {
            reveal_strlit("◼");
            reveal_strlit(" ");
            reveal_strlit("\n");
        }
        let ghost rc = render_chars(self@, self.w(), self.h());
        let w = self.width;
        let h = self.height;
        let mut out = String::new();
        let mut row: u32 = 0;
        proof {
            assert(out@ =~= rc.take(0));
        }
        while row < h
            invariant
                self.wf(),
                w as int == self.w(),
                h as int == self.h(),
                rc == render_chars(self@, self.w(), self.h()),
                row <= h,
                out@ == rc.take(row as int * (w as int + 1)),
            decreases h - row,
        {
            let ghost line0 = row as int * (w as int + 1);
            proof {
                assert(line0 + w as int + 1 <= rc.len() && line0 >= 0) by (nonlinear_arith)
                    requires
                        rc.len() == self.h() * (self.w() + 1),
                        line0 == row as int * (w as int + 1),
                        w as int == self.w(),
                        h as int == self.h(),
                        0 <= (row as int) < self.h(),
                        1 <= self.w(),
                ;
            }
            let mut col: u32 = 0;
            while col < w
                invariant
                    self.wf(),
                    w as int == self.w(),
                    h as int == self.h(),
                    rc == render_chars(self@, self.w(), self.h()),
                    row < h,
                    col <= w,
                    line0 == row as int * (w as int + 1),
                    0 <= line0,
                    line0 + w as int + 1 <= rc.len(),
                    out@ == rc.take(line0 + col as int),
                decreases w - col,
            {
                let ghost i = line0 + col as int;
                let idx = self.get_index(row, col);
                let b = fb_get(&self.cells, idx);
                if b {
                    out.append("◼");
                } else {
                    out.append(" ");
                }
                proof {
                    reveal_strlit("◼");
                    reveal_strlit(" ");
                    lemma_fundamental_div_mod_converse(i, self.w() + 1, row as int, col as int);
                    assert(rc[i] == glyph(self@[idx as int]));
                    assert(rc.take(i + 1) =~= rc.take(i).push(rc[i]));
                    assert(out@ =~= rc.take(i).push(rc[i]));
                }
                col += 1;
            }
            out.append("\n");
            proof {
                reveal_strlit("\n");
                let i = line0 + w as int;
                lemma_fundamental_div_mod_converse(i, self.w() + 1, row as int, w as int);
                assert(rc[i] == '\n');
                assert(rc.take(i + 1) =~= rc.take(i).push(rc[i]));
                assert(out@ =~= rc.take(i + 1));
                assert(i + 1 == (row as int + 1) * (w as int + 1)) by (nonlinear_arith)
                    requires i == row as int * (w as int + 1) + w as int;
            }
            row += 1;
        }
        proof {
            assert(rc.take(h as int * (w as int + 1)) =~= rc);
        }
        out
    }

    /// Counts the live cells among the eight toroidal neighbors of
    /// (row, col); any coordinates are accepted and wrapped.  On a torus of
    /// width or height below three, one physical cell can be counted through
    /// several offsets; that degenerate self-overlap is intended.
    pub fn live_neighbor_count(&self, row: u32, col: u32) -> (count: u8)
        requires
            self.wf(),
        ensures
            count as int == live_neighbors(self@, self.w(), self.h(), row as int, col as int),
    {
        let r0 = row as u64 + self.height as u64;
        let c0 = col as u64 + self.width as u64;
        proof {
            let s = self@;
            let w = self.w();
            let h = self.h();
            let r = row as int;
            let c = col as int;
            lemma_alive_at_shift(s, w, h, r - 1, c - 1, 1, 1);
            lemma_alive_at_shift(s, w, h, r - 1, c, 1, 1);
            lemma_alive_at_shift(s, w, h, r - 1, c + 1, 1, 1);
            lemma_alive_at_shift(s, w, h, r, c - 1, 1, 1);
            lemma_alive_at_shift(s, w, h, r, c + 1, 1, 1);
            lemma_alive_at_shift(s, w, h, r + 1, c - 1, 1, 1);
            lemma_alive_at_shift(s, w, h, r + 1, c, 1, 1);
            lemma_alive_at_shift(s, w, h, r + 1, c + 1, 1, 1);
        }
        let mut count: u8 = 0;
        if self.live_wrapped(r0 - 1, c0 - 1) {
            count += 1;
        }
        if self.live_wrapped(r0 - 1, c0) {
            count += 1;
        }
        if self.live_wrapped(r0 - 1, c0 + 1) {
            count += 1;
        }
        if self.live_wrapped(r0, c0 - 1) {
            count += 1;
        }
        if self.live_wrapped(r0, c0 + 1) {
            count += 1;
        }
        if self.live_wrapped(r0 + 1, c0 - 1) {
            count += 1;
        }
        if self.live_wrapped(r0 + 1, c0) {
            count += 1;
        }
        if self.live_wrapped(r0 + 1, c0 + 1) {
            count += 1;
        }
        count
    }

    /// Advances the grid one generation under B3/S23.  Every cell's new
    /// value is computed against the pre-step grid (a second buffer keeps
    /// the update simultaneous), and the stored sequence is replaced in one
    /// step.
    pub fn tick(&mut self)
        requires
            old(self).wf(),
        ensures
            final(self).wf(),
            final(self).w() == old(self).w(),
            final(self).h() == old(self).h(),
            final(self)@ == step(old(self)@, old(self).w(), old(self).h()),
    {
        let ghost s0 = self@;
        let ghost gw = self.w();
        let ghost gh = self.h();
        let mut next = fb_clone(&self.cells);
        let w = self.width;
        let h = self.height;
        let mut row: u32 = 0;
        while row < h
            invariant
                self == old(self),
                self.wf(),
                self@ == s0,
                gw == self.w(),
                gh == self.h(),
                w as int == gw,
                h as int == gh,
                fb_bits(next).len() == s0.len(),
                row <= h,
                forall|i: int| 0 <= i < row as int * gw ==> fb_bits(next)[i] == step(s0, gw, gh)[i],
            decreases h - row,
        {
            let mut col: u32 = 0;
            while col < w
                invariant
                    self == old(self),
                    self.wf(),
                    self@ == s0,
                    gw == self.w(),
                    gh == self.h(),
                    w as int == gw,
                    h as int == gh,
                    fb_bits(next).len() == s0.len(),
                    row < h,
                    col <= w,
                    forall|i: int|
                        0 <= i < row as int * gw + col as int ==> fb_bits(next)[i] == step(
                            s0,
                            gw,
                            gh,
                        )[i],
                decreases w - col,
            {
                let idx = self.get_index(row, col);
                let cur = fb_get(&self.cells, idx);
                let n = self.live_neighbor_count(row, col);
                let alive_next = if cur {
                    n == 2 || n == 3
                } else {
                    n == 3
                };
                fb_set(&mut next, idx, alive_next);
                proof {
                    lemma_fundamental_div_mod_converse(
                        row as int * gw + col as int,
                        gw,
                        row as int,
                        col as int,
                    );
                    assert(step(s0, gw, gh)[idx as int] == alive_next);
                }
                col += 1;
            }
            proof {
                assert(row as int * gw + w as int == (row as int + 1) * gw) by (nonlinear_arith)
                    requires w as int == gw;
            }
            row += 1;
        }
        proof {
            assert(fb_bits(next) =~= step(s0, gw, gh)) by {
                assert(h as int * gw == s0.len());
            }
        }
        self.cells = next;
    }

    /// Stamps the named pattern with its anchor at (row, col), every cell
    /// wrapped toroidally and forced alive; nothing is forced dead.
    pub fn seed_pattern(&mut self, row: u32, col: u32, p: Pattern)
        requires
            old(self).wf(),
        ensures
            final(self).wf(),
            final(self).w() == old(self).w(),
            final(self).h() == old(self).h(),
            final(self)@ == seeded(
                old(self)@,
                old(self).w(),
                old(self).h(),
                pattern_cells(p, row as int, col as int),
            ),
    {
        match p {
            Pattern::Glider => {
                let offs = glider_vec();
                self.seed_shifted(row, col, 1, &offs);
            },
            Pattern::Pulsar => {
                let offs = pulsar_vec();
                self.seed_shifted(row, col, 6, &offs);
            },
            Pattern::Spaceship => {
                let offs = spaceship_vec();
                self.seed_shifted(row, col, 0, &offs);
            },
        }
    }

    /// Stamps a glider with its anchor at (row, col).
    pub fn add_glider(&mut self, row: u32, col: u32)
        requires
            old(self).wf(),
        ensures
            final(self).wf(),
            final(self).w() == old(self).w(),
            final(self).h() == old(self).h(),
            final(self)@ == seeded(
                old(self)@,
                old(self).w(),
                old(self).h(),
                pattern_cells(Pattern::Glider, row as int, col as int),
            ),
    {
        self.seed_pattern(row, col, Pattern::Glider);
    }

    /// Stamps a pulsar with its anchor at (row, col).
    pub fn add_pulsar(&mut self, row: u32, col: u32)
        requires
            old(self).wf(),
        ensures
            final(self).wf(),
            final(self).w() == old(self).w(),
            final(self).h() == old(self).h(),
            final(self)@ == seeded(
                old(self)@,
                old(self).w(),
                old(self).h(),
                pattern_cells(Pattern::Pulsar, row as int, col as int),
            ),
    {
        self.seed_pattern(row, col, Pattern::Pulsar);
    }
}

/// The glider's offset list as runtime data.
fn glider_vec() -> (v: Vec<(u32, u32)>)
    ensures
        v@ =~= pattern_offsets(Pattern::Glider),
        forall|k: int| 0 <= k < v@.len() ==> (#[trigger] v@[k]).0 <= 12 && v@[k].1 <= 12,
{
    let mut v: Vec<(u32, u32)> = Vec::new();
    v.push((0, 1));
    v.push((1, 2));
    v.push((2, 0));
    v.push((2, 1));
    v.push((2, 2));
    v
}

/// The pulsar's offset list as runtime data.
#[verifier::rlimit(50)]
fn pulsar_vec() -> (v: Vec<(u32, u32)>)
    ensures
        v@ =~= pattern_offsets(Pattern::Pulsar),
        forall|k: int| 0 <= k < v@.len() ==> (#[trigger] v@[k]).0 <= 12 && v@[k].1 <= 12,
{
    let mut v: Vec<(u32, u32)> = Vec::new();
    v.push((0, 2));
    v.push((0, 3));
    v.push((0, 4));
    v.push((0, 8));
    v.push((0, 9));
    v.push((0, 10));
    v.push((2, 0));
    v.push((2, 5));
    v.push((2, 7));
    v.push((2, 12));
    v.push((3, 0));
    v.push((3, 5));
    v.push((3, 7));
    v.push((3, 12));
    v.push((4, 0));
    v.push((4, 5));
    v.push((4, 7));
    v.push((4, 12));
    v.push((5, 2));
    v.push((5, 3));
    v.push((5, 4));
    v.push((5, 8));
    v.push((5, 9));
    v.push((5, 10));
    v.push((7, 2));
    v.push((7, 3));
    v.push((7, 4));
    v.push((7, 8));
    v.push((7, 9));
    v.push((7, 10));
    v.push((8, 0));
    v.push((8, 5));
    v.push((8, 7));
    v.push((8, 12));
    v.push((9, 0));
    v.push((9, 5));
    v.push((9, 7));
    v.push((9, 12));
    v.push((10, 0));
    v.push((10, 5));
    v.push((10, 7));
    v.push((10, 12));
    v.push((12, 2));
    v.push((12, 3));
    v.push((12, 4));
    v.push((12, 8));
    v.push((12, 9));
    v.push((12, 10));
    v
}

/// The lightweight spaceship's offset list as runtime data.
fn spaceship_vec() -> (v: Vec<(u32, u32)>)
    ensures
        v@ =~= pattern_offsets(Pattern::Spaceship),
        forall|k: int| 0 <= k < v@.len() ==> (#[trigger] v@[k]).0 <= 12 && v@[k].1 <= 12,
{
    let mut v: Vec<(u32, u32)> = Vec::new();
    v.push((0, 1));
    v.push((0, 4));
    v.push((1, 0));
    v.push((2, 0));
    v.push((2, 4));
    v.push((3, 0));
    v.push((3, 1));
    v.push((3, 2));
    v.push((3, 3));
    v
}

} // verus!
