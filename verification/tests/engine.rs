use game_of_life::universe::{FillPolicy, Universe};
use game_of_life::rules::Pattern;

fn live_cells(u: &Universe) -> Vec<(u32, u32)> {
    let w = u.width();
    let h = u.height();
    let snap = u.cells();
    let mut out = Vec::new();
    for r in 0..h {
        for c in 0..w {
            if snap[(r * w + c) as usize] {
                out.push((r, c));
            }
        }
    }
    out
}

#[test]
fn new_all_dead() {
    let u = Universe::new(5, 5, FillPolicy::AllDead);
    assert_eq!(u.width(), 5);
    assert_eq!(u.height(), 5);
    let snap = u.cells();
    assert_eq!(snap.len(), 25);
    assert!(snap.iter().all(|b| !b));
}

#[test]
fn new_uniform_random_reflects_every_draw() {
    let draws = vec![true, false, false, true, true, false];
    let u = Universe::new(3, 2, FillPolicy::UniformRandom(draws.clone()));
    assert_eq!(u.cells(), draws);
}

#[test]
fn new_named_pattern_places_glider() {
    let u = Universe::new(5, 5, FillPolicy::NamedPattern(1, 1, Pattern::Glider));
    let mut expected = vec![(0, 1), (1, 2), (2, 0), (2, 1), (2, 2)];
    expected.sort();
    assert_eq!(live_cells(&u), expected);
}

#[test]
fn toggle_cell_flips_one_cell() {
    let mut u = Universe::new(4, 4, FillPolicy::AllDead);
    u.toggle_cell(2, 3);
    assert_eq!(live_cells(&u), vec![(2, 3)]);
    u.toggle_cell(2, 3);
    assert!(live_cells(&u).is_empty());
}

#[test]
fn set_cells_wraps_and_is_additive() {
    let mut u = Universe::new(4, 4, FillPolicy::AllDead);
    u.set_cells(&[(5, 6)]);
    assert_eq!(live_cells(&u), vec![(1, 2)]);
    u.set_cells(&[(0, 0)]);
    assert_eq!(live_cells(&u), vec![(0, 0), (1, 2)]);
}

#[test]
fn seeding_disjoint_sets_commutes() {
    let a: &[(u32, u32)] = &[(0, 0), (1, 1)];
    let b: &[(u32, u32)] = &[(2, 2), (3, 0)];
    let mut u1 = Universe::new(4, 4, FillPolicy::AllDead);
    u1.set_cells(a);
    u1.set_cells(b);
    let mut u2 = Universe::new(4, 4, FillPolicy::AllDead);
    u2.set_cells(b);
    u2.set_cells(a);
    assert_eq!(u1.cells(), u2.cells());
    assert_eq!(live_cells(&u1), vec![(0, 0), (1, 1), (2, 2), (3, 0)]);
}

#[test]
fn clear_kills_everything_and_neighbor_counts_drop_to_zero() {
    let mut u = Universe::new(6, 4, FillPolicy::AllDead);
    u.randomize(&vec![true; 24]);
    u.clear();
    assert!(live_cells(&u).is_empty());
    for r in 0..4 {
        for c in 0..6 {
            assert_eq!(u.live_neighbor_count(r, c), 0);
        }
    }
}

#[test]
fn clear_is_idempotent() {
    let mut u = Universe::new(5, 3, FillPolicy::AllDead);
    u.set_cells(&[(0, 0), (2, 4), (1, 1)]);
    u.clear();
    let once = u.cells();
    u.clear();
    assert_eq!(u.cells(), once);
}

#[test]
fn randomize_reflects_the_supplied_draws_exactly() {
    let mut u = Universe::new(3, 3, FillPolicy::AllDead);
    let draws = vec![false, true, false, true, false, true, false, false, true];
    u.randomize(&draws);
    assert_eq!(u.cells(), draws);
}

#[test]
fn neighbor_counts_of_a_blinker() {
    let mut u = Universe::new(5, 5, FillPolicy::AllDead);
    u.set_cells(&[(2, 1), (2, 2), (2, 3)]);
    assert_eq!(u.live_neighbor_count(2, 2), 2);
    assert_eq!(u.live_neighbor_count(2, 1), 1);
    assert_eq!(u.live_neighbor_count(1, 2), 3);
    assert_eq!(u.live_neighbor_count(0, 2), 0);
}

#[test]
fn neighbor_count_is_toroidally_symmetric() {
    let mut u = Universe::new(5, 4, FillPolicy::AllDead);
    u.set_cells(&[(0, 0), (3, 4), (1, 2)]);
    for r in 0..4 {
        for c in 0..5 {
            assert_eq!(
                u.live_neighbor_count(r, c),
                u.live_neighbor_count(r + 4, c + 5)
            );
        }
    }
}

#[test]
fn neighbor_count_on_degenerate_grids_counts_overlaps() {
    let mut u = Universe::new(1, 1, FillPolicy::AllDead);
    u.toggle_cell(0, 0);
    assert_eq!(u.live_neighbor_count(0, 0), 8);

    let mut v = Universe::new(2, 2, FillPolicy::AllDead);
    v.toggle_cell(0, 0);
    assert_eq!(v.live_neighbor_count(1, 1), 4);
}

#[test]
fn block_is_a_still_life() {
    let mut u = Universe::new(6, 6, FillPolicy::AllDead);
    u.set_cells(&[(2, 2), (2, 3), (3, 2), (3, 3)]);
    let before = u.cells();
    u.tick();
    assert_eq!(u.cells(), before);
}

#[test]
fn blinker_oscillates_with_period_two() {
    let mut u = Universe::new(5, 5, FillPolicy::AllDead);
    u.set_cells(&[(2, 1), (2, 2), (2, 3)]);
    let original = u.cells();
    u.tick();
    assert_ne!(u.cells(), original);
    assert_eq!(live_cells(&u), vec![(1, 2), (2, 2), (3, 2)]);
    u.tick();
    assert_eq!(u.cells(), original);
    assert_eq!(live_cells(&u), vec![(2, 1), (2, 2), (2, 3)]);
}

#[test]
fn glider_translates_one_down_one_right_every_four_generations() {
    let mut u = Universe::new(10, 10, FillPolicy::AllDead);
    u.add_glider(3, 3);
    assert_eq!(
        live_cells(&u),
        vec![(2, 3), (3, 4), (4, 2), (4, 3), (4, 4)]
    );
    for _ in 0..4 {
        u.tick();
    }
    assert_eq!(
        live_cells(&u),
        vec![(3, 4), (4, 5), (5, 3), (5, 4), (5, 5)]
    );
}

#[test]
fn glider_placement_wraps_at_the_edges() {
    let mut u = Universe::new(5, 5, FillPolicy::AllDead);
    u.add_glider(0, 0);
    assert_eq!(
        live_cells(&u),
        vec![(0, 1), (1, 0), (1, 1), (1, 4), (4, 0)]
    );
}

#[test]
fn pulsar_has_48_cells_and_period_three() {
    let mut u = Universe::new(17, 17, FillPolicy::AllDead);
    u.add_pulsar(8, 8);
    let original = u.cells();
    assert_eq!(live_cells(&u).len(), 48);
    u.tick();
    assert_ne!(u.cells(), original);
    u.tick();
    assert_ne!(u.cells(), original);
    u.tick();
    assert_eq!(u.cells(), original);
}

#[test]
fn spaceship_pattern_places_nine_cells() {
    let mut u = Universe::new(8, 8, FillPolicy::AllDead);
    u.seed_pattern(1, 1, Pattern::Spaceship);
    assert_eq!(
        live_cells(&u),
        vec![
            (1, 2),
            (1, 5),
            (2, 1),
            (3, 1),
            (3, 5),
            (4, 1),
            (4, 2),
            (4, 3),
            (4, 4)
        ]
    );
}

#[test]
fn resize_is_destructive_and_sets_the_new_length() {
    let mut u = Universe::new(4, 4, FillPolicy::AllDead);
    u.set_cells(&[(0, 0), (1, 1), (3, 3)]);
    u.set_width(7);
    assert_eq!(u.width(), 7);
    assert_eq!(u.height(), 4);
    let snap = u.cells();
    assert_eq!(snap.len(), 28);
    assert!(snap.iter().all(|b| !b));

    u.set_cells(&[(2, 2)]);
    u.set_height(3);
    assert_eq!(u.height(), 3);
    let snap = u.cells();
    assert_eq!(snap.len(), 21);
    assert!(snap.iter().all(|b| !b));
}

#[test]
fn render_draws_glyphs_row_by_row() {
    let mut u = Universe::new(2, 2, FillPolicy::AllDead);
    u.toggle_cell(0, 0);
    assert_eq!(u.render(), "◼ \n  \n");
    u.clear();
    assert_eq!(u.render(), "  \n  \n");
}

#[test]
fn get_cells_exposes_the_backing_bits() {
    let mut u = Universe::new(3, 2, FillPolicy::AllDead);
    u.toggle_cell(1, 2);
    let bits = u.get_cells();
    assert!(bits.contains(5));
    assert!(!bits.contains(0));
    assert_eq!(bits.len(), 6);
}

#[test]
fn end_to_end_blinker_scenario() {
    let mut u = Universe::new(5, 5, FillPolicy::AllDead);
    assert!(live_cells(&u).is_empty());
    u.set_cells(&[(2, 1), (2, 2), (2, 3)]);
    u.tick();
    assert_eq!(live_cells(&u), vec![(1, 2), (2, 2), (3, 2)]);
    u.tick();
    assert_eq!(live_cells(&u), vec![(2, 1), (2, 2), (2, 3)]);
}
