use std::collections::HashSet;

use toroidal_life::automaton::{Automaton, Grid, Life, LifeStates, MooreNeighbors};

fn collect_offsets<const RANGE: u16>(mut it: MooreNeighbors<RANGE>) -> Vec<(isize, isize)> {
    let mut all = Vec::new();
    while let Some(p) = it.next() {
        all.push(p);
    }
    all
}

#[test]
fn moore_neighborhood_zero() {
    let neighs: Vec<_> = collect_offsets(MooreNeighbors::<0>::new());
    assert_eq!(neighs, vec![(0, 0)]);
}

#[test]
fn moore_neighborhood_one() {
    let neighs: HashSet<_> = collect_offsets(MooreNeighbors::<1>::new()).into_iter().collect();
    let mut eq = vec![];
    for x in -1isize..=1 {
        for y in -1isize..=1 {
            eq.push((x, y));
        }
    }
    assert_eq!(neighs, eq.into_iter().collect());
}

#[test]
fn moore_neighborhood_two() {
    let neighs: HashSet<_> = collect_offsets(MooreNeighbors::<2>::new()).into_iter().collect();
    let mut eq = vec![];
    for x in -2isize..=2 {
        for y in -2isize..=2 {
            eq.push((x, y));
        }
    }
    assert_eq!(neighs, eq.into_iter().collect());
}

#[test]
fn moore_neighborhood_row_major_order() {
    let neighs = collect_offsets(MooreNeighbors::<1>::new());
    let mut eq = vec![];
    for y in -1isize..=1 {
        for x in -1isize..=1 {
            eq.push((x, y));
        }
    }
    assert_eq!(neighs, eq);
}

#[test]
fn moore_neighborhood_restartable() {
    let first = collect_offsets(MooreNeighbors::<2>::new());
    let second = collect_offsets(MooreNeighbors::<2>::new());
    assert_eq!(first, second);
    assert_eq!(first.len(), 25);
}

#[test]
fn grid_generate_dimensions_and_default() {
    let g: Grid<LifeStates> = Grid::generate(3, 2);
    assert_eq!(g.width(), 3);
    assert_eq!(g.height(), 2);
    for x in 0..3isize {
        for y in 0..2isize {
            assert_eq!(*g.get(x, y), LifeStates::Dead);
        }
    }
}

#[test]
fn grid_wrap_equals_canonical() {
    let mut g: Grid<LifeStates> = Grid::generate(4, 3);
    g.set(1, 2, LifeStates::Alife);
    assert_eq!(*g.get(1, 2), LifeStates::Alife);
    assert_eq!(*g.get(5, 5), LifeStates::Alife);
    assert_eq!(*g.get(-3, -1), LifeStates::Alife);
    assert_eq!(*g.get(1 + 4 * 1000, 2 - 3 * 999), LifeStates::Alife);
    assert_eq!(*g.get(-7, 2), LifeStates::Alife);
    assert_eq!(*g.get(2, 2), LifeStates::Dead);
}

#[test]
fn grid_wrap_exact_negative_multiple_is_zero() {
    // A negative coordinate that is an exact multiple of the dimension
    // wraps to index 0 (the documented choice for the boundary case).
    let mut g: Grid<LifeStates> = Grid::generate(4, 4);
    g.set(0, 0, LifeStates::Alife);
    assert_eq!(*g.get(-4, 0), LifeStates::Alife);
    assert_eq!(*g.get(0, -8), LifeStates::Alife);
    assert_eq!(*g.get(-4000, -8000), LifeStates::Alife);
    assert_eq!(*g.get(isize::MIN, isize::MIN), LifeStates::Alife);
}

#[test]
fn grid_set_through_wrap() {
    let mut g: Grid<LifeStates> = Grid::generate(4, 3);
    g.set(-1, -1, LifeStates::Alife);
    assert_eq!(*g.get(3, 2), LifeStates::Alife);
}

fn life_update_at(g: &Grid<LifeStates>, x: isize, y: isize) -> LifeStates {
    <Life as Automaton>::update((x, y), g)
}

#[test]
fn life_rule_alive_two_neighbors_survives() {
    let mut g: Grid<LifeStates> = Grid::generate(5, 5);
    g.set(2, 2, LifeStates::Alife);
    g.set(1, 1, LifeStates::Alife);
    g.set(3, 3, LifeStates::Alife);
    assert_eq!(life_update_at(&g, 2, 2), LifeStates::Alife);
}

#[test]
fn life_rule_dead_three_neighbors_born() {
    let mut g: Grid<LifeStates> = Grid::generate(5, 5);
    g.set(1, 1, LifeStates::Alife);
    g.set(2, 1, LifeStates::Alife);
    g.set(3, 1, LifeStates::Alife);
    assert_eq!(life_update_at(&g, 2, 2), LifeStates::Alife);
}

#[test]
fn life_rule_alive_one_neighbor_dies() {
    let mut g: Grid<LifeStates> = Grid::generate(5, 5);
    g.set(2, 2, LifeStates::Alife);
    g.set(1, 1, LifeStates::Alife);
    assert_eq!(life_update_at(&g, 2, 2), LifeStates::Dead);
}

#[test]
fn life_rule_alive_four_neighbors_dies() {
    let mut g: Grid<LifeStates> = Grid::generate(5, 5);
    g.set(2, 2, LifeStates::Alife);
    g.set(1, 1, LifeStates::Alife);
    g.set(1, 2, LifeStates::Alife);
    g.set(1, 3, LifeStates::Alife);
    g.set(2, 1, LifeStates::Alife);
    assert_eq!(life_update_at(&g, 2, 2), LifeStates::Dead);
}

#[test]
fn life_rule_dead_zero_neighbors_stays_dead() {
    let g: Grid<LifeStates> = Grid::generate(5, 5);
    assert_eq!(life_update_at(&g, 2, 2), LifeStates::Dead);
}

#[test]
fn life_update_counts_neighbors_across_wrap() {
    // The three live cells are all neighbors of (0, 0) only through the
    // toroidal wrap, so the dead corner is born.
    let mut g: Grid<LifeStates> = Grid::generate(3, 3);
    g.set(2, 0, LifeStates::Alife);
    g.set(0, 2, LifeStates::Alife);
    g.set(2, 2, LifeStates::Alife);
    assert_eq!(life_update_at(&g, 0, 0), LifeStates::Alife);
}

#[test]
fn life_toggle_flips() {
    assert_eq!(<Life as Automaton>::toggle(LifeStates::Dead), LifeStates::Alife);
    assert_eq!(<Life as Automaton>::toggle(LifeStates::Alife), LifeStates::Dead);
}

#[test]
fn life_toggle_self_inverse() {
    for s in [LifeStates::Dead, LifeStates::Alife] {
        let twice = <Life as Automaton>::toggle(<Life as Automaton>::toggle(s));
        assert_eq!(twice, s);
    }
}

#[test]
fn life_style_two_fixed_colors() {
    assert_eq!(<Life as Automaton>::style(&LifeStates::Dead), "#1d2021");
    assert_eq!(<Life as Automaton>::style(&LifeStates::Alife), "#ebdbb2");
}
