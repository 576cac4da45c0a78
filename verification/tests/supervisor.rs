use toroidal_life::automaton::{Life, LifeStates};
use toroidal_life::supervisor::Supervisor;

#[test]
fn supervisor_new_defaults() {
    let s: Supervisor<Life> = Supervisor::new(4, 5);
    assert_eq!(s.width(), 4);
    assert_eq!(s.height(), 5);
    for x in 0..4isize {
        for y in 0..5isize {
            assert_eq!(s.get(x, y), LifeStates::Dead);
        }
    }
}

#[test]
fn single_alive_cell_dies() {
    let mut s: Supervisor<Life> = Supervisor::new(5, 5);
    s.toggle(2, 2);
    assert_eq!(s.get(2, 2), LifeStates::Alife);
    s.update();
    for x in 0..5isize {
        for y in 0..5isize {
            assert_eq!(s.get(x, y), LifeStates::Dead);
        }
    }
}

#[test]
fn block_center_dies_corners_survive() {
    let mut s: Supervisor<Life> = Supervisor::new(7, 7);
    for x in 2..=4isize {
        for y in 2..=4isize {
            s.toggle(x, y);
        }
    }
    s.update();
    // The center saw 8 live neighbors; each corner of the block saw 3.
    assert_eq!(s.get(3, 3), LifeStates::Dead);
    assert_eq!(s.get(2, 2), LifeStates::Alife);
    assert_eq!(s.get(4, 2), LifeStates::Alife);
    assert_eq!(s.get(2, 4), LifeStates::Alife);
    assert_eq!(s.get(4, 4), LifeStates::Alife);
}

#[test]
fn supervisor_toggle_self_inverse() {
    let mut s: Supervisor<Life> = Supervisor::new(4, 4);
    s.toggle(1, 1);
    s.toggle(1, 1);
    for x in 0..4isize {
        for y in 0..4isize {
            assert_eq!(s.get(x, y), LifeStates::Dead);
        }
    }
}

#[test]
fn supervisor_toggle_wraps() {
    let mut s: Supervisor<Life> = Supervisor::new(4, 4);
    s.toggle(-1, -1);
    assert_eq!(s.get(3, 3), LifeStates::Alife);
}

#[test]
fn blinker_oscillates_over_two_steps() {
    // A vertical blinker turns horizontal after one step and back after
    // two: each step reads only the previous, consistent generation.
    let mut s: Supervisor<Life> = Supervisor::new(7, 7);
    s.toggle(3, 2);
    s.toggle(3, 3);
    s.toggle(3, 4);
    s.update();
    for x in 0..7isize {
        for y in 0..7isize {
            let expect = if y == 3 && (2..=4).contains(&x) {
                LifeStates::Alife
            } else {
                LifeStates::Dead
            };
            assert_eq!(s.get(x, y), expect);
        }
    }
    s.update();
    for x in 0..7isize {
        for y in 0..7isize {
            let expect = if x == 3 && (2..=4).contains(&y) {
                LifeStates::Alife
            } else {
                LifeStates::Dead
            };
            assert_eq!(s.get(x, y), expect);
        }
    }
}
