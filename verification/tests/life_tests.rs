use mocca_matrix::bitzet::Bitzet;
use mocca_matrix::life::{adjacent, step, step_with, Rule};
use mocca_matrix::math::Vec2;

#[test]
fn test_adjacent_even_row() {
    assert_eq!(
        adjacent(Vec2::new(0, 0)),
        [
            Vec2::new(1, 0),
            Vec2::new(-1, 0),
            Vec2::new(-1, 1),
            Vec2::new(0, 1),
            Vec2::new(-1, -1),
            Vec2::new(0, -1),
        ]
    );
}

#[test]
fn test_adjacent_odd_rows() {
    assert_eq!(
        adjacent(Vec2::new(0, 1)),
        [
            Vec2::new(1, 1),
            Vec2::new(-1, 1),
            Vec2::new(0, 2),
            Vec2::new(1, 2),
            Vec2::new(0, 0),
            Vec2::new(1, 0),
        ]
    );
    assert_eq!(
        adjacent(Vec2::new(0, -1)),
        [
            Vec2::new(1, -1),
            Vec2::new(-1, -1),
            Vec2::new(0, 0),
            Vec2::new(1, 0),
            Vec2::new(0, -2),
            Vec2::new(1, -2),
        ]
    );
}

#[test]
fn test_lone_cell_dies() {
    let mut g = Bitzet::new(128);
    g.insert(Vec2::new(0, 0)).unwrap();
    let g2 = step(&g);
    assert_eq!(g2.len(), 0);
    // the previous generation is untouched
    assert_eq!(g.len(), 1);
}

#[test]
fn test_triangle_still_life() {
    // three mutually adjacent cells outside the birth arena: every live
    // cell has exactly 2 live neighbours, and every birth candidate is
    // clamped away, so the generation is a fixed point
    let mut g = Bitzet::new(128);
    g.insert(Vec2::new(20, 20)).unwrap();
    g.insert(Vec2::new(21, 20)).unwrap();
    g.insert(Vec2::new(20, 21)).unwrap();
    for _ in 0..5 {
        let g2 = step(&g);
        assert_eq!(g2.len(), 3);
        assert_eq!(g2.contains(&Vec2::new(20, 20)), Ok(true));
        assert_eq!(g2.contains(&Vec2::new(21, 20)), Ok(true));
        assert_eq!(g2.contains(&Vec2::new(20, 21)), Ok(true));
        g = g2;
    }
}

#[test]
fn test_boundary_birth_clamped() {
    // a white cell at |x| = 15 with exactly 2 live neighbours is not born
    let mut g = Bitzet::new(128);
    g.insert(Vec2::new(16, 0)).unwrap();
    g.insert(Vec2::new(14, 0)).unwrap();
    let g2 = step(&g);
    assert_eq!(g2.contains(&Vec2::new(15, 0)), Ok(false));

    // while one at |x| = 14 under the same condition is born
    let mut h = Bitzet::new(128);
    h.insert(Vec2::new(15, 0)).unwrap();
    h.insert(Vec2::new(13, 0)).unwrap();
    let h2 = step(&h);
    assert_eq!(h2.contains(&Vec2::new(14, 0)), Ok(true));
}

#[test]
fn test_survival_not_clamped() {
    // survival is not clamped to the arena: a live pair far outside keeps
    // each other alive (1 neighbour each), while their births are clipped
    let mut g = Bitzet::new(128);
    g.insert(Vec2::new(30, 0)).unwrap();
    g.insert(Vec2::new(31, 0)).unwrap();
    let g2 = step(&g);
    assert_eq!(g2.contains(&Vec2::new(30, 0)), Ok(true));
    assert_eq!(g2.contains(&Vec2::new(31, 0)), Ok(true));
    assert_eq!(g2.len(), 2);
}

#[test]
fn test_birth_inside_arena() {
    // two adjacent live cells near the origin breed on every white cell
    // with exactly two live neighbours
    let mut g = Bitzet::new(128);
    g.insert(Vec2::new(0, 0)).unwrap();
    g.insert(Vec2::new(1, 0)).unwrap();
    let g2 = step(&g);
    // both survive (1 neighbour each) ...
    assert_eq!(g2.contains(&Vec2::new(0, 0)), Ok(true));
    assert_eq!(g2.contains(&Vec2::new(1, 0)), Ok(true));
    // ... and the two cells adjacent to both are born
    assert_eq!(g2.contains(&Vec2::new(0, 1)), Ok(true));
    assert_eq!(g2.contains(&Vec2::new(0, -1)), Ok(true));
    assert_eq!(g2.len(), 4);
}

#[test]
fn test_custom_rule() {
    // with a birth count no white cell reaches, a lone pair just survives
    let rule = Rule { survive_min: 1, survive_max: 2, birth: 6, clamp: 15 };
    let mut g = Bitzet::new(128);
    g.insert(Vec2::new(0, 0)).unwrap();
    g.insert(Vec2::new(1, 0)).unwrap();
    let g2 = step_with(&g, &rule);
    assert_eq!(g2.len(), 2);
}
