use aoc22::vec2::Vec2;

#[test]
fn vector_arithmetic() {
    let a = Vec2::new(3, -2);
    let b = Vec2::new(-1, 5);
    assert_eq!(a.add(b), Vec2(2, 3));
    assert_eq!(a.sub(b), Vec2(4, -7));
    assert_eq!(a.mul(3), Vec2(9, -6));
    assert_eq!(Vec2::new(7, 9).div(2), Vec2(3, 4));
    assert_eq!(Vec2::new(7, 9).rem(2), Vec2(1, 1));
    assert_eq!(a.signum(), Vec2(1, -1));
    assert_eq!(a.manhattan(), 5);
    assert_eq!(Vec2::new(2, 3).as_base_n(10), 32);
}

#[test]
fn grid_helpers() {
    let grid = vec![vec![1, 2], vec![3, 4], vec![5, 6]];
    assert_eq!(*Vec2::new(1, 2).index(&grid), 6);
    let coords = Vec2::map_coords(&grid);
    assert_eq!(coords.len(), 6);
    assert_eq!(coords[0], Vec2(0, 0));
    assert_eq!(coords[5], Vec2(1, 2));
    let run = Vec2::new(1, 1).range_inclusive(Vec2::new(4, 4));
    assert_eq!(run, vec![Vec2(1, 1), Vec2(2, 2), Vec2(3, 3), Vec2(4, 4)]);
    let flat = Vec2::new(2, 0).range_inclusive(Vec2::new(0, 0));
    assert_eq!(flat, vec![Vec2(2, 0), Vec2(1, 0), Vec2(0, 0)]);
}

#[test]
fn mutable_grid_lookup() {
    let mut grid = vec![vec![1, 2], vec![3, 4]];
    *Vec2::new(1, 0).index_mut(&mut grid) = 9;
    assert_eq!(grid, vec![vec![1, 9], vec![3, 4]]);
}
