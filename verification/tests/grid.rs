use alloy_project::grid::{ground_blocks, WorldGrid};

#[test]
fn placed_block_can_be_read_and_broken() {
    let mut grid = WorldGrid::new();
    assert!(!grid.contains((1, 2, 3)));
    assert_eq!(grid.place((1, 2, 3), 5, 42), None);
    assert!(grid.contains((1, 2, 3)));
    assert_eq!(grid.get((1, 2, 3)), Some((5, 42)));
    assert_eq!(grid.place((1, 2, 3), 6, 43), Some((5, 42)));
    assert_eq!(grid.break_block((1, 2, 3)), Some((6, 43)));
    assert_eq!(grid.break_block((1, 2, 3)), None);
    assert!(!grid.contains((1, 2, 3)));
}

#[test]
fn clear_removes_every_block() {
    let mut grid = WorldGrid::new();
    grid.place((0, 0, 0), 0, 1);
    grid.place((0, 1, 0), 0, 2);
    grid.clear();
    assert!(!grid.contains((0, 0, 0)));
    assert!(!grid.contains((0, 1, 0)));
    assert_eq!(grid.save_text(), "");
}

#[test]
fn restore_keeps_the_later_of_two_blocks_at_one_place() {
    let mut grid = WorldGrid::new();
    grid.place((9, 9, 9), 1, 1);
    grid.restore(&vec![((0, 0, 0), 1), ((0, 0, 0), 2)], &vec![10, 11]);
    assert_eq!(grid.get((0, 0, 0)), Some((2, 11)));
    assert!(!grid.contains((9, 9, 9)));
}

#[test]
fn box_query_finds_blocks_inside_only() {
    let mut grid = WorldGrid::new();
    let ground = ground_blocks();
    let entities: Vec<u64> = (0..ground.len() as u64).collect();
    grid.restore(&ground, &entities);
    // The player's box standing on the ground at height 1 reaches down to 1.
    assert!(!grid.any_block_in_box((0, 1, 0), (1, 3, 1)));
    // Sinking into the ground touches it.
    assert!(grid.any_block_in_box((0, 0, 0), (1, 2, 1)));
    // Beyond the edge of the ground there is nothing.
    assert!(!grid.any_block_in_box((30, -5, 30), (40, 5, 40)));
    // An empty box (lower corner above the upper one) holds nothing.
    assert!(!grid.any_block_in_box((0, 0, 0), (-1, 0, 0)));
    grid.place((35, 2, 35), 3, 9999);
    assert!(grid.any_block_in_box((30, -5, 30), (40, 5, 40)));
}

#[test]
fn box_query_at_the_edge_of_the_coordinates() {
    let mut grid = WorldGrid::new();
    grid.place((i32::MAX, i32::MAX, i32::MAX), 1, 1);
    assert!(grid.any_block_in_box((i32::MAX, i32::MAX, i32::MAX), (i32::MAX, i32::MAX, i32::MAX)));
    assert!(!grid.any_block_in_box((i32::MIN, i32::MIN, i32::MIN), (i32::MIN, i32::MIN, i32::MIN)));
}
