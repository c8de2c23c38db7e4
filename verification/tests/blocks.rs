use alloy_project::blocks::{
    decide_interaction, fps_label, selected_block_label, BlockSelection, Interaction, Scroll,
};
use alloy_project::grid::WorldGrid;

#[test]
fn labels() {
    assert_eq!(selected_block_label(&"1".to_string()), "selected block : 1");
    assert_eq!(selected_block_label(&"stone".to_string()), "selected block : stone");
    assert_eq!(fps_label(60), "FPS: 60");
    assert_eq!(fps_label(0), "FPS: 0");
}

#[test]
fn scrolling_wraps_around() {
    let mut sel = BlockSelection::new(3);
    assert_eq!(sel.id, 1);
    sel.scroll(Scroll::Next);
    assert_eq!(sel.id, 2);
    sel.scroll(Scroll::Next);
    assert_eq!(sel.id, 3);
    sel.scroll(Scroll::Next);
    assert_eq!(sel.id, 0);
    sel.scroll(Scroll::Previous);
    assert_eq!(sel.id, 3);
    sel.scroll(Scroll::Still);
    assert_eq!(sel.id, 3);
    assert_eq!(sel.max_id, 3);
}

#[test]
fn a_full_turn_of_scrolls_comes_back() {
    let mut sel = BlockSelection::new(4);
    for _ in 0..5 {
        sel.scroll(Scroll::Next);
    }
    assert_eq!(sel.id, 1);
    sel.scroll(Scroll::Next);
    sel.scroll(Scroll::Previous);
    assert_eq!(sel.id, 1);
}

#[test]
fn only_the_ground_selects_the_ground() {
    let mut sel = BlockSelection::new(0);
    assert_eq!(sel.id, 0);
    sel.scroll(Scroll::Next);
    assert_eq!(sel.id, 0);
    sel.scroll(Scroll::Previous);
    assert_eq!(sel.id, 0);
}

#[test]
fn click_decisions() {
    let mut grid = WorldGrid::new();
    grid.place((0, 0, 0), 1, 7);
    let hit = (0, 0, 0);
    let before = (0, 1, 0);
    assert!(matches!(
        decide_interaction(&grid, hit, before, true, true, false, 1, 3),
        Interaction::Break((0, 0, 0))
    ));
    assert!(matches!(
        decide_interaction(&grid, hit, before, false, true, false, 2, 3),
        Interaction::Place((0, 1, 0), 2)
    ));
    assert!(matches!(decide_interaction(&grid, hit, before, false, true, true, 2, 3), Interaction::Nothing));
    assert!(matches!(decide_interaction(&grid, hit, before, false, true, false, 4, 3), Interaction::Nothing));
    assert!(matches!(decide_interaction(&grid, hit, before, false, false, false, 1, 3), Interaction::Nothing));
    grid.place(before, 1, 8);
    assert!(matches!(decide_interaction(&grid, hit, before, false, true, false, 1, 3), Interaction::Nothing));
}
