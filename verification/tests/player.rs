use alloy_project::player::{grounded_after_vertical_move, jumps, CursorState, PlayerModes};

#[test]
fn mode_commands() {
    let mut m = PlayerModes::new();
    assert!(!m.is_flying && !m.is_noclip);
    assert!(m.gravity_applies() && m.collides_with_blocks());
    m.enable_flight();
    assert!(m.is_flying && !m.is_noclip && !m.gravity_applies());
    m.enable_gravity();
    assert!(!m.is_flying && !m.is_noclip);
    assert!(m.toggle_noclip());
    assert!(m.is_flying && m.is_noclip && !m.collides_with_blocks());
    assert!(!m.toggle_noclip());
    assert!(m.is_flying && !m.is_noclip);
}

#[test]
fn noclip_twice_keeps_flying() {
    let mut m = PlayerModes::new();
    m.toggle_noclip();
    m.toggle_noclip();
    assert!(!m.is_noclip);
    assert!(m.is_flying);
}

#[test]
fn landing_and_jumping() {
    assert!(grounded_after_vertical_move(false, true, false, true));
    assert!(!grounded_after_vertical_move(false, true, true, true));
    assert!(grounded_after_vertical_move(true, true, false, false));
    assert!(!grounded_after_vertical_move(false, true, false, false));
    assert!(!grounded_after_vertical_move(true, false, false, true));
    assert!(jumps(false, true, true));
    assert!(!jumps(true, true, true));
    assert!(!jumps(false, false, true));
    assert!(!jumps(false, true, false));
}

#[test]
fn cursor_follows_clicks_and_escape() {
    let c = CursorState::new();
    assert!(c.visible && !c.follows_mouse());
    let c = c.after_input(false, true);
    assert!(!c.visible && c.follows_mouse());
    let c = c.after_input(false, false);
    assert!(!c.visible && c.locked);
    let c = c.after_input(true, false);
    assert!(c.visible && !c.locked);
    let c = c.after_input(true, true);
    assert!(!c.visible && c.locked);
}
