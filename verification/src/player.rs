//! The player's movement modes, the rules of walking and jumping, and the
//! mouse cursor.
use vstd::prelude::*;

verus! {

/// How the player moves: flying (no gravity, Space and Shift steer up and
/// down) and noclip (flying through blocks).
pub struct PlayerModes {
    pub is_flying: bool,
    pub is_noclip: bool,
}

/// The modes after the flight command: flying, noclip unchanged.
pub open spec fn with_flight(m: PlayerModes) -> PlayerModes {
    PlayerModes { is_flying: true, is_noclip: m.is_noclip }
}

/// The modes after the gravity command: neither flying nor noclip.
pub open spec fn with_gravity(m: PlayerModes) -> PlayerModes {
    PlayerModes { is_flying: false, is_noclip: false }
}

/// The modes after the noclip command: noclip switched; switching it on
/// also starts flight.
pub open spec fn with_noclip_toggled(m: PlayerModes) -> PlayerModes {
    PlayerModes { is_flying: if !m.is_noclip { true } else { m.is_flying }, is_noclip: !m.is_noclip }
}

impl PlayerModes {
    /// Noclip never goes without flight.
    pub open spec fn wf(self) -> bool {
        self.is_noclip ==> self.is_flying
    }

    /// Walking: neither flying nor noclip.
    pub fn new() -> (m: PlayerModes)
        ensures
            !m.is_flying,
            !m.is_noclip,
            m.wf(),
    {
        PlayerModes { is_flying: false, is_noclip: false }
    }

    /// The flight command.
    pub fn enable_flight(&mut self)
        ensures
            *final(self) == with_flight(*old(self)),
            final(self).is_flying,
            final(self).is_noclip == old(self).is_noclip,
            final(self).wf(),
    {
        self.is_flying = true;
    }

    /// The gravity command: back to walking.
    pub fn enable_gravity(&mut self)
        ensures
            *final(self) == with_gravity(*old(self)),
            !final(self).is_flying,
            !final(self).is_noclip,
            final(self).wf(),
    {
        self.is_flying = false;
        self.is_noclip = false;
    }

    /// The noclip command; returns whether noclip is now on.
    pub fn toggle_noclip(&mut self) -> (on: bool)
        ensures
            *final(self) == with_noclip_toggled(*old(self)),
            final(self).is_noclip == !old(self).is_noclip,
            final(self).is_flying == (old(self).is_flying || !old(self).is_noclip),
            on == final(self).is_noclip,
            final(self).wf(),
    {
        self.is_noclip = !self.is_noclip;
        if self.is_noclip {
            self.is_flying = true;
        }
        self.is_noclip
    }

    /// Whether gravity pulls the player: only when neither flying nor in
    /// noclip.
    pub fn gravity_applies(&self) -> (r: bool)
        ensures
            r == !(self.is_flying || self.is_noclip),
    {
        !(self.is_flying || self.is_noclip)
    }

    /// Whether blocks stop the player: always but in noclip.
    pub fn collides_with_blocks(&self) -> (r: bool)
        ensures
            r == !self.is_noclip,
    {
        !self.is_noclip
    }
}

/// The mode commands: flight turns flying on and leaves noclip as it was;
/// gravity turns both off; noclip switches noclip, and switching it on
/// turns flying on, while switching it off leaves flying as it was.
pub proof fn lemma_mode_commands(m: PlayerModes)
    ensures
        with_flight(m).is_flying,
        with_flight(m).is_noclip == m.is_noclip,
        !with_gravity(m).is_flying && !with_gravity(m).is_noclip,
        with_noclip_toggled(m).is_noclip == !m.is_noclip,
        with_noclip_toggled(m).is_flying == (m.is_flying || !m.is_noclip),
{
}

/// Switching noclip twice brings noclip back to where it was, and leaves the
/// player flying.
pub proof fn lemma_noclip_twice(m: PlayerModes)
    requires
        m.wf(),
    ensures
        with_noclip_toggled(with_noclip_toggled(m)) == (PlayerModes {
            is_flying: true,
            is_noclip: m.is_noclip,
        }),
{
}

/// Whether the player stands on the ground after the vertical part of a
/// move: a blocked move downwards, while not flying, lands; a blocked move
/// otherwise keeps the previous state; a free move leaves the ground.
pub fn grounded_after_vertical_move(
    was_grounded: bool,
    blocked: bool,
    is_flying: bool,
    moving_down: bool,
) -> (grounded: bool)
    ensures
        grounded == (if blocked {
            (!is_flying && moving_down) || was_grounded
        } else {
            false
        }),
{
    if blocked {
        if !is_flying && moving_down {
            true
        } else {
            was_grounded
        }
    } else {
        false
    }
}

/// Whether the player jumps: only from the ground, not flying, and when the
/// jump key was just pressed.
pub fn jumps(is_flying: bool, grounded: bool, jump_pressed: bool) -> (r: bool)
    ensures
        r == (!is_flying && grounded && jump_pressed),
{
    !is_flying && grounded && jump_pressed
}

/// The mouse cursor: whether it shows, and whether the window holds it (the
/// camera follows the mouse only then).
pub struct CursorState {
    pub visible: bool,
    pub locked: bool,
}

impl CursorState {
    /// A free, visible cursor.
    pub fn new() -> (c: CursorState)
        ensures
            c.visible,
            !c.locked,
    {
        CursorState { visible: true, locked: false }
    }

    /// The cursor after one frame of input: Escape frees it; a left click
    /// hides and holds it, and wins over Escape in the same frame.
    pub fn after_input(&self, escape_pressed: bool, left_pressed: bool) -> (next: CursorState)
        ensures
            left_pressed ==> !next.visible && next.locked,
            !left_pressed && escape_pressed ==> next.visible && !next.locked,
            !left_pressed && !escape_pressed ==> next == *self,
    {
        let mut next = CursorState { visible: self.visible, locked: self.locked };
        if escape_pressed {
            next.visible = true;
            next.locked = false;
        }
        if left_pressed {
            next.visible = false;
            next.locked = true;
        }
        next
    }

    /// Whether the camera and the block outline follow the mouse.
    pub fn follows_mouse(&self) -> (r: bool)
        ensures
            r == self.locked,
    {
        self.locked
    }
}

} // verus!
