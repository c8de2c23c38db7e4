//! The selected block, the labels and what a click on a block does.
use vstd::prelude::*;
use crate::grid::{BlockPos, WorldGrid};
use crate::text::{chars_of, string_from_chars};

verus! {

/// The label that shows the selected block, by its name.
pub fn selected_block_label(name: &String) -> (label: String)
    ensures
        label@ == "selected block : "@ + name@,
{
    let mut out = chars_of("selected block : ");
    let tail = chars_of(name.as_str());
    let ghost start = out@;
    let mut i: usize = 0;
    while i < tail.len()
        invariant
            0 <= i <= tail@.len(),
            tail@ == name@,
            start == "selected block : "@,
            out@ == start + tail@.take(i as int),
        decreases tail@.len() - i,
    {
        out.push(tail[i]);
        assert(tail@.take(i + 1) =~= tail@.take(i as int).push(tail@[i as int]));
        i = i + 1;
    }
    assert(tail@.take(tail@.len() as int) =~= tail@);
    string_from_chars(&out)
}

/// The label that shows the frame rate, rounded to a whole number.
pub fn fps_label(rounded: i32) -> (label: String)
    ensures
        label@ == "FPS: "@ + crate::decimal::i32_text(rounded),
{
    let mut out = chars_of("FPS: ");
    crate::decimal::push_i32(&mut out, rounded);
    string_from_chars(&out)
}

/// Which way the mouse wheel turned in one event.
pub enum Scroll {
    /// The wheel turned towards the user: the next block.
    Next,
    /// The wheel turned away from the user: the previous block.
    Previous,
    /// The event moved nothing.
    Still,
}

/// The block after `id`, wrapping from `max_id` to `0`.
pub open spec fn next_id(id: u32, max_id: u32) -> u32 {
    if id < max_id {
        (id + 1) as u32
    } else {
        0
    }
}

/// The block before `id`, wrapping from `0` to `max_id`.
pub open spec fn previous_id(id: u32, max_id: u32) -> u32 {
    if id > 0 {
        (id - 1) as u32
    } else {
        max_id
    }
}

/// The block reached from `id` after `n` turns towards the next block.
pub open spec fn next_id_n(id: u32, max_id: u32, n: nat) -> u32
    decreases n,
{
    if n == 0 {
        id
    } else {
        next_id(next_id_n(id, max_id, (n - 1) as nat), max_id)
    }
}

/// The block chosen for placing, among the ids `0` to `max_id`.
pub struct BlockSelection {
    pub id: u32,
    pub max_id: u32,
}

impl BlockSelection {
    /// The selected id names a block that has a material.
    pub open spec fn wf(self) -> bool {
        self.id <= self.max_id
    }

    /// Out of the blocks `0` to `max_id`, block 1 selected, or the ground
    /// when it is the only block.
    pub fn new(max_id: u32) -> (sel: BlockSelection)
        ensures
            sel.id == (if max_id >= 1 { 1u32 } else { 0u32 }),
            sel.max_id == max_id,
            sel.wf(),
    {
        BlockSelection { id: if max_id >= 1 { 1 } else { 0 }, max_id }
    }

    /// Follows one turn of the mouse wheel.
    pub fn scroll(&mut self, turn: Scroll)
        ensures
            final(self).max_id == old(self).max_id,
            final(self).id == match turn {
                Scroll::Next => next_id(old(self).id, old(self).max_id),
                Scroll::Previous => previous_id(old(self).id, old(self).max_id),
                Scroll::Still => old(self).id,
            },
            old(self).wf() ==> final(self).wf(),
    {
        match turn {
            Scroll::Next => {
                self.id = if self.id < self.max_id { self.id + 1 } else { 0 };
            },
            Scroll::Previous => {
                self.id = if self.id > 0 { self.id - 1 } else { self.max_id };
            },
            Scroll::Still => {},
        }
    }
}

/// Turning to the previous block undoes turning to the next one, and the
/// other way round, for every selectable id.
pub proof fn lemma_scroll_turns_undo(id: u32, max_id: u32)
    requires
        id <= max_id,
    ensures
        previous_id(next_id(id, max_id), max_id) == id,
        next_id(previous_id(id, max_id), max_id) == id,
{
}

/// After `n` turns towards the next block the selection has moved `n` places
/// round the cycle of `max_id + 1` blocks.
pub proof fn lemma_scroll_cycles(id: u32, max_id: u32, n: nat)
    requires
        id <= max_id,
    ensures
        next_id_n(id, max_id, n) == (id + n) % (max_id + 1),
    decreases n,
{
    if n > 0 {
        lemma_scroll_cycles(id, max_id, (n - 1) as nat);
        let m: int = max_id + 1;
        let prev: int = (id + (n - 1)) % m;
        assert(0 <= prev < m);
        vstd::arithmetic::div_mod::lemma_add_mod_noop_right(1, id + (n - 1), m);
        assert((1 + prev) % m == (id + n) % m);
        assert(next_id_n(id, max_id, n) == next_id(prev as u32, max_id));
        if prev < max_id {
            vstd::arithmetic::div_mod::lemma_small_mod((prev + 1) as nat, m as nat);
        } else {
            vstd::arithmetic::div_mod::lemma_mod_self_0(m);
        }
    } else {
        vstd::arithmetic::div_mod::lemma_small_mod(id as nat, (max_id + 1) as nat);
    }
}

/// What a click on the outlined block does.
pub enum Interaction {
    /// The block at this position is broken.
    Break(BlockPos),
    /// The block with this id is placed at this position.
    Place(BlockPos, u32),
    /// Nothing changes.
    Nothing,
}

/// What a click does: breaking takes the hit block; placing puts the
/// selected block on the free cell before it, unless that cell is taken,
/// overlaps the player, or the selected block has no material.
pub fn decide_interaction(
    grid: &WorldGrid,
    hit: BlockPos,
    before_hit: BlockPos,
    break_pressed: bool,
    place_pressed: bool,
    overlaps_player: bool,
    selected: u32,
    max_id: u32,
) -> (action: Interaction)
    ensures
        break_pressed ==> action == Interaction::Break(hit),
        !break_pressed ==> (action == if place_pressed && !grid@.dom().contains(before_hit)
            && !overlaps_player && selected <= max_id {
            Interaction::Place(before_hit, selected)
        } else {
            Interaction::Nothing
        }),
{
    if break_pressed {
        Interaction::Break(hit)
    } else if place_pressed && !grid.contains(before_hit) && !overlaps_player && selected <= max_id {
        Interaction::Place(before_hit, selected)
    } else {
        Interaction::Nothing
    }
}

} // verus!
