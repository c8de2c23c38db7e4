//! The sparse world grid: a map from block position to the placed block.
use vstd::prelude::*;
use crate::world_file::{
    SavedBlock, saved_blocks, world_text, world_text_of, loaded_blocks, lemma_world_text_reads_back,
};

verus! {

/// A block position in the voxel grid.
pub type BlockPos = (i32, i32, i32);

/// What the grid stores for a placed block: its id and the bits of the
/// entity that shows it.
pub type Cell = (u32, u64);

/// The sparse grid: only placed blocks take memory.
///
/// The map itself is bevy's `HashMap`; its contents are named by
/// `grid_contents` and every access goes through a wrapper below.
#[verifier::external_body]
pub struct WorldGrid {
    blocks: bevy::utils::HashMap<BlockPos, Cell>,
}

/// The blocks that the grid's map holds.
pub uninterp spec fn grid_contents(grid: WorldGrid) -> Map<BlockPos, Cell>;

impl View for WorldGrid {
    type V = Map<BlockPos, Cell>;

    open spec fn view(&self) -> Map<BlockPos, Cell> {
        grid_contents(*self)
    }
}

impl WorldGrid {
    /// `HashMap::default`: a map with no entries.
    #[verifier::external_body]
    fn table_new() -> (grid: WorldGrid)
        ensures
            grid_contents(grid) == no_blocks(),
    {
        WorldGrid { blocks: bevy::utils::HashMap::default() }
    }

    /// `HashMap::insert`: the key now maps to the value; the previous value
    /// of the key, if any, is returned.
    #[verifier::external_body]
    fn table_insert(&mut self, pos: BlockPos, cell: Cell) -> (prev: Option<Cell>)
        ensures
            final(self)@ == old(self)@.insert(pos, cell),
            prev == (if old(self)@.dom().contains(pos) { Some(old(self)@[pos]) } else { None }),
    {
        self.blocks.insert(pos, cell)
    }

    /// `HashMap::remove`: the key no longer maps to anything; its previous
    /// value, if any, is returned.
    #[verifier::external_body]
    fn table_remove(&mut self, pos: BlockPos) -> (prev: Option<Cell>)
        ensures
            final(self)@ == old(self)@.remove(pos),
            prev == (if old(self)@.dom().contains(pos) { Some(old(self)@[pos]) } else { None }),
    {
        self.blocks.remove(&pos)
    }

    /// `HashMap::get`, with the value copied out.
    #[verifier::external_body]
    fn table_get(&self, pos: BlockPos) -> (cell: Option<Cell>)
        ensures
            cell == (if self@.dom().contains(pos) { Some(self@[pos]) } else { None }),
    {
        self.blocks.get(&pos).copied()
    }

    /// `HashMap::contains_key`.
    #[verifier::external_body]
    fn table_contains(&self, pos: BlockPos) -> (found: bool)
        ensures
            found == self@.dom().contains(pos),
    {
        self.blocks.contains_key(&pos)
    }

    /// `HashMap::clear`: no entries are left.
    #[verifier::external_body]
    fn table_clear(&mut self)
        ensures
            grid_contents(*final(self)) == no_blocks(),
    {
        self.blocks.clear()
    }

    /// `HashMap::iter`, each entry copied out. The map yields every entry
    /// exactly once; the order is the map's own and is left open here.
    #[verifier::external_body]
    fn table_entries(&self) -> (entries: Vec<(BlockPos, Cell)>)
        ensures
            lists_exactly(entries@, self@),
    {
        self.blocks.iter().map(|(pos, cell)| (*pos, *cell)).collect()
    }

    /// An empty grid.
    pub fn new() -> (grid: WorldGrid)
        ensures
            grid@ == no_blocks(),
    {
        Self::table_new()
    }

    /// Whether a block stands at `pos`.
    pub fn contains(&self, pos: BlockPos) -> (found: bool)
        ensures
            found == self@.dom().contains(pos),
    {
        self.table_contains(pos)
    }

    /// The block at `pos`, if any.
    pub fn get(&self, pos: BlockPos) -> (cell: Option<Cell>)
        ensures
            cell == (if self@.dom().contains(pos) { Some(self@[pos]) } else { None }),
    {
        self.table_get(pos)
    }

    /// Places block `id`, shown by entity `entity`, at `pos`; a block already
    /// there is replaced and returned.
    pub fn place(&mut self, pos: BlockPos, id: u32, entity: u64) -> (replaced: Option<Cell>)
        ensures
            final(self)@ == old(self)@.insert(pos, (id, entity)),
            replaced == (if old(self)@.dom().contains(pos) { Some(old(self)@[pos]) } else { None }),
    {
        self.table_insert(pos, (id, entity))
    }

    /// Removes the block at `pos` and returns it, if there was one.
    pub fn break_block(&mut self, pos: BlockPos) -> (removed: Option<Cell>)
        ensures
            final(self)@ == old(self)@.remove(pos),
            removed == (if old(self)@.dom().contains(pos) { Some(old(self)@[pos]) } else { None }),
    {
        self.table_remove(pos)
    }

    /// Removes every block.
    pub fn clear(&mut self)
        ensures
            final(self)@ == no_blocks(),
    {
        self.table_clear()
    }

    /// Empties the grid, then places `blocks[i]`, shown by `entities[i]`, for
    /// each `i` in order: a later block at the same position replaces an
    /// earlier one.
    pub fn restore(&mut self, blocks: &Vec<SavedBlock>, entities: &Vec<u64>)
        requires
            blocks@.len() == entities@.len(),
        ensures
            final(self)@ == placed(blocks@, entities@),
    {
        self.table_clear();
        let n = blocks.len();
        let mut i: usize = 0;
        while i < n
            invariant
                n == blocks@.len(),
                n == entities@.len(),
                0 <= i <= n,
                self@ == placed(blocks@.take(i as int), entities@),
            decreases n - i,
        {
            let (pos, id) = blocks[i];
            self.table_insert(pos, (id, entities[i]));
            assert(blocks@.take(i + 1).drop_last() =~= blocks@.take(i as int));
            i = i + 1;
        }
        assert(blocks@.take(n as int) =~= blocks@);
    }

    /// The world text that records every block of the grid, each on a line
    /// of its own; the order of the lines is the order in which the map
    /// yields its entries.
    pub fn save_text(&self) -> (text: String)
        ensures
            exists|entries: Seq<(BlockPos, Cell)>|
                lists_exactly(entries, self@) && text@ == world_text(saved_blocks(entries)),
    {
        let entries = self.table_entries();
        let mut blocks: Vec<SavedBlock> = Vec::new();
        let n = entries.len();
        let mut i: usize = 0;
        while i < n
            invariant
                n == entries@.len(),
                0 <= i <= n,
                blocks@ == saved_blocks(entries@.take(i as int)),
            decreases n - i,
        {
            let (pos, cell) = entries[i];
            blocks.push((pos, cell.0));
            assert(saved_blocks(entries@.take(i + 1)) =~= saved_blocks(entries@.take(i as int)).push(
                (pos, cell.0),
            ));
            i = i + 1;
        }
        assert(entries@.take(n as int) =~= entries@);
        world_text_of(&blocks)
    }

    /// Whether some block stands in the box from `lo` to `hi`, both corners
    /// included.
    pub fn any_block_in_box(&self, lo: BlockPos, hi: BlockPos) -> (found: bool)
        ensures
            found == exists|p: BlockPos| in_box(p, lo, hi) && #[trigger] self@.dom().contains(p),
            found == exists|p: BlockPos|
                lo.0 <= p.0 <= hi.0 && lo.1 <= p.1 <= hi.1 && lo.2 <= p.2 <= hi.2
                    && #[trigger] self@.dom().contains(p),
    {
        let mut x: i64 = lo.0 as i64;
        while x <= hi.0 as i64
            invariant
                lo.0 <= x <= hi.0 as i64 + 1 || x == lo.0,
                forall|p: BlockPos|
                    in_box(p, lo, hi) && p.0 < x ==> !#[trigger] self@.dom().contains(p),
            decreases hi.0 as i64 + 1 - x,
        {
            let mut y: i64 = lo.1 as i64;
            while y <= hi.1 as i64
                invariant
                    lo.0 <= x <= hi.0,
                    lo.1 <= y <= hi.1 as i64 + 1 || y == lo.1,
                    forall|p: BlockPos|
                        in_box(p, lo, hi) && (p.0 < x || (p.0 == x && p.1 < y))
                            ==> !#[trigger] self@.dom().contains(p),
                decreases hi.1 as i64 + 1 - y,
            {
                let mut z: i64 = lo.2 as i64;
                while z <= hi.2 as i64
                    invariant
                        lo.0 <= x <= hi.0,
                        lo.1 <= y <= hi.1,
                        lo.2 <= z <= hi.2 as i64 + 1 || z == lo.2,
                        forall|p: BlockPos|
                            in_box(p, lo, hi) && (p.0 < x || (p.0 == x && p.1 < y) || (p.0 == x
                                && p.1 == y && p.2 < z)) ==> !#[trigger] self@.dom().contains(p),
                    decreases hi.2 as i64 + 1 - z,
                {
                    let pos: BlockPos = (x as i32, y as i32, z as i32);
                    if self.table_contains(pos) {
                        assert(in_box(pos, lo, hi));
                        return true;
                    }
                    z = z + 1;
                }
                y = y + 1;
            }
            x = x + 1;
        }
        false
    }
}

/// `p` lies in the box from `lo` to `hi`, both corners included.
pub open spec fn in_box(p: BlockPos, lo: BlockPos, hi: BlockPos) -> bool {
    &&& lo.0 <= p.0 <= hi.0
    &&& lo.1 <= p.1 <= hi.1
    &&& lo.2 <= p.2 <= hi.2
}

/// The grid that placing `blocks[i]`, shown by `entities[i]`, in order onto
/// an empty grid gives.
pub open spec fn placed(blocks: Seq<SavedBlock>, entities: Seq<u64>) -> Map<BlockPos, Cell>
    decreases blocks.len(),
{
    if blocks.len() == 0 {
        no_blocks()
    } else {
        let i = blocks.len() - 1;
        placed(blocks.drop_last(), entities).insert(blocks[i].0, (blocks[i].1, entities[i]))
    }
}

/// The map with no blocks.
pub open spec fn no_blocks() -> Map<BlockPos, Cell> {
    Map::empty()
}

/// `entries` lists every block of `blocks` exactly once, each with its cell.
pub open spec fn lists_exactly(entries: Seq<(BlockPos, Cell)>, blocks: Map<BlockPos, Cell>) -> bool {
    &&& forall|i: int, j: int|
        0 <= i < j < entries.len() ==> #[trigger] entries[i].0 != #[trigger] entries[j].0
    &&& forall|i: int|
        0 <= i < entries.len() ==> blocks.dom().contains(#[trigger] entries[i].0)
            && blocks[entries[i].0] == entries[i].1
    &&& forall|pos: BlockPos|
        #[trigger] blocks.dom().contains(pos) ==> exists|i: int|
            0 <= i < entries.len() && #[trigger] entries[i].0 == pos
}

/// The id of each block of `m`, by position.
pub open spec fn block_ids(m: Map<BlockPos, Cell>) -> Map<BlockPos, u32> {
    Map::new(|p: BlockPos| m.dom().contains(p), |p: BlockPos| m[p].0)
}

/// No two of `blocks` share a position.
pub open spec fn distinct_positions(blocks: Seq<SavedBlock>) -> bool {
    forall|i: int, j: int|
        0 <= i < j < blocks.len() ==> #[trigger] blocks[i].0 != #[trigger] blocks[j].0
}

/// Placing blocks at distinct positions puts each one where it says.
proof fn lemma_placed_distinct(blocks: Seq<SavedBlock>, entities: Seq<u64>)
    requires
        distinct_positions(blocks),
        entities.len() >= blocks.len(),
    ensures
        forall|p: BlockPos|
            #[trigger] placed(blocks, entities).dom().contains(p) <==> exists|i: int|
                0 <= i < blocks.len() && #[trigger] blocks[i].0 == p,
        forall|i: int|
            0 <= i < blocks.len() ==> placed(blocks, entities)[#[trigger] blocks[i].0] == (
                blocks[i].1,
                entities[i],
            ),
    decreases blocks.len(),
{
    if blocks.len() > 0 {
        let front = blocks.drop_last();
        let k = blocks.len() - 1;
        assert(distinct_positions(front)) by {
            assert forall|i: int, j: int| 0 <= i < j < front.len() implies #[trigger] front[i].0
                != #[trigger] front[j].0 by {
                assert(front[i] == blocks[i] && front[j] == blocks[j]);
            }
        }
        lemma_placed_distinct(front, entities);
        let m = placed(blocks, entities);
        assert forall|p: BlockPos| #[trigger] m.dom().contains(p) <==> exists|i: int|
            0 <= i < blocks.len() && #[trigger] blocks[i].0 == p by {
            assert(m == placed(front, entities).insert(blocks[k].0, (blocks[k].1, entities[k])));
            if m.dom().contains(p) && p != blocks[k].0 {
                assert(placed(front, entities).dom().contains(p));
                let i = choose|i: int| 0 <= i < front.len() && #[trigger] front[i].0 == p;
                assert(front[i] == blocks[i]);
                assert(blocks[i].0 == p);
            }
            if m.dom().contains(p) && p == blocks[k].0 {
                assert(blocks[k].0 == p);
            }
            if exists|i: int| 0 <= i < blocks.len() && #[trigger] blocks[i].0 == p {
                let i = choose|i: int| 0 <= i < blocks.len() && #[trigger] blocks[i].0 == p;
                if i < k {
                    assert(front[i] == blocks[i]);
                    assert(front[i].0 == p);
                    assert(placed(front, entities).dom().contains(p));
                }
            }
        }
        assert forall|i: int| 0 <= i < blocks.len() implies m[#[trigger] blocks[i].0] == (
            blocks[i].1,
            entities[i],
        ) by {
            if i < k {
                assert(front[i] == blocks[i]);
                assert(blocks[i].0 != blocks[k].0);
            }
        }
    }
}

/// Saving a grid and loading the text back gives back its blocks: the text
/// reads back as exactly the saved blocks, and placing them onto an emptied
/// grid restores every position with its id, provided a material exists for
/// every id in the grid.
pub proof fn lemma_save_then_load_restores_blocks(
    grid: WorldGrid,
    entries: Seq<(BlockPos, Cell)>,
    max_id: u32,
    entities: Seq<u64>,
)
    requires
        lists_exactly(entries, grid@),
        forall|p: BlockPos| #[trigger] grid@.dom().contains(p) ==> grid@[p].0 <= max_id,
        entities.len() == entries.len(),
    ensures
        loaded_blocks(world_text(saved_blocks(entries)), max_id) == saved_blocks(entries),
        block_ids(placed(loaded_blocks(world_text(saved_blocks(entries)), max_id), entities))
            == block_ids(grid@),
{
    let saved = saved_blocks(entries);
    assert forall|i: int| 0 <= i < saved.len() implies (#[trigger] saved[i]).1 <= max_id by {
        assert(grid@.dom().contains(entries[i].0));
    }
    lemma_world_text_reads_back(saved, max_id);
    assert(distinct_positions(saved)) by {
        assert forall|i: int, j: int| 0 <= i < j < saved.len() implies #[trigger] saved[i].0
            != #[trigger] saved[j].0 by {
            assert(entries[i].0 != entries[j].0);
        }
    }
    lemma_placed_distinct(saved, entities);
    let m = placed(saved, entities);
    assert forall|p: BlockPos| #[trigger] m.dom().contains(p) <==> grid@.dom().contains(p) by {
        if grid@.dom().contains(p) {
            let i = choose|i: int| 0 <= i < entries.len() && #[trigger] entries[i].0 == p;
            assert(saved[i].0 == p);
        }
        if m.dom().contains(p) {
            let i = choose|i: int| 0 <= i < saved.len() && #[trigger] saved[i].0 == p;
            assert(entries[i].0 == p);
        }
    }
    assert forall|p: BlockPos| #[trigger] m.dom().contains(p) implies m[p].0 == grid@[p].0 by {
        let i = choose|i: int| 0 <= i < saved.len() && #[trigger] saved[i].0 == p;
        assert(entries[i].0 == p);
    }
    assert(block_ids(m) =~= block_ids(grid@));
}

/// The `i`-th block of the starting ground: rows along `x`, from `-30`,
/// each of 60 blocks along `z`, from `-30`; all at height 0, all of id 0.
pub open spec fn ground_block(i: int) -> SavedBlock {
    (((-30 + i / 60) as i32, 0i32, (-30 + i % 60) as i32), 0u32)
}

/// The position lies on the starting ground: height 0, `x` and `z` from
/// `-30` up to `29`.
pub open spec fn on_ground(p: BlockPos) -> bool {
    -30 <= p.0 < 30 && p.1 == 0 && -30 <= p.2 < 30
}

/// The blocks of the starting ground, in the order in which they are laid.
pub fn ground_blocks() -> (blocks: Vec<SavedBlock>)
    ensures
        blocks@.len() == 3600,
        forall|i: int| 0 <= i < 3600 ==> #[trigger] blocks@[i] == ground_block(i),
        forall|i: int| 0 <= i < 3600 ==> (#[trigger] blocks@[i]).1 == 0 && blocks@[i].0.1 == 0,
        forall|i: int|
            0 <= i < 3600 ==> -30 <= (#[trigger] blocks@[i]).0.0 < 30 && -30 <= blocks@[i].0.2 < 30,
        forall|i: int, j: int|
            0 <= i < j < 3600 ==> (#[trigger] blocks@[i]).0 != (#[trigger] blocks@[j]).0,
        forall|p: BlockPos|
            on_ground(p) <==> exists|i: int| 0 <= i < 3600 && #[trigger] blocks@[i].0 == p,
{
    let mut blocks: Vec<SavedBlock> = Vec::new();
    let mut i: u32 = 0;
    while i < 3600
        invariant
            0 <= i <= 3600,
            blocks@.len() == i,
            forall|j: int| 0 <= j < i ==> #[trigger] blocks@[j] == ground_block(j),
            forall|j: int| 0 <= j < i ==> (#[trigger] blocks@[j]).1 == 0 && blocks@[j].0.1 == 0,
        decreases 3600 - i,
    {
        let x: i32 = -30 + (i / 60) as i32;
        let z: i32 = -30 + (i % 60) as i32;
        blocks.push(((x, 0, z), 0));
        i = i + 1;
    }
    assert forall|p: BlockPos| on_ground(p) implies exists|i: int|
        0 <= i < 3600 && #[trigger] blocks@[i].0 == p by {
        let i: int = (p.0 + 30) * 60 + (p.2 + 30);
        assert(0 <= i < 3600) by (nonlinear_arith)
            requires
                0 <= p.0 + 30 < 60,
                0 <= p.2 + 30 < 60,
                i == (p.0 + 30) * 60 + (p.2 + 30),
        ;
        assert(i / 60 == p.0 + 30 && i % 60 == p.2 + 30) by (nonlinear_arith)
            requires
                0 <= p.0 + 30 < 60,
                0 <= p.2 + 30 < 60,
                i == (p.0 + 30) * 60 + (p.2 + 30),
        ;
        assert(blocks@[i] == ground_block(i));
        assert(ground_block(i).0.0 == p.0);
        assert(ground_block(i).0.2 == p.2);
        assert(blocks@[i].0 == p);
    }
    assert forall|i: int, j: int| 0 <= i < j < 3600 implies (#[trigger] blocks@[i]).0
        != (#[trigger] blocks@[j]).0 by {
        assert(blocks@[i] == ground_block(i) && blocks@[j] == ground_block(j));
        if i / 60 == j / 60 {
            assert(i % 60 != j % 60) by (nonlinear_arith)
                requires
                    0 <= i < j,
                    i / 60 == j / 60,
            ;
        }
        assert(0 <= i / 60 < 60 && 0 <= i % 60 < 60 && 0 <= j / 60 < 60 && 0 <= j % 60 < 60)
            by (nonlinear_arith)
            requires
                0 <= i < 3600,
                0 <= j < 3600,
        ;
    }
    assert forall|i: int| 0 <= i < 3600 implies on_ground(#[trigger] blocks@[i].0) by {
        assert(blocks@[i] == ground_block(i));
        assert(0 <= i / 60 < 60 && 0 <= i % 60 < 60) by (nonlinear_arith)
            requires
                0 <= i < 3600,
        ;
    }
    blocks
}

/// Every block of the starting ground is the ground block, id 0, at height
/// 0, with `x` and `z` from -30 up to 29.
pub proof fn lemma_ground_is_block_zero(i: int)
    requires
        0 <= i < 3600,
    ensures
        ground_block(i).1 == 0,
        ground_block(i).0.1 == 0,
        -30 <= ground_block(i).0.0 < 30,
        -30 <= ground_block(i).0.2 < 30,
{
    assert(0 <= i / 60 < 60 && 0 <= i % 60 < 60) by (nonlinear_arith)
        requires
            0 <= i < 3600,
    ;
}

} // verus!
