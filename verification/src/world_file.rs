//! The world file: one line `x y z id` per block, lines joined by `'\n'`.
use vstd::prelude::*;
use crate::decimal::{
    i32_text, u32_text, parse_i32, parse_u32, push_i32, push_u32, parse_i32_chars,
    parse_u32_chars, lemma_i32_text_reads_back, lemma_u32_text_reads_back, lemma_decimal_reads_back,
    is_digit,
};
use crate::grid::{BlockPos, Cell};
use crate::text::{ws_tokens, line_pieces, is_ws, is_word, chars_of, split_tokens, string_from_chars, char_views};

verus! {

/// A block as the world file records it: its position and its id.
pub type SavedBlock = (BlockPos, u32);

/// The line that records one block.
pub open spec fn block_line(b: SavedBlock) -> Seq<char> {
    i32_text(b.0.0) + seq![' '] + i32_text(b.0.1) + seq![' '] + i32_text(b.0.2) + seq![' ']
        + u32_text(b.1)
}

/// The text of a world file: the lines of the blocks, joined by `'\n'`.
pub open spec fn world_text(blocks: Seq<SavedBlock>) -> Seq<char>
    decreases blocks.len(),
{
    if blocks.len() == 0 {
        seq![]
    } else if blocks.len() == 1 {
        block_line(blocks[0])
    } else {
        world_text(blocks.drop_last()) + seq!['\n'] + block_line(blocks.last())
    }
}

/// The block that one line records, if the line is exactly four tokens that
/// read as three `i32` coordinates and a `u32` id, and a material exists for
/// the id (ids `0` to `max_id` have one).
pub open spec fn parse_block_line(line: Seq<char>, max_id: u32) -> Option<SavedBlock> {
    let t = ws_tokens(line);
    if t.len() == 4 {
        match (parse_i32(t[0]), parse_i32(t[1]), parse_i32(t[2]), parse_u32(t[3])) {
            (Some(x), Some(y), Some(z), Some(id)) => if id <= max_id {
                Some(((x, y, z), id))
            } else {
                None
            },
            _ => None,
        }
    } else {
        None
    }
}

/// The blocks that the lines record, in order; other lines are skipped.
pub open spec fn parse_lines(lines: Seq<Seq<char>>, max_id: u32) -> Seq<SavedBlock>
    decreases lines.len(),
{
    if lines.len() == 0 {
        seq![]
    } else {
        let prev = parse_lines(lines.drop_last(), max_id);
        match parse_block_line(lines.last(), max_id) {
            Some(b) => prev.push(b),
            None => prev,
        }
    }
}

/// The blocks that loading the world text `text` places, in order.
pub open spec fn loaded_blocks(text: Seq<char>, max_id: u32) -> Seq<SavedBlock> {
    parse_lines(line_pieces(text), max_id)
}

/// The saved form of grid entries: position and id, the entity dropped.
pub open spec fn saved_blocks(entries: Seq<(BlockPos, Cell)>) -> Seq<SavedBlock> {
    entries.map_values(|e: (BlockPos, Cell)| (e.0, e.1.0))
}

// ---------------------------------------------------------------------------
// Lemmas on tokens and line pieces
// ---------------------------------------------------------------------------

/// Appending a word after whitespace (or at the start) adds it as a token.
pub proof fn lemma_tokens_push_word(x: Seq<char>, t: Seq<char>)
    requires
        is_word(t),
        x.len() == 0 || is_ws(x.last()),
    ensures
        ws_tokens(x + t) == ws_tokens(x).push(t),
    decreases t.len(),
{
    let s = x + t;
    assert(s.drop_last() =~= x + t.drop_last());
    assert(s.last() == t.last());
    assert(!is_ws(t[t.len() - 1]));
    if t.len() == 1 {
        assert(t.drop_last() =~= Seq::<char>::empty());
        assert(x + t.drop_last() =~= x);
        if s.len() >= 2 {
            assert(s[s.len() - 2] == x.last());
        }
        assert(t =~= seq![t.last()]);
    } else {
        let t2 = t.drop_last();
        assert(is_word(t2)) by {
            assert forall|i: int| 0 <= i < t2.len() implies !is_ws(#[trigger] t2[i]) by {
                assert(t2[i] == t[i]);
            }
        }
        lemma_tokens_push_word(x, t2);
        assert(s[s.len() - 2] == t[t.len() - 2]);
        assert(!is_ws(t[t.len() - 2]));
        assert(t2.push(t.last()) =~= t);
        assert(ws_tokens(x).push(t2).update(ws_tokens(x).len() as int, t2.push(t.last()))
            =~= ws_tokens(x).push(t));
    }
}

/// A trailing whitespace character adds no token.
pub proof fn lemma_tokens_push_ws(x: Seq<char>, c: char)
    requires
        is_ws(c),
    ensures
        ws_tokens(x.push(c)) == ws_tokens(x),
{
    assert(x.push(c).drop_last() =~= x);
}

/// Characters without `'\n'` extend the last line piece.
pub proof fn lemma_pieces_push_text(x: Seq<char>, t: Seq<char>)
    requires
        forall|i: int| 0 <= i < t.len() ==> #[trigger] t[i] != '\n',
    ensures
        line_pieces(x).len() >= 1,
        line_pieces(x + t) == line_pieces(x).update(
            line_pieces(x).len() - 1,
            line_pieces(x).last() + t,
        ),
    decreases t.len(),
{
    lemma_pieces_nonempty(x);
    if t.len() == 0 {
        assert(x + t =~= x);
        assert(line_pieces(x).last() + t =~= line_pieces(x).last());
        assert(line_pieces(x).update(line_pieces(x).len() - 1, line_pieces(x).last())
            =~= line_pieces(x));
    } else {
        let t2 = t.drop_last();
        assert forall|i: int| 0 <= i < t2.len() implies #[trigger] t2[i] != '\n' by {
            assert(t2[i] == t[i]);
        }
        lemma_pieces_push_text(x, t2);
        assert((x + t).drop_last() =~= x + t2);
        assert((x + t).last() == t.last());
        assert(t[t.len() - 1] != '\n');
        assert((line_pieces(x).last() + t2).push(t.last()) =~= line_pieces(x).last() + t);
        assert(line_pieces(x + t) =~= line_pieces(x).update(
            line_pieces(x).len() - 1,
            line_pieces(x).last() + t,
        ));
    }
}

/// There is always at least one line piece.
pub proof fn lemma_pieces_nonempty(s: Seq<char>)
    ensures
        line_pieces(s).len() >= 1,
    decreases s.len(),
{
    if s.len() > 0 {
        lemma_pieces_nonempty(s.drop_last());
    }
}

/// The characters of a number's text.
proof fn lemma_number_text_chars(n: i32)
    ensures
        is_word(i32_text(n)),
        forall|i: int| 0 <= i < i32_text(n).len() ==> #[trigger] i32_text(n)[i] != '\n',
{
    if n < 0 {
        lemma_decimal_reads_back((-n) as nat);
        let d = crate::decimal::decimal((-n) as nat);
        assert forall|i: int| 0 <= i < i32_text(n).len() implies !is_ws(#[trigger] i32_text(n)[i])
            && i32_text(n)[i] != '\n' by {
            if i > 0 {
                assert(i32_text(n)[i] == d[i - 1]);
                assert(is_digit(d[i - 1]));
            }
        }
    } else {
        lemma_decimal_reads_back(n as nat);
        let d = crate::decimal::decimal(n as nat);
        assert forall|i: int| 0 <= i < i32_text(n).len() implies !is_ws(#[trigger] i32_text(n)[i])
            && i32_text(n)[i] != '\n' by {
            assert(is_digit(d[i]));
        }
    }
}

/// The characters of an id's text.
proof fn lemma_id_text_chars(n: u32)
    ensures
        is_word(u32_text(n)),
        forall|i: int| 0 <= i < u32_text(n).len() ==> #[trigger] u32_text(n)[i] != '\n',
{
    lemma_decimal_reads_back(n as nat);
    let d = crate::decimal::decimal(n as nat);
    assert forall|i: int| 0 <= i < u32_text(n).len() implies !is_ws(#[trigger] u32_text(n)[i])
        && u32_text(n)[i] != '\n' by {
        assert(is_digit(d[i]));
    }
}

/// A block's line holds no `'\n'` and its tokens are the four numbers.
pub proof fn lemma_block_line_tokens(b: SavedBlock)
    ensures
        forall|i: int| 0 <= i < block_line(b).len() ==> #[trigger] block_line(b)[i] != '\n',
        ws_tokens(block_line(b)) == seq![
            i32_text(b.0.0),
            i32_text(b.0.1),
            i32_text(b.0.2),
            u32_text(b.1),
        ],
{
    let a = i32_text(b.0.0);
    let bb = i32_text(b.0.1);
    let c = i32_text(b.0.2);
    let d = u32_text(b.1);
    lemma_number_text_chars(b.0.0);
    lemma_number_text_chars(b.0.1);
    lemma_number_text_chars(b.0.2);
    lemma_id_text_chars(b.1);
    let sp = seq![' '];
    assert(is_ws(' '));
    let e: Seq<char> = seq![];
    assert(e + a =~= a);
    lemma_tokens_push_word(e, a);
    assert(ws_tokens(e) =~= Seq::<Seq<char>>::empty());
    lemma_tokens_push_ws(a, ' ');
    assert(a + sp =~= a.push(' '));
    lemma_tokens_push_word(a + sp, bb);
    lemma_tokens_push_ws(a + sp + bb, ' ');
    assert(a + sp + bb + sp =~= (a + sp + bb).push(' '));
    lemma_tokens_push_word(a + sp + bb + sp, c);
    lemma_tokens_push_ws(a + sp + bb + sp + c, ' ');
    assert(a + sp + bb + sp + c + sp =~= (a + sp + bb + sp + c).push(' '));
    lemma_tokens_push_word(a + sp + bb + sp + c + sp, d);
    assert(block_line(b) == a + sp + bb + sp + c + sp + d);
    assert(ws_tokens(block_line(b)) =~= seq![a, bb, c, d]);
    let l = block_line(b);
    assert forall|i: int| 0 <= i < l.len() implies #[trigger] l[i] != '\n' by {
        if i < a.len() {
            assert(l[i] == a[i]);
        } else if i < a.len() + 1 {
        } else if i < a.len() + 1 + bb.len() {
            assert(l[i] == bb[i - a.len() - 1]);
        } else if i < a.len() + 2 + bb.len() {
        } else if i < a.len() + 2 + bb.len() + c.len() {
            assert(l[i] == c[i - a.len() - 2 - bb.len()]);
        } else if i < a.len() + 3 + bb.len() + c.len() {
        } else {
            assert(l[i] == d[i - a.len() - 3 - bb.len() - c.len()]);
        }
    }
}

/// A block's line reads back as the block when a material exists for its id.
pub proof fn lemma_block_line_reads_back(b: SavedBlock, max_id: u32)
    requires
        b.1 <= max_id,
    ensures
        parse_block_line(block_line(b), max_id) == Some(b),
{
    lemma_block_line_tokens(b);
    lemma_i32_text_reads_back(b.0.0);
    lemma_i32_text_reads_back(b.0.1);
    lemma_i32_text_reads_back(b.0.2);
    lemma_u32_text_reads_back(b.1);
}

/// The line pieces of a world text are the lines of its blocks.
pub proof fn lemma_world_text_pieces(blocks: Seq<SavedBlock>)
    requires
        blocks.len() > 0,
    ensures
        line_pieces(world_text(blocks)) == blocks.map_values(|b: SavedBlock| block_line(b)),
    decreases blocks.len(),
{
    let last = block_line(blocks.last());
    lemma_block_line_tokens(blocks.last());
    if blocks.len() == 1 {
        let e: Seq<char> = seq![];
        lemma_pieces_push_text(e, last);
        assert(e + last =~= last);
        assert(line_pieces(e) =~= seq![e]);
        assert(e + last =~= last);
        assert(line_pieces(last) =~= seq![last]);
        assert(blocks.map_values(|b: SavedBlock| block_line(b)) =~= seq![last]);
    } else {
        let prev = world_text(blocks.drop_last());
        lemma_world_text_pieces(blocks.drop_last());
        let with_nl = prev + seq!['\n'];
        assert(with_nl.drop_last() =~= prev);
        assert(line_pieces(with_nl) == line_pieces(prev).push(seq![]));
        lemma_pieces_push_text(with_nl, last);
        let e: Seq<char> = seq![];
        assert(e + last =~= last);
        assert(world_text(blocks) == with_nl + last);
        assert(line_pieces(world_text(blocks)) =~= blocks.map_values(
            |b: SavedBlock| block_line(b),
        ));
    }
}

/// Reading the lines of blocks gives back the blocks, when a material exists
/// for each id.
pub proof fn lemma_parse_block_lines(blocks: Seq<SavedBlock>, max_id: u32)
    requires
        forall|i: int| 0 <= i < blocks.len() ==> (#[trigger] blocks[i]).1 <= max_id,
    ensures
        parse_lines(blocks.map_values(|b: SavedBlock| block_line(b)), max_id) == blocks,
    decreases blocks.len(),
{
    let lines = blocks.map_values(|b: SavedBlock| block_line(b));
    if blocks.len() > 0 {
        assert(lines.drop_last() =~= blocks.drop_last().map_values(|b: SavedBlock| block_line(b)));
        lemma_parse_block_lines(blocks.drop_last(), max_id);
        assert(blocks[blocks.len() - 1].1 <= max_id);
        lemma_block_line_reads_back(blocks.last(), max_id);
        assert(blocks.drop_last().push(blocks.last()) =~= blocks);
    } else {
        assert(lines =~= Seq::<Seq<char>>::empty());
    }
}

/// Loading what was saved gives back the saved blocks, in the same order,
/// provided a material exists for every saved id.
pub proof fn lemma_world_text_reads_back(blocks: Seq<SavedBlock>, max_id: u32)
    requires
        forall|i: int| 0 <= i < blocks.len() ==> (#[trigger] blocks[i]).1 <= max_id,
    ensures
        loaded_blocks(world_text(blocks), max_id) == blocks,
{
    if blocks.len() == 0 {
        let e: Seq<char> = seq![];
        assert(line_pieces(e) =~= seq![e]);
        assert(ws_tokens(e) =~= Seq::<Seq<char>>::empty());
        assert(seq![e].drop_last() =~= Seq::<Seq<char>>::empty());
        assert(parse_lines(Seq::<Seq<char>>::empty(), max_id) =~= Seq::<SavedBlock>::empty());
        assert(parse_block_line(e, max_id) is None);
        assert(seq![e].last() == e);
        assert(parse_lines(seq![e], max_id) =~= blocks);
    } else {
        lemma_world_text_pieces(blocks);
        lemma_parse_block_lines(blocks, max_id);
    }
}

/// Every block that reading lines gives has a material: its id is at most
/// `max_id`.
proof fn lemma_parsed_ids_have_material(lines: Seq<Seq<char>>, max_id: u32)
    ensures
        forall|i: int|
            0 <= i < parse_lines(lines, max_id).len() ==> (#[trigger] parse_lines(
                lines,
                max_id,
            )[i]).1 <= max_id,
    decreases lines.len(),
{
    if lines.len() > 0 {
        lemma_parsed_ids_have_material(lines.drop_last(), max_id);
        let prev = parse_lines(lines.drop_last(), max_id);
        match parse_block_line(lines.last(), max_id) {
            Some(b) => {
                assert(b.1 <= max_id);
                assert forall|i: int| 0 <= i < prev.push(b).len() implies (#[trigger] prev.push(
                    b,
                )[i]).1 <= max_id by {
                    if i < prev.len() {
                        assert(prev.push(b)[i] == prev[i]);
                    }
                }
            },
            None => {},
        }
    }
}

/// Loading never places a block without a material: every loaded id is at
/// most `max_id`.
pub proof fn lemma_loaded_ids_have_material(text: Seq<char>, max_id: u32)
    ensures
        forall|i: int|
            0 <= i < loaded_blocks(text, max_id).len() ==> (#[trigger] loaded_blocks(
                text,
                max_id,
            )[i]).1 <= max_id,
{
    lemma_parsed_ids_have_material(line_pieces(text), max_id);
}

// ---------------------------------------------------------------------------
// Writing and reading world text
// ---------------------------------------------------------------------------

/// Appends the line that records `b`.
fn push_block_line(out: &mut Vec<char>, b: SavedBlock)
    ensures
        final(out)@ == old(out)@ + block_line(b),
{
    push_i32(out, b.0.0);
    out.push(' ');
    push_i32(out, b.0.1);
    out.push(' ');
    push_i32(out, b.0.2);
    out.push(' ');
    push_u32(out, b.1);
    assert(out@ =~= old(out)@ + block_line(b));
}

/// The world text that records `blocks`, one line each, in order.
pub fn world_text_of(blocks: &Vec<SavedBlock>) -> (text: String)
    ensures
        text@ == world_text(blocks@),
{
    let mut out: Vec<char> = Vec::new();
    let n = blocks.len();
    let mut i: usize = 0;
    while i < n
        invariant
            n == blocks@.len(),
            0 <= i <= n,
            out@ == world_text(blocks@.take(i as int)),
        decreases n - i,
    {
        let ghost before = out@;
        assert(blocks@.take(i + 1).drop_last() =~= blocks@.take(i as int));
        assert(blocks@.take(i + 1).last() == blocks@[i as int]);
        if i > 0 {
            out.push('\n');
        } else {
            assert(before =~= Seq::<char>::empty());
        }
        push_block_line(&mut out, blocks[i]);
        if i == 0 {
            assert(out@ =~= block_line(blocks@[0]));
        } else {
            assert(out@ =~= before + seq!['\n'] + block_line(blocks@[i as int]));
        }
        i = i + 1;
    }
    assert(blocks@.take(n as int) =~= blocks@);
    string_from_chars(&out)
}

/// The block that one line records, as `parse_block_line` says.
fn read_block_line(line: &Vec<char>, max_id: u32) -> (b: Option<SavedBlock>)
    ensures
        b == parse_block_line(line@, max_id),
{
    let tokens = split_tokens(line);
    if tokens.len() != 4 {
        return None;
    }
    assert(char_views(tokens@)[0] == tokens@[0]@);
    assert(char_views(tokens@)[1] == tokens@[1]@);
    assert(char_views(tokens@)[2] == tokens@[2]@);
    assert(char_views(tokens@)[3] == tokens@[3]@);
    let x = parse_i32_chars(&tokens[0]);
    let y = parse_i32_chars(&tokens[1]);
    let z = parse_i32_chars(&tokens[2]);
    let id = parse_u32_chars(&tokens[3]);
    match (x, y, z, id) {
        (Some(x), Some(y), Some(z), Some(id)) => if id <= max_id {
            Some(((x, y, z), id))
        } else {
            None
        },
        _ => None,
    }
}

/// The blocks that loading the world text `text` places, in order: each line
/// that is exactly `x y z id`, with a material for `id`, gives one block.
pub fn parse_world(text: &str, max_id: u32) -> (blocks: Vec<SavedBlock>)
    ensures
        blocks@ == loaded_blocks(text@, max_id),
{
    let chars = chars_of(text);
    let n = chars.len();
    let mut blocks: Vec<SavedBlock> = Vec::new();
    let mut line: Vec<char> = Vec::new();
    let mut i: usize = 0;
    proof {
        assert(chars@.take(0) =~= Seq::<char>::empty());
    }
    while i < n
        invariant
            n == chars@.len(),
            0 <= i <= n,
            line_pieces(chars@.take(i as int)).len() >= 1,
            line@ == line_pieces(chars@.take(i as int)).last(),
            blocks@ == parse_lines(line_pieces(chars@.take(i as int)).drop_last(), max_id),
        decreases n - i,
    {
        let c = chars[i];
        let ghost pieces = line_pieces(chars@.take(i as int));
        assert(chars@.take(i + 1).drop_last() =~= chars@.take(i as int));
        assert(chars@.take(i + 1).last() == c);
        if c == '\n' {
            let found = read_block_line(&line, max_id);
            match found {
                Some(b) => blocks.push(b),
                None => {},
            }
            line = Vec::new();
            assert(line_pieces(chars@.take(i + 1)) == pieces.push(seq![]));
            assert(pieces.push(seq![]).drop_last() =~= pieces);
            assert(pieces.drop_last().push(pieces.last()) =~= pieces);
        } else {
            line.push(c);
            assert(line_pieces(chars@.take(i + 1)) == pieces.update(
                pieces.len() - 1,
                pieces.last().push(c),
            ));
            assert(pieces.update(pieces.len() - 1, pieces.last().push(c)).drop_last()
                =~= pieces.drop_last());
        }
        i = i + 1;
    }
    assert(chars@.take(n as int) =~= chars@);
    let ghost pieces = line_pieces(chars@);
    let found = read_block_line(&line, max_id);
    match found {
        Some(b) => blocks.push(b),
        None => {},
    }
    assert(pieces.drop_last().push(pieces.last()) =~= pieces);
    blocks
}

} // verus!
