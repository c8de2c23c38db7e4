use alloy_project::decimal::{parse_i32_chars, parse_u32_chars, push_i32, push_u32};
use alloy_project::grid::{ground_blocks, WorldGrid};
use alloy_project::text::{chars_of, is_whitespace, split_whitespace};
use alloy_project::world_file::{parse_world, world_text_of};

fn chars(s: &str) -> Vec<char> {
    s.chars().collect()
}

#[test]
fn decimal_text_matches_display() {
    for n in [0i32, 7, -7, 10, 1234, -98765, i32::MAX, i32::MIN] {
        let mut out = Vec::new();
        push_i32(&mut out, n);
        assert_eq!(out.iter().collect::<String>(), n.to_string());
    }
    for n in [0u32, 9, 10, 4_000_000_000, u32::MAX] {
        let mut out = Vec::new();
        push_u32(&mut out, n);
        assert_eq!(out.iter().collect::<String>(), n.to_string());
    }
}

#[test]
fn i32_reading_matches_from_str() {
    for s in [
        "0", "+5", "-5", "-0", "007", "2147483647", "-2147483648", "2147483648",
        "-2147483649", "", "-", "+", "+-1", "1a", "99999999999999999999", "00000000000000000012",
    ] {
        assert_eq!(parse_i32_chars(&chars(s)), s.parse::<i32>().ok(), "input {:?}", s);
    }
}

#[test]
fn u32_reading_matches_from_str() {
    for s in ["0", "+0", "-0", "4294967295", "4294967296", "", "+", "12x", "-1"] {
        assert_eq!(parse_u32_chars(&chars(s)), s.parse::<u32>().ok(), "input {:?}", s);
    }
}

#[test]
fn whitespace_matches_char_is_whitespace() {
    for c in ['\t', '\n', '\u{b}', '\u{c}', '\r', ' ', '\u{85}', '\u{a0}', '\u{1680}', '\u{2000}',
        '\u{200a}', '\u{2028}', '\u{2029}', '\u{202f}', '\u{205f}', '\u{3000}', 'a', '0', '\u{200b}',
        '\u{180e}', '_', '\u{feff}']
    {
        assert_eq!(is_whitespace(c), c.is_whitespace(), "char {:?}", c);
    }
}

#[test]
fn tokens_match_split_whitespace() {
    for s in ["", "   ", "a", "  /tp 1  2\t3 ", "x\u{a0}y\u{3000}z", "\r\nab cd\r"] {
        let ours = split_whitespace(s);
        let std: Vec<String> = s.split_whitespace().map(|t| t.to_string()).collect();
        assert_eq!(ours, std);
    }
    assert_eq!(chars_of("héllo"), vec!['h', 'é', 'l', 'l', 'o']);
}

#[test]
fn world_text_has_one_line_per_block() {
    let blocks = vec![((1, 0, -2), 3u32), ((-30, 5, 29), 0u32)];
    assert_eq!(world_text_of(&blocks), "1 0 -2 3\n-30 5 29 0");
    assert_eq!(world_text_of(&Vec::new()), "");
}

#[test]
fn loading_skips_lines_that_are_not_blocks() {
    let text = "1 2 3 4\r\n\n  -5 6 7 0  \nbad line\n1 2 3\n1 2 3 4 5\n8 8 8 9\n+1 -0 2 +1";
    let blocks = parse_world(text, 4);
    assert_eq!(blocks, vec![((1, 2, 3), 4), ((-5, 6, 7), 0), ((1, 0, 2), 1)]);
}

#[test]
fn loading_drops_blocks_without_material() {
    assert_eq!(parse_world("0 0 0 2\n0 1 0 3", 2), vec![((0, 0, 0), 2)]);
    assert_eq!(parse_world("", 10), vec![]);
}

#[test]
fn save_then_load_gives_back_the_grid() {
    let mut grid = WorldGrid::new();
    grid.place((0, 0, 0), 1, 100);
    grid.place((-3, 7, 12), 2, 101);
    grid.place((i32::MIN, i32::MAX, 0), 0, 102);
    let text = grid.save_text();
    let mut loaded = parse_world(&text, 2);
    loaded.sort();
    assert_eq!(loaded, vec![((i32::MIN, i32::MAX, 0), 0), ((-3, 7, 12), 2), ((0, 0, 0), 1)]);
    let entities: Vec<u64> = (0..loaded.len() as u64).map(|i| 500 + i).collect();
    let mut restored = WorldGrid::new();
    restored.restore(&loaded, &entities);
    for (pos, id) in [((0, 0, 0), 1u32), ((-3, 7, 12), 2), ((i32::MIN, i32::MAX, 0), 0)] {
        assert_eq!(restored.get(pos).map(|c| c.0), Some(id));
    }
    assert!(!restored.contains((1, 1, 1)));
}

#[test]
fn empty_world_saves_as_empty_text() {
    let grid = WorldGrid::new();
    assert_eq!(grid.save_text(), "");
}

#[test]
fn ground_is_a_square_at_height_zero() {
    let ground = ground_blocks();
    assert_eq!(ground.len(), 3600);
    assert_eq!(ground[0], ((-30, 0, -30), 0));
    assert_eq!(ground[1], ((-30, 0, -29), 0));
    assert_eq!(ground[60], ((-29, 0, -30), 0));
    assert_eq!(ground[3599], ((29, 0, 29), 0));
    let mut positions: Vec<_> = ground.iter().map(|b| b.0).collect();
    positions.sort();
    positions.dedup();
    assert_eq!(positions.len(), 3600);
}
