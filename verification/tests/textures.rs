use alloy_project::textures::{block_names, texture_asset};

fn names(files: &[&str]) -> Vec<String> {
    block_names(&files.iter().map(|f| f.to_string()).collect())
}

#[test]
fn any_png_name_becomes_a_block() {
    assert_eq!(names(&["stone.png", "sand.png"]), vec!["0", "sand", "stone"]);
}

#[test]
fn the_ground_is_always_block_zero() {
    assert_eq!(names(&[]), vec!["0"]);
    assert_eq!(names(&["0.png"]), vec!["0"]);
    assert_eq!(names(&["stone.png", "0.png"]), vec!["0", "stone"]);
}

#[test]
fn other_files_are_not_blocks() {
    assert_eq!(
        names(&["readme.txt", ".png", "png", "stone.PNG", "a.png.bak", "grass.png"]),
        vec!["0", "grass"]
    );
}

#[test]
fn numbered_textures_keep_their_numbers() {
    let files = ["3.png", "10.png", "1.png", "0.png", "2.png", "4.png", "5.png", "6.png", "7.png", "8.png", "9.png"];
    let got = names(&files);
    let expected: Vec<String> = (0..=10).map(|i: u32| i.to_string()).collect();
    assert_eq!(got, expected);
}

#[test]
fn listing_order_does_not_change_ids() {
    let a = names(&["sand.png", "stone.png", "1.png", "dirt.png"]);
    let b = names(&["dirt.png", "1.png", "stone.png", "sand.png"]);
    assert_eq!(a, b);
    assert_eq!(a, vec!["0", "1", "dirt", "sand", "stone"]);
}

#[test]
fn a_file_listed_twice_is_one_block() {
    assert_eq!(names(&["stone.png", "stone.png"]), vec!["0", "stone"]);
}

#[test]
fn texture_file_of_a_block() {
    assert_eq!(texture_asset(&"stone".to_string()), "stone.png");
    assert_eq!(texture_asset(&"0".to_string()), "0.png");
}
