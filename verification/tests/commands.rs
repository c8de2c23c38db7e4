use alloy_project::commands::{parse_command, Command};

#[test]
fn blank_lines_give_no_command() {
    assert!(parse_command("").is_none());
    assert!(parse_command(" \t ").is_none());
}

#[test]
fn mode_and_simple_commands() {
    assert!(matches!(parse_command("/fly"), Some(Command::Fly)));
    assert!(matches!(parse_command("  /fall  "), Some(Command::Fall)));
    assert!(matches!(parse_command("/noclip extra"), Some(Command::Noclip)));
    assert!(matches!(parse_command("/spawn"), Some(Command::Spawn)));
    assert!(matches!(parse_command("/reset"), Some(Command::Reset)));
    assert!(matches!(parse_command("/list"), Some(Command::List)));
    assert!(matches!(parse_command("/stop"), Some(Command::Stop)));
    assert!(matches!(parse_command("/help"), Some(Command::Help)));
}

#[test]
fn teleport_needs_three_coordinates() {
    match parse_command("/tp 1 -2.5 3 9") {
        Some(Command::Teleport(x, y, z)) => {
            assert_eq!((x.as_str(), y.as_str(), z.as_str()), ("1", "-2.5", "3"));
        },
        _ => panic!("expected a teleport"),
    }
    assert!(matches!(parse_command("/tp 1 2"), Some(Command::TeleportMissingCoordinates)));
}

#[test]
fn save_and_load_name_a_file_in_the_worlds_folder() {
    match parse_command("/save") {
        Some(Command::Save(p)) => assert_eq!(p, "grids/world.txt"),
        _ => panic!("expected save"),
    }
    match parse_command("/load castle.txt") {
        Some(Command::Load(p)) => assert_eq!(p, "grids/castle.txt"),
        _ => panic!("expected load"),
    }
}

#[test]
fn settings_carry_their_value() {
    match parse_command("/sensivity 1.5") {
        Some(Command::Sensitivity(Some(v))) => assert_eq!(v, "1.5"),
        _ => panic!("expected sensitivity"),
    }
    assert!(matches!(parse_command("/sensitivity"), Some(Command::Sensitivity(None))));
    assert!(matches!(parse_command("/speed"), Some(Command::Speed(None))));
    match parse_command("/fov 90") {
        Some(Command::Fov(Some(v))) => assert_eq!(v, "90"),
        _ => panic!("expected fov"),
    }
}

#[test]
fn unknown_commands_keep_their_word() {
    match parse_command("/jump now") {
        Some(Command::Unknown(w)) => assert_eq!(w, "/jump"),
        _ => panic!("expected unknown"),
    }
    assert!(matches!(parse_command("/FLY"), Some(Command::Unknown(_))));
}
