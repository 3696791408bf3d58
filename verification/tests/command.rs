use somfy::Command;

#[test]
fn every_known_name_parses() {
    assert_eq!(Command::from_str("my"), Ok(Command::My));
    assert_eq!(Command::from_str("up"), Ok(Command::Up));
    assert_eq!(Command::from_str("myup"), Ok(Command::MyUp));
    assert_eq!(Command::from_str("down"), Ok(Command::Down));
    assert_eq!(Command::from_str("mydown"), Ok(Command::MyDown));
    assert_eq!(Command::from_str("updown"), Ok(Command::UpDown));
    assert_eq!(Command::from_str("myupdown"), Ok(Command::MyUpDown));
    assert_eq!(Command::from_str("prog"), Ok(Command::Prog));
    assert_eq!(Command::from_str("sunflag"), Ok(Command::SunFlag));
    assert_eq!(Command::from_str("flag"), Ok(Command::Flag));
}

#[test]
fn parsing_ignores_ascii_case() {
    assert_eq!(Command::from_str("Up"), Ok(Command::Up));
    assert_eq!(Command::from_str("UP"), Ok(Command::Up));
    assert_eq!(Command::from_str("uP"), Ok(Command::Up));
    assert_eq!(Command::from_str("MyUpDown"), Ok(Command::MyUpDown));
    assert_eq!(Command::from_str("SUNFLAG"), Ok(Command::SunFlag));
}

#[test]
fn unknown_names_are_rejected() {
    assert!(Command::from_str("upp").is_err());
    assert!(Command::from_str("").is_err());
    assert!(Command::from_str("myy").is_err());
    assert!(Command::from_str("up ").is_err());
    assert!(Command::from_str("stop").is_err());
    assert!(Command::from_str("ü").is_err());
}

#[test]
fn command_bytes_hold_the_wire_codes() {
    assert_eq!(Command::My.byte(), 0x10);
    assert_eq!(Command::Up.byte(), 0x20);
    assert_eq!(Command::MyUp.byte(), 0x30);
    assert_eq!(Command::Down.byte(), 0x40);
    assert_eq!(Command::MyDown.byte(), 0x50);
    assert_eq!(Command::UpDown.byte(), 0x60);
    assert_eq!(Command::MyUpDown.byte(), 0x70);
    assert_eq!(Command::Prog.byte(), 0x80);
    assert_eq!(Command::SunFlag.byte(), 0x90);
    assert_eq!(Command::Flag.byte(), 0xA0);
}
