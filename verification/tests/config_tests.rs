use gpionext_core::bitmask::EventType;
use gpionext_core::config::{
    count_pins, mask_of_pins, parse_axis_command, parse_i32_chars, parse_peripheral, parse_peripherals,
    parse_u32_chars, same_text, split_chars, trim_chars, ConfigError, PeripheralEntry,
};

fn chars(s: &str) -> Vec<char> {
    s.chars().collect()
}

fn entry(name: &str, device_index: usize, kind: &str, command: &str, pins: &[u8]) -> PeripheralEntry {
    PeripheralEntry {
        name: name.to_string(),
        device_index,
        kind: kind.to_string(),
        command: command.to_string(),
        pins: pins.to_vec(),
    }
}

#[test]
fn u32_parsing_matches_std() {
    for s in ["0", "42", "+7", "007", "4294967295", "4294967296", "", "+", "-1", " 1", "1a", "99999999999"] {
        assert_eq!(parse_u32_chars(&chars(s)), s.parse::<u32>().ok(), "input {:?}", s);
    }
}

#[test]
fn i32_parsing_matches_std() {
    for s in ["0", "-0", "255", "-255", "+12", "2147483647", "2147483648", "-2147483648", "-2147483649", "-", "", "--1", "+-1", "1 "] {
        assert_eq!(parse_i32_chars(&chars(s)), s.parse::<i32>().ok(), "input {:?}", s);
    }
}

#[test]
fn trim_matches_std() {
    for s in ["  a b  ", "\t\n x\u{3000}", "", "   ", "\u{00A0}y\u{2003}"] {
        assert_eq!(trim_chars(&chars(s)), chars(s.trim()), "input {:?}", s);
    }
}

#[test]
fn split_chars_matches_std() {
    for s in ["1,2,3", "", ",", "a,,b,", "abc"] {
        let expected: Vec<Vec<char>> = s.split(',').map(chars).collect();
        assert_eq!(split_chars(&chars(s), ','), expected, "input {:?}", s);
    }
}

#[test]
fn same_text_compares_characters() {
    assert!(same_text("KEY", "KEY"));
    assert!(!same_text("KEY", "KEYS"));
    assert!(!same_text("key", "KEY"));
}

#[test]
fn axis_command_parses_the_triple() {
    assert_eq!(parse_axis_command("(3, 0, 255)", "x").unwrap(), (3, 0, 255));
    assert_eq!(parse_axis_command("  ((3,1,-255)) ", "x").unwrap(), (3, 1, -255));
    assert_eq!(parse_axis_command("3, 1, +5", "x").unwrap(), (3, 1, 5));
}

#[test]
fn axis_command_errors() {
    match parse_axis_command("(3, 0)", "stick") {
        Err(ConfigError::AxisFormat { name, command }) => {
            assert_eq!(name, "stick");
            assert_eq!(command, "(3, 0)");
        }
        other => panic!("unexpected {:?}", other),
    }
    assert!(matches!(parse_axis_command("(x, 0, 1)", "s"), Err(ConfigError::AxisType { .. })));
    assert!(matches!(parse_axis_command("(1, -2, 1)", "s"), Err(ConfigError::AxisCode { .. })));
    assert!(matches!(parse_axis_command("(1, 2, 1.5)", "s"), Err(ConfigError::AxisValue { .. })));
    assert!(matches!(parse_axis_command("(1, 2, 3, 4)", "s"), Err(ConfigError::AxisFormat { .. })));
}

#[test]
fn pin_mask_and_count_from_pins() {
    let mask = mask_of_pins(&vec![3, 5, 5, 64, 191]);
    assert_eq!(mask, [(1 << 3) | (1 << 5), 1, 1u64 << 63]);
    assert_eq!(count_pins(&mask), 4);
    assert_eq!(count_pins(&[0, 0, 0]), 0);
}

#[test]
fn parse_peripheral_button() {
    let p = parse_peripheral(&entry("A", 1, "BUTTON", "304", &[11, 13])).unwrap();
    assert_eq!(p.name, "A");
    assert_eq!(p.device_index, 1);
    assert_eq!(p.pin_mask, [(1 << 11) | (1 << 13), 0, 0]);
    assert_eq!(p.pin_count, 2);
    assert!(matches!(p.event_type, EventType::Button { evdev_code: 304 }));
    assert!(!p.is_pressed);
    assert_eq!(p.hold_generation, 0);
}

#[test]
fn parse_peripheral_kinds() {
    let k = parse_peripheral(&entry("K", 4, "KEY", "30", &[7])).unwrap();
    assert!(matches!(k.event_type, EventType::Key { evdev_code: 30 }));
    let a = parse_peripheral(&entry("X", 0, "AXIS", "(3, 0, -255)", &[7])).unwrap();
    assert!(matches!(a.event_type, EventType::Axis { evdev_type: 3, evdev_code: 0, press_value: -255 }));
    let c = parse_peripheral(&entry("C", 9, "COMMAND", "echo hi; ls", &[7, 8])).unwrap();
    match &c.event_type {
        EventType::Command { bash } => assert_eq!(bash, "echo hi; ls"),
        other => panic!("unexpected {:?}", other),
    }
    assert_eq!(c.device_index, 5);
}

#[test]
fn parse_peripheral_errors() {
    match parse_peripheral(&entry("A", 0, "BUTTON", "x304", &[11])) {
        Err(ConfigError::ButtonCode { name, command }) => {
            assert_eq!(name, "A");
            assert_eq!(command, "x304");
        }
        other => panic!("unexpected {:?}", other),
    }
    assert!(matches!(parse_peripheral(&entry("K", 0, "KEY", "", &[])), Err(ConfigError::KeyCode { .. })));
    match parse_peripheral(&entry("Z", 0, "button", "1", &[])) {
        Err(ConfigError::UnknownType { kind, name }) => {
            assert_eq!(kind, "button");
            assert_eq!(name, "Z");
        }
        other => panic!("unexpected {:?}", other),
    }
    assert!(matches!(
        parse_peripheral(&entry("X", 0, "AXIS", "(1,2)", &[])),
        Err(ConfigError::AxisFormat { .. })
    ));
}

#[test]
fn parse_peripherals_stops_at_the_first_rejection() {
    let entries = vec![
        entry("A", 0, "BUTTON", "1", &[11]),
        entry("B", 0, "KEY", "oops", &[13]),
        entry("C", 0, "WHAT", "1", &[15]),
    ];
    assert!(matches!(parse_peripherals(&entries), Err(ConfigError::KeyCode { .. })));
    let ok = parse_peripherals(&vec![entry("A", 0, "BUTTON", "1", &[11]), entry("C", 5, "COMMAND", "ls", &[])]).unwrap();
    assert_eq!(ok.len(), 2);
    assert_eq!(ok[0].name, "A");
    assert_eq!(ok[1].name, "C");
    assert!(parse_peripherals(&vec![]).unwrap().is_empty());
}

#[test]
fn config_error_messages() {
    let e = ConfigError::ButtonCode { name: "A".to_string(), command: "x".to_string() };
    assert_eq!(e.message(), "BUTTON 'A' command must be an integer evdev code, got 'x'");
    let e = ConfigError::KeyCode { name: "K".to_string(), command: "y".to_string() };
    assert_eq!(e.message(), "KEY 'K' command must be an integer evdev code, got 'y'");
    let e = ConfigError::AxisFormat { name: "X".to_string(), command: "(1)".to_string() };
    assert_eq!(e.message(), "AXIS 'X' command must be '(type, code, value)', got '(1)'");
    assert_eq!(ConfigError::AxisType { name: "X".to_string() }.message(), "AXIS 'X' evdev_type not an int");
    assert_eq!(ConfigError::AxisCode { name: "X".to_string() }.message(), "AXIS 'X' evdev_code not an int");
    assert_eq!(ConfigError::AxisValue { name: "X".to_string() }.message(), "AXIS 'X' press_value not an int");
    let e = ConfigError::UnknownType { kind: "FOO".to_string(), name: "Z".to_string() };
    assert_eq!(e.message(), "Unknown peripheral type 'FOO' for 'Z'");
}
