use gpionext_core::bitmask::{EventType, Peripheral};
use gpionext_core::text::split_commands;
use gpionext_core::uinput::{dispatch_press, dispatch_release, key_hold_continues, PressAction, ReleaseAction};

fn make(event_type: EventType) -> Peripheral {
    Peripheral {
        name: "p".to_string(),
        device_index: 3,
        pin_mask: [1 << 7, 0, 0],
        pin_count: 1,
        event_type,
        is_pressed: false,
        hold_generation: 0,
    }
}

#[test]
fn button_press_then_release() {
    let mut p = make(EventType::Button { evdev_code: 304 });
    assert!(matches!(
        dispatch_press(&mut p),
        PressAction::ButtonPress { device_index: 3, evdev_code: 304 }
    ));
    assert!(p.is_pressed);
    assert!(matches!(dispatch_press(&mut p), PressAction::Ignored));
    assert_eq!(
        dispatch_release(&mut p),
        ReleaseAction::ButtonRelease { device_index: 3, evdev_code: 304 }
    );
    assert!(!p.is_pressed);
    assert_eq!(dispatch_release(&mut p), ReleaseAction::Ignored);
}

#[test]
fn axis_press_then_release() {
    let mut p = make(EventType::Axis { evdev_type: 3, evdev_code: 1, press_value: -255 });
    assert!(matches!(
        dispatch_press(&mut p),
        PressAction::AxisPress { device_index: 3, evdev_type: 3, evdev_code: 1, press_value: -255 }
    ));
    assert_eq!(
        dispatch_release(&mut p),
        ReleaseAction::AxisRelease { device_index: 3, evdev_code: 1 }
    );
}

#[test]
fn key_press_starts_a_new_hold_generation() {
    let mut p = make(EventType::Key { evdev_code: 30 });
    p.hold_generation = 7;
    match dispatch_press(&mut p) {
        PressAction::KeyPress { device_index: 3, evdev_code: 30, hold_generation: 8 } => {}
        other => panic!("unexpected {:?}", other),
    }
    assert_eq!(p.hold_generation, 8);
    assert!(key_hold_continues(&p, 8));
    assert!(!key_hold_continues(&p, 7));
    assert_eq!(
        dispatch_release(&mut p),
        ReleaseAction::KeyRelease { device_index: 3, evdev_code: 30 }
    );
    assert!(!key_hold_continues(&p, 8));
    assert_eq!(p.hold_generation, 8);
}

#[test]
fn command_press_runs_parts_and_stays_inactive() {
    let mut p = make(EventType::Command { bash: "echo a; echo b;c; ls".to_string() });
    match dispatch_press(&mut p) {
        PressAction::RunCommands { parts } => {
            assert_eq!(parts, vec!["echo a", "echo b;c", "ls"]);
        }
        other => panic!("unexpected {:?}", other),
    }
    assert!(!p.is_pressed);
    assert_eq!(dispatch_release(&mut p), ReleaseAction::Ignored);
    p.is_pressed = true;
    assert_eq!(dispatch_release(&mut p), ReleaseAction::NoEvent);
}

#[test]
fn split_commands_matches_str_split() {
    for s in ["a; b; c", "", "a;b", "a; ", "; ", ";  x", "x; ; y", "日本; 語"] {
        let expected: Vec<String> = s.split("; ").map(|x| x.to_string()).collect();
        assert_eq!(split_commands(s), expected, "input {:?}", s);
    }
}
