use gpionext_core::bitmask::{build_config, resolve_and_dispatch_global, EventType, Peripheral};
use gpionext_core::state::{ComboWindow, CoreState};
use gpionext_core::uinput::{PressAction, ReleaseAction};

fn peripheral(name: &str, device_index: usize, pins: &[u8], event_type: EventType) -> Peripheral {
    let mut pin_mask = [0u64; 3];
    for &p in pins {
        pin_mask[(p / 64) as usize] |= 1u64 << (p % 64);
    }
    let pin_count = (pin_mask[0].count_ones() + pin_mask[1].count_ones() + pin_mask[2].count_ones()) as u8;
    Peripheral {
        name: name.to_string(),
        device_index,
        pin_mask,
        pin_count,
        event_type,
        is_pressed: false,
        hold_generation: 0,
    }
}

fn button(name: &str, device_index: usize, pins: &[u8], code: u32) -> Peripheral {
    peripheral(name, device_index, pins, EventType::Button { evdev_code: code })
}

fn command(name: &str, pins: &[u8], bash: &str) -> Peripheral {
    peripheral(name, 5, pins, EventType::Command { bash: bash.to_string() })
}

fn names(config: &gpionext_core::bitmask::Config, order: &[usize]) -> Vec<String> {
    order.iter().map(|&i| config.peripherals[i].name.clone()).collect()
}

#[test]
fn bitmask_in_requires_every_pin() {
    let p = button("combo", 0, &[3, 5, 70, 130], 1);
    let mut held = [0u64; 3];
    held[0] = (1 << 3) | (1 << 5) | (1 << 7);
    held[1] = 1 << 6;
    held[2] = 1 << 2;
    assert!(p.bitmask_in(held));
    held[2] = 0;
    assert!(!p.bitmask_in(held));
    assert!(!p.bitmask_in([0, 0, 0]));
}

#[test]
fn empty_mask_is_in_every_bitmask() {
    let p = button("none", 0, &[], 1);
    assert!(p.bitmask_in([0, 0, 0]));
}

#[test]
fn set_and_clear_pins_update_the_words() {
    let mut s = CoreState::new();
    assert_eq!(s.current_bitmask(), (0, 0, 0));
    s.set_pin(3);
    assert_eq!(s.current_bitmask(), (8, 0, 0));
    s.set_pin(64);
    s.set_pin(191);
    assert_eq!(s.current_bitmask(), (8, 1, 1u64 << 63));
    s.set_pin(3);
    assert_eq!(s.current_bitmask(), (8, 1, 1u64 << 63));
    s.clear_pin(3);
    assert_eq!(s.current_bitmask(), (0, 1, 1u64 << 63));
    s.clear_pin(64);
    s.clear_pin(191);
    assert_eq!(s.current_bitmask(), (0, 0, 0));
}

#[test]
fn pins_from_192_are_ignored() {
    let mut s = CoreState::new();
    s.set_pin(192);
    s.set_pin(255);
    assert_eq!(s.current_bitmask(), (0, 0, 0));
    s.set_pin(10);
    s.clear_pin(200);
    assert_eq!(s.current_bitmask(), (1 << 10, 0, 0));
}

#[test]
fn clear_undoes_set_of_an_unheld_pin() {
    let mut s = CoreState::new();
    s.set_pin(11);
    let before = s.current_bitmask();
    s.set_pin(13);
    s.clear_pin(13);
    assert_eq!(s.current_bitmask(), before);
}

#[test]
fn build_config_sorts_longest_first_and_keeps_ties_in_order() {
    let ps = vec![
        button("a", 0, &[11], 1),
        button("b", 1, &[11, 13], 2),
        button("c", 0, &[13], 3),
        button("d", 2, &[11, 13, 15], 4),
        button("e", 1, &[15, 16], 5),
    ];
    let config = build_config(ps, 50, 350);
    let order: Vec<&str> = config.peripherals.iter().map(|p| p.name.as_str()).collect();
    assert_eq!(order, vec!["d", "b", "e", "a", "c"]);
    assert_eq!(config.combo_delay_ms, 50);
    assert_eq!(config.key_hold_delay_ms, 350);
}

#[test]
fn build_config_indexes_devices_and_pins() {
    let ps = vec![
        button("a", 0, &[11], 1),
        button("b", 1, &[11, 13], 2),
        command("c", &[13, 70], "echo hi"),
    ];
    let config = build_config(ps, 50, 350);
    // sorted: b (2 pins), c (2 pins), a (1 pin)
    assert_eq!(config.device_peripherals[0], vec![2]);
    assert_eq!(config.device_peripherals[1], vec![0]);
    assert_eq!(config.device_peripherals[5], vec![1]);
    assert!(config.device_peripherals[2].is_empty());
    assert_eq!(config.pin_map.get(&11), Some(&vec![0, 2]));
    assert_eq!(config.pin_map.get(&13), Some(&vec![0, 1]));
    assert_eq!(config.pin_map.get(&70), Some(&vec![1]));
    assert_eq!(config.pin_map.get(&12), None);
    assert_eq!(config.pin_map.len(), 3);
}

#[test]
fn resolve_picks_the_longest_match() {
    let ps = vec![
        button("start", 0, &[11], 1),
        button("select", 0, &[13], 2),
        button("hotkey", 0, &[11, 13], 3),
    ];
    let config = build_config(ps, 50, 350);
    let order = resolve_and_dispatch_global(&config, [(1 << 11) | (1 << 13), 0, 0]);
    assert_eq!(names(&config, &order), vec!["hotkey"]);
    let order = resolve_and_dispatch_global(&config, [1 << 11, 0, 0]);
    assert_eq!(names(&config, &order), vec!["start"]);
    let order = resolve_and_dispatch_global(&config, [1 << 15, 0, 0]);
    assert!(order.is_empty());
}

#[test]
fn resolve_dispatches_all_ties_with_commands_first() {
    let ps = vec![
        button("left", 0, &[11], 1),
        command("cmd", &[13], "echo a"),
        button("right", 1, &[15], 2),
        command("cmd2", &[16], "echo b"),
    ];
    let config = build_config(ps, 50, 350);
    let held = [(1 << 11) | (1 << 13) | (1 << 15) | (1 << 16), 0, 0];
    let order = resolve_and_dispatch_global(&config, held);
    assert_eq!(names(&config, &order), vec!["cmd", "cmd2", "left", "right"]);
}

#[test]
fn on_pin_press_opens_windows_and_newer_ones_supersede() {
    let mut s = CoreState::new();
    assert_eq!(s.on_pin_press(11), None);
    assert_eq!(s.generation(), 0);
    s.set_config(build_config(vec![button("a", 0, &[11], 1)], 40, 300));
    s.set_pin(11);
    let w1 = s.on_pin_press(11).unwrap();
    assert_eq!(w1, ComboWindow { generation: 1, delay_ms: 40, key_hold_delay_ms: 300, config: 0 });
    let w2 = s.on_pin_press(11).unwrap();
    assert_eq!(w2.generation, 2);
    assert!(s.resolve_combo_window(w1).is_empty());
    assert_eq!(s.resolve_combo_window(w2), vec![0]);
}

#[test]
fn press_and_release_through_the_state() {
    let mut s = CoreState::new();
    s.set_config(build_config(
        vec![button("a", 2, &[11], 304), button("b", 0, &[11, 13], 305)],
        50,
        350,
    ));
    // sorted: b, a
    match s.press_peripheral(0, 1) {
        PressAction::ButtonPress { device_index: 2, evdev_code: 304 } => {}
        other => panic!("unexpected {:?}", other),
    }
    assert!(s.peripheral_is_pressed(0, 1));
    assert!(matches!(s.press_peripheral(0, 1), PressAction::Ignored));
    assert!(matches!(s.press_peripheral(0, 9), PressAction::Ignored));
    assert_eq!(
        s.release_peripheral(0, 1),
        ReleaseAction::ButtonRelease { device_index: 2, evdev_code: 304 }
    );
    assert!(!s.peripheral_is_pressed(0, 1));
    assert_eq!(s.release_peripheral(0, 1), ReleaseAction::Ignored);
}

#[test]
fn on_pin_release_releases_active_users_of_the_pin() {
    let mut s = CoreState::new();
    s.set_config(build_config(
        vec![
            button("a", 0, &[11], 1),
            button("b", 1, &[13], 2),
            button("c", 2, &[11, 15], 3),
        ],
        50,
        350,
    ));
    // sorted: c, a, b
    s.set_pin(11);
    s.set_pin(13);
    s.press_peripheral(0, 0);
    s.press_peripheral(0, 1);
    s.press_peripheral(0, 2);
    let events = s.on_pin_release(11);
    assert_eq!(
        events,
        vec![
            (0, ReleaseAction::ButtonRelease { device_index: 2, evdev_code: 3 }),
            (1, ReleaseAction::ButtonRelease { device_index: 0, evdev_code: 1 }),
        ]
    );
    assert_eq!(s.current_bitmask(), (1 << 13, 0, 0));
    assert!(!s.peripheral_is_pressed(0, 0));
    assert!(!s.peripheral_is_pressed(0, 1));
    assert!(s.peripheral_is_pressed(0, 2));
    assert!(s.on_pin_release(11).is_empty());
}

#[test]
fn on_pin_release_without_config_only_clears() {
    let mut s = CoreState::new();
    s.set_pin(5);
    assert!(s.on_pin_release(5).is_empty());
    assert_eq!(s.current_bitmask(), (0, 0, 0));
}

#[test]
fn key_hold_follows_generation_and_release() {
    let mut s = CoreState::new();
    s.set_config(build_config(
        vec![peripheral("k", 4, &[11], EventType::Key { evdev_code: 30 })],
        50,
        350,
    ));
    let g = match s.press_peripheral(0, 0) {
        PressAction::KeyPress { device_index: 4, evdev_code: 30, hold_generation } => hold_generation,
        other => panic!("unexpected {:?}", other),
    };
    assert_eq!(g, 1);
    assert!(s.key_hold_continues_at(0, 0, g));
    assert!(!s.key_hold_continues_at(0, 0, g + 1));
    assert_eq!(
        s.release_peripheral(0, 0),
        ReleaseAction::KeyRelease { device_index: 4, evdev_code: 30 }
    );
    assert!(!s.key_hold_continues_at(0, 0, g));
    let g2 = match s.press_peripheral(0, 0) {
        PressAction::KeyPress { hold_generation, .. } => hold_generation,
        other => panic!("unexpected {:?}", other),
    };
    assert_eq!(g2, 2);
    assert!(!s.key_hold_continues_at(0, 0, g));
    assert!(s.key_hold_continues_at(0, 0, g2));
}

#[test]
fn window_resolves_against_the_configuration_of_its_press() {
    let mut s = CoreState::new();
    s.set_config(build_config(vec![button("always", 0, &[], 1)], 50, 300));
    s.set_pin(11);
    let w = s.on_pin_press(11).unwrap();
    assert_eq!(w.config, 0);
    s.set_config(build_config(vec![], 60, 400));
    assert_eq!(s.installed_count(), 2);
    assert_eq!(s.resolve_combo_window(w), vec![0]);
    assert_eq!(w.key_hold_delay_ms, 300);
    assert!(matches!(s.press_peripheral(w.config, 0), PressAction::ButtonPress { evdev_code: 1, .. }));
    assert!(s.peripheral_is_pressed(0, 0));
    // releases go to the active configuration, which has no peripherals
    assert!(s.on_pin_release(11).is_empty());
    assert!(s.peripheral_is_pressed(0, 0));
    let w2 = s.on_pin_press(13).unwrap();
    assert_eq!(w2.config, 1);
    assert_eq!(w2.delay_ms, 60);
    assert!(s.resolve_combo_window(w).is_empty());
    assert!(s.resolve_combo_window(w2).is_empty());
    assert_eq!(s.config_at(0).unwrap().peripherals.len(), 1);
    assert!(s.config_at(2).is_none());
}

#[test]
fn bitmask_follows_the_last_call_naming_each_pin() {
    let mut s = CoreState::new();
    s.set_pin(3);
    s.set_pin(70);
    s.clear_pin(3);
    s.set_pin(150);
    s.on_pin_release(70);
    s.set_pin(3);
    s.clear_pin(150);
    s.set_pin(150);
    assert_eq!(s.current_bitmask(), (1 << 3, 0, 1 << (150 - 128)));
}
