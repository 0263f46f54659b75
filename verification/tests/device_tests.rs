use gpionext_core::daemon::{start, start_monitor, StartError, StartSettings};
use gpionext_core::state::CoreState;
use gpionext_core::config::{ConfigError, PeripheralEntry};
use gpionext_core::gpio::{GpioConfig, GpioError, GpioLoop};
use gpionext_core::i2c::{exceeds_dead_zone, Ads1115Channel, I2cError, IoPin, Mcp23017, Mcp23017Pin};

#[test]
fn mcp_pins_get_virtual_numbers_and_ids() {
    let a0 = Mcp23017Pin::new(1, 0x20, 'A', 0);
    assert_eq!(a0.vpin, 64);
    assert_eq!(a0.virtual_pin(), 64);
    assert_eq!(a0.pin_id(), "i2c-0x20-A0");
    let b7 = Mcp23017Pin::new(1, 0x27, 'B', 7);
    assert_eq!(b7.vpin, 64 + 7 * 16 + 8 + 7);
    assert_eq!(b7.pin_id(), "i2c-0x27-B7");
    let low = Mcp23017Pin::new(1, 0x10, 'A', 3);
    assert_eq!(low.vpin, 67);
    assert!(!a0.is_pressed());
    assert_eq!(a0.read_analog(), 0);
}

#[test]
fn mcp_chip_has_sixteen_pins() {
    let chip = Mcp23017::new(1, 0x21, Some(7)).unwrap();
    assert_eq!(chip.bus, 1);
    assert_eq!(chip.address, 0x21);
    assert_eq!(chip.int_pin, Some(7));
    assert_eq!(chip.pins.len(), 16);
    let ids: Vec<String> = chip.pins.iter().map(|p| p.pin_id()).collect();
    assert_eq!(ids[0], "i2c-0x21-A0");
    assert_eq!(ids[8], "i2c-0x21-B0");
    assert_eq!(ids[15], "i2c-0x21-B7");
    let vpins: Vec<u8> = chip.pins.iter().map(|p| p.vpin).collect();
    assert_eq!(vpins, (80u8..96).collect::<Vec<u8>>());
    assert!(Mcp23017::scan(1).is_empty());
}

#[test]
fn ads_channels_get_virtual_numbers_and_ids() {
    let ch = Ads1115Channel::new(1, 0x4A, 2, 2048);
    assert_eq!(ch.vpin, 138);
    assert_eq!(ch.virtual_pin(), 138);
    assert_eq!(ch.pin_id(), "i2c-0x4A-ch2");
    assert_eq!(ch.read_analog(), 0);
    assert!(!ch.is_pressed());
    let negative = Ads1115Channel::new(1, 0x48, 0, -1);
    assert!(negative.is_pressed());
}

#[test]
fn scale_to_axis_values() {
    assert_eq!(Ads1115Channel::scale_to_axis(32767), 255);
    assert_eq!(Ads1115Channel::scale_to_axis(-32768), -255);
    assert_eq!(Ads1115Channel::scale_to_axis(0), 0);
    assert_eq!(Ads1115Channel::scale_to_axis(16384), 127);
    assert_eq!(Ads1115Channel::scale_to_axis(-16384), -127);
    assert_eq!(Ads1115Channel::scale_to_axis(128), 0);
    assert_eq!(Ads1115Channel::scale_to_axis(129), 1);
    for raw in [-32768i16, -20000, -1, 0, 1, 300, 32767] {
        assert_eq!(Ads1115Channel::scale_to_axis(raw), ((raw as i32) * 255) / 32767);
    }
}

#[test]
fn dead_zone_threshold() {
    assert!(exceeds_dead_zone(3000, 2048));
    assert!(exceeds_dead_zone(-3000, 2048));
    assert!(!exceeds_dead_zone(2048, 2048));
    assert!(!exceeds_dead_zone(-100, 2048));
    assert!(exceeds_dead_zone(-32768, 2048));
    assert!(exceeds_dead_zone(-32768, 32767));
    assert!(!exceeds_dead_zone(32767, 32767));
}

#[test]
fn i2c_error_messages() {
    let e = I2cError::BusOpenFailed { bus: 1, reason: "no such file".to_string() };
    assert_eq!(
        e.message(),
        "Cannot open /dev/i2c-1: no such file. Run 'raspi-config' → Interface Options → I2C."
    );
    let e = I2cError::DeviceNotFound { bus: 12, address: 0x4A };
    assert_eq!(
        e.message(),
        "No i2c device at address 0x4A on bus 12. Check wiring and 'i2cdetect -y 12'."
    );
    let e = I2cError::IoError { address: 0x0B, reason: "nack".to_string() };
    assert_eq!(e.message(), "i2c I/O error on device 0x0B: nack");
}

#[test]
fn gpio_loop_runs_until_stopped() {
    let config = GpioConfig { pins: vec![11, 13], pulldown: false, debounce_ms: 1 };
    let mut lp = GpioLoop::run(&config, &[13]).unwrap();
    assert!(lp.is_running());
    lp.stop();
    assert!(!lp.is_running());
}

#[test]
fn gpio_error_messages() {
    let e = GpioError::ChipOpenFailed("denied".to_string());
    assert_eq!(e.message(), "Cannot open /dev/gpiochip0: denied. Is the uinput module loaded?");
    let e = GpioError::PinRequestFailed { pin: 40, reason: "busy".to_string() };
    assert_eq!(e.message(), "Pin 40: cannot add edge detection (busy). Skipping.");
    let e = GpioError::I2cPinPulldownConflict { pin: 3 };
    assert_eq!(
        e.message(),
        "Pin 3 is an i2c pin (SDA/SCL). Cannot set pulldown. Use 'gpionext set pulldown false' or enable i2c feature."
    );
}

#[test]
fn start_settings_defaults() {
    let s = StartSettings::from_options(None, None, None, None);
    assert_eq!(s, StartSettings { combo_delay_ms: 50, key_hold_delay_ms: 350, pulldown: false, debounce_ms: 1 });
    let s = StartSettings::from_options(Some(80), Some(500), Some(true), Some(5));
    assert_eq!(s, StartSettings { combo_delay_ms: 80, key_hold_delay_ms: 500, pulldown: true, debounce_ms: 5 });
}

fn entry(name: &str, kind: &str, command: &str, pins: &[u8]) -> PeripheralEntry {
    PeripheralEntry {
        name: name.to_string(),
        device_index: 0,
        kind: kind.to_string(),
        command: command.to_string(),
        pins: pins.to_vec(),
    }
}

#[test]
fn start_installs_the_configuration() {
    let mut state = CoreState::new();
    let settings = StartSettings::from_options(Some(70), None, None, None);
    let entries = vec![entry("a", "BUTTON", "1", &[11]), entry("b", "KEY", "30", &[11, 13])];
    let lp = start(&mut state, &entries, &settings, vec![11, 13], &[]).unwrap();
    assert!(lp.is_running());
    let config = state.config().unwrap();
    assert_eq!(config.combo_delay_ms, 70);
    assert_eq!(config.key_hold_delay_ms, 350);
    let names: Vec<&str> = config.peripherals.iter().map(|p| p.name.as_str()).collect();
    assert_eq!(names, vec!["b", "a"]);
}

#[test]
fn start_rejects_bad_entries_without_installing() {
    let mut state = CoreState::new();
    let settings = StartSettings::from_options(None, None, None, None);
    let entries = vec![entry("a", "BUTTON", "1", &[11]), entry("b", "JOY", "1", &[13])];
    match start(&mut state, &entries, &settings, vec![], &[]) {
        Err(StartError::Config(ConfigError::UnknownType { kind, name })) => {
            assert_eq!(kind, "JOY");
            assert_eq!(name, "b");
        }
        other => panic!("unexpected {:?}", other.map(|_| ())),
    }
    assert!(state.config().is_none());
}

#[test]
fn start_monitor_installs_an_empty_configuration() {
    let mut state = CoreState::new();
    let lp = start_monitor(&mut state, vec![11], true, 3).unwrap();
    assert!(lp.is_running());
    let config = state.config().unwrap();
    assert!(config.peripherals.is_empty());
    assert_eq!(config.combo_delay_ms, 50);
    assert_eq!(config.key_hold_delay_ms, 350);
    state.set_pin(11);
    let w = state.on_pin_press(11).unwrap();
    assert!(state.resolve_combo_window(w).is_empty());
}

#[test]
fn virtual_pins_are_distinct_per_device_family() {
    let mut mcp: Vec<u8> = Vec::new();
    for address in 0x20u8..=0x27 {
        for port in ['A', 'B'] {
            for bit in 0u8..8 {
                mcp.push(Mcp23017Pin::new(1, address, port, bit).vpin);
            }
        }
    }
    let mut sorted = mcp.clone();
    sorted.sort();
    sorted.dedup();
    assert_eq!(sorted.len(), 128);
    assert!(mcp.iter().all(|&v| (64..=191).contains(&v)));
    let mut ads: Vec<u8> = Vec::new();
    for address in 0x48u8..=0x4B {
        for ch in 0u8..4 {
            ads.push(Ads1115Channel::new(1, address, ch, 0).vpin);
        }
    }
    ads.sort();
    assert_eq!(ads, (128u8..144).collect::<Vec<u8>>());
}
