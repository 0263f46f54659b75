# gpionext_core

The core of a GPIO-to-HID daemon for Raspberry Pi arcade setups: GPIO and
i2c pin events are tracked in a 192-pin bitmask, resolved into button, key,
axis or command mappings (longest combo wins), and turned into virtual
input-device events.

The decisions are written in Verus and proved against their contracts:

- `src/bits.rs`     — bit facts and the pin-set view of three-word masks
- `src/bitmask.rs`  — peripherals, the configuration index, the longest-match rule
- `src/state.rs`    — pressed pins, combo generations, the installed configurations and the windows and presses that keep the one they began under
- `src/uinput.rs`   — press / release / key-hold decisions for one peripheral
- `src/config.rs`   — reading peripheral entries (types, evdev codes, axis triples, pin lists)
- `src/gpio.rs`, `src/i2c.rs` — the GPIO loop handle, MCP23017 / ADS1115 models, error messages
- `src/daemon.rs`   — start settings and the start / monitor sequences
- `src/text.rs`     — character helpers (splitting commands, decimal and hex text)

`app/` is the Python extension around it (PyO3): the global state behind a
lock, the Rayon pool, the sleeps and the device writes.
