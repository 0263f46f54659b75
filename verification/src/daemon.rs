//! Starting the core: settings with their defaults, the configuration
//! built from the entries, and the GPIO loop.

use vstd::prelude::*;

use crate::bitmask::{build_config, device_members, is_longest_first_order, permuted, pin_users, Peripheral};
use crate::state::CoreState;
use crate::config::{entry_accepted, entry_error, parse_peripherals, peripheral_from, ConfigError, PeripheralEntry};
use crate::gpio::{GpioConfig, GpioError, GpioLoop};

verus! {

/// Default milliseconds to wait for more presses before resolving a combo.
pub const DEFAULT_COMBO_DELAY_MS: u64 = 50;

/// Default milliseconds before a held keyboard key starts repeating.
pub const DEFAULT_KEY_HOLD_DELAY_MS: u64 = 350;

/// Default debounce time in milliseconds.
pub const DEFAULT_DEBOUNCE_MS: u32 = 1;

/// Timing and wiring settings of a start.
#[derive(Debug, Clone, Copy, PartialEq, Eq)]
pub struct StartSettings {
    /// Milliseconds to wait for more presses before resolving a combo.
    pub combo_delay_ms: u64,
    /// Milliseconds before a held keyboard key starts repeating.
    pub key_hold_delay_ms: u64,
    /// Pull-down resistors if true, pull-up otherwise.
    pub pulldown: bool,
    /// Debounce time in milliseconds.
    pub debounce_ms: u32,
}

impl StartSettings {
    /// The settings from optional values, each missing one taking its
    /// default (combo delay 50 ms, key hold delay 350 ms, pull-up, 1 ms
    /// debounce).
    pub fn from_options(
        combo_delay_ms: Option<u64>,
        key_hold_delay_ms: Option<u64>,
        pulldown: Option<bool>,
        debounce_ms: Option<u32>,
    ) -> (s: Self)
        ensures
            s.combo_delay_ms == (match combo_delay_ms {
                Some(v) => v,
                None => DEFAULT_COMBO_DELAY_MS,
            }),
            s.key_hold_delay_ms == (match key_hold_delay_ms {
                Some(v) => v,
                None => DEFAULT_KEY_HOLD_DELAY_MS,
            }),
            s.pulldown == (match pulldown {
                Some(v) => v,
                None => false,
            }),
            s.debounce_ms == (match debounce_ms {
                Some(v) => v,
                None => DEFAULT_DEBOUNCE_MS,
            }),
    {
        StartSettings {
            combo_delay_ms: match combo_delay_ms {
                Some(v) => v,
                None => DEFAULT_COMBO_DELAY_MS,
            },
            key_hold_delay_ms: match key_hold_delay_ms {
                Some(v) => v,
                None => DEFAULT_KEY_HOLD_DELAY_MS,
            },
            pulldown: match pulldown {
                Some(v) => v,
                None => false,
            },
            debounce_ms: match debounce_ms {
                Some(v) => v,
                None => DEFAULT_DEBOUNCE_MS,
            },
        }
    }
}

/// Why a start failed.
#[derive(Debug)]
pub enum StartError {
    /// A peripheral entry was rejected.
    Config(ConfigError),
    /// GPIO setup failed.
    Gpio(GpioError),
}

/// Every pin of every entry is below 192.
pub open spec fn entry_pins_in_range(entries: Seq<PeripheralEntry>) -> bool {
    forall|i: int, k: int|
        0 <= i < entries.len() && 0 <= k < entries[i].pins@.len() ==> #[trigger] entries[i].pins@[k] < 192
}

/// Every entry is accepted.
pub open spec fn all_accepted(entries: Seq<PeripheralEntry>) -> bool {
    forall|i: int| 0 <= i < entries.len() ==> entry_accepted(#[trigger] entries[i])
}

/// `ps` are the peripherals that `entries` describe, in the same order.
pub open spec fn parsed_from(entries: Seq<PeripheralEntry>, ps: Seq<Peripheral>) -> bool {
    &&& ps.len() == entries.len()
    &&& forall|i: int| 0 <= i < entries.len() ==> peripheral_from(#[trigger] entries[i], ps[i])
}

/// `err` is the error of the first rejected entry.
pub open spec fn first_rejection(entries: Seq<PeripheralEntry>, err: ConfigError) -> bool {
    exists|j: int|
        0 <= j < entries.len() && (forall|i: int| 0 <= i < j ==> entry_accepted(#[trigger] entries[i]))
            && !entry_accepted(#[trigger] entries[j]) && entry_error(entries[j], err)
}

/// Starts the core: turns the entries into peripherals, installs the
/// configuration built from them with the settings' delays, and starts the
/// GPIO loop on `pins` without `skip_pins`. A rejected entry stops the start
/// before anything is installed.
pub fn start(
    state: &mut CoreState,
    entries: &Vec<PeripheralEntry>,
    settings: &StartSettings,
    pins: Vec<u8>,
    skip_pins: &[u8],
) -> (r: Result<GpioLoop, StartError>)
    requires
        entry_pins_in_range(entries@),
    ensures
        final(state).words() == old(state).words(),
        final(state).combo_generation() == old(state).combo_generation(),
        all_accepted(entries@) <==> r is Ok,
        match r {
            Ok(lp) => {
                &&& lp.running()
                &&& lp.watched_pins() == pins@
                &&& lp.skipped_pins() == skip_pins@
                &&& lp.uses_pulldown() == settings.pulldown
                &&& lp.debounce() == settings.debounce_ms
                &&& final(state).installed() == old(state).installed().push(final(state).active_config()->0)
                &&& final(state).active_config() matches Some(c) && {
                    &&& c.wf()
                    &&& c.combo_delay_ms == settings.combo_delay_ms
                    &&& c.key_hold_delay_ms == settings.key_hold_delay_ms
                    &&& exists|ps: Seq<Peripheral>, perm: Seq<int>|
                        parsed_from(entries@, ps) && is_longest_first_order(perm, ps)
                            && c.peripherals@ == permuted(ps, perm)
                }
            },
            Err(e) => {
                &&& final(state).installed() == old(state).installed()
                &&& e matches StartError::Config(err) && first_rejection(entries@, err)
            },
        },
{
    let peripherals = match parse_peripherals(entries) {
        Ok(v) => v,
        Err(e) => {
            proof {
                if all_accepted(entries@) {
                    let j = choose|j: int|
                        0 <= j < entries@.len() && (forall|i: int| 0 <= i < j ==> entry_accepted(#[trigger] entries@[i]))
                            && !entry_accepted(#[trigger] entries@[j]) && entry_error(entries@[j], e);
                    assert(entry_accepted(entries@[j]));
                }
            }
            return Err(StartError::Config(e));
        },
    };
    let ghost ps = peripherals@;
    proof {
        assert forall|i: int| 0 <= i < peripherals@.len() implies #[trigger] peripherals@[i].device_index < 6 by {
            assert(peripheral_from(entries@[i], peripherals@[i]));
        }
    }
    let config = build_config(peripherals, settings.combo_delay_ms, settings.key_hold_delay_ms);
    state.set_config(config);
    let gpio_config = GpioConfig { pins, pulldown: settings.pulldown, debounce_ms: settings.debounce_ms };
    match GpioLoop::run(&gpio_config, skip_pins) {
        Ok(lp) => Ok(lp),
        Err(e) => Err(StartError::Gpio(e)),
    }
}

/// Starts a monitor for the config tool: an empty configuration (so that
/// only the pin bitmask is tracked) and the GPIO loop on `pins`.
pub fn start_monitor(state: &mut CoreState, pins: Vec<u8>, pulldown: bool, debounce_ms: u32) -> (r: Result<GpioLoop, GpioError>)
    ensures
        final(state).words() == old(state).words(),
        final(state).combo_generation() == old(state).combo_generation(),
        r matches Ok(lp) && lp.running() && lp.watched_pins() == pins@ && lp.skipped_pins().len() == 0
            && lp.uses_pulldown() == pulldown && lp.debounce() == debounce_ms,
        final(state).installed() == old(state).installed().push(final(state).active_config()->0),
        final(state).active_config() matches Some(c) && {
            &&& c.wf()
            &&& c.peripherals@.len() == 0
            &&& forall|d: int| 0 <= d < 6 ==> (#[trigger] c.device_peripherals@[d])@.len() == 0
            &&& c.pin_map@.dom().is_empty()
            &&& c.combo_delay_ms == DEFAULT_COMBO_DELAY_MS
            &&& c.key_hold_delay_ms == DEFAULT_KEY_HOLD_DELAY_MS
        },
{
    let config = build_config(Vec::new(), DEFAULT_COMBO_DELAY_MS, DEFAULT_KEY_HOLD_DELAY_MS);
    proof {
        let ps = config.peripherals@;
        assert forall|d: int| 0 <= d < 6 implies (#[trigger] config.device_peripherals@[d])@.len() == 0 by {
            assert(device_members(ps, 0, d).len() == 0);
        }
        assert forall|pin: u8| !config.pin_map@.dom().contains(pin) by {
            assert(pin_users(ps, 0, pin as int).len() == 0);
        }
        assert(config.pin_map@.dom() =~= Set::<u8>::empty());
    }
    state.set_config(config);
    let gpio_config = GpioConfig { pins, pulldown, debounce_ms };
    GpioLoop::run(&gpio_config, &[])
}

} // verus!
