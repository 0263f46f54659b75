//! The GPIO event loop handle, its hardware configuration and its errors.

use vstd::prelude::*;

use crate::text::{decimal, push_decimal, push_str, string_from_chars};

verus! {

broadcast use vstd::string::group_string_axioms;

/// Controls the GPIO event loop: `stop()` clears the running flag and the
/// loop exits on its next iteration. It keeps the settings it was started
/// with.
pub struct GpioLoop {
    running: bool,
    pins: Vec<u8>,
    skip_pins: Vec<u8>,
    pulldown: bool,
    debounce_ms: u32,
}

fn copy_pins(s: &[u8]) -> (r: Vec<u8>)
    ensures
        r@ == s@,
{
    let mut r: Vec<u8> = Vec::new();
    let mut i: usize = 0;
    while i < s.len()
        invariant
            i <= s@.len(),
            r@ == s@.subrange(0, i as int),
        decreases s@.len() - i,
    {
        r.push(s[i]);
        i += 1;
    }
    r
}

/// GPIO hardware configuration.
pub struct GpioConfig {
    /// BOARD pin numbers to watch.
    pub pins: Vec<u8>,
    /// Pull-down resistors if true, pull-up otherwise.
    pub pulldown: bool,
    /// Debounce time in milliseconds.
    pub debounce_ms: u32,
}

/// Errors that can occur during GPIO setup.
#[derive(Debug)]
pub enum GpioError {
    /// /dev/gpiochip0 could not be opened (missing module or permissions).
    ChipOpenFailed(String),
    /// A pin could not be requested (already in use, invalid number).
    PinRequestFailed { pin: u8, reason: String },
    /// Pull-down was requested on an i2c pin (3 or 5) with i2c not enabled.
    I2cPinPulldownConflict { pin: u8 },
}

impl GpioLoop {
    /// The loop is still meant to run.
    pub closed spec fn running(&self) -> bool {
        self.running
    }

    /// The BOARD pins the loop watches.
    pub closed spec fn watched_pins(&self) -> Seq<u8> {
        self.pins@
    }

    /// The BOARD pins the loop leaves out.
    pub closed spec fn skipped_pins(&self) -> Seq<u8> {
        self.skip_pins@
    }

    /// Pull-down resistors if true, pull-up otherwise.
    pub closed spec fn uses_pulldown(&self) -> bool {
        self.pulldown
    }

    /// Debounce time in milliseconds.
    pub closed spec fn debounce(&self) -> u32 {
        self.debounce_ms
    }

    /// Starts the event loop for `config`, leaving out `skip_pins`. Without
    /// GPIO hardware support compiled in, no line is requested and no event
    /// ever arrives; the handle is running all the same.
    pub fn run(config: &GpioConfig, skip_pins: &[u8]) -> (r: Result<GpioLoop, GpioError>)
        ensures
            r matches Ok(lp) && lp.running() && lp.watched_pins() == config.pins@
                && lp.skipped_pins() == skip_pins@ && lp.uses_pulldown() == config.pulldown
                && lp.debounce() == config.debounce_ms,
    {
        Ok(
            GpioLoop {
                running: true,
                pins: copy_pins(config.pins.as_slice()),
                skip_pins: copy_pins(skip_pins),
                pulldown: config.pulldown,
                debounce_ms: config.debounce_ms,
            },
        )
    }

    /// Signals the loop to stop.
    pub fn stop(&mut self)
        ensures
            !final(self).running(),
            final(self).watched_pins() == old(self).watched_pins(),
            final(self).skipped_pins() == old(self).skipped_pins(),
            final(self).uses_pulldown() == old(self).uses_pulldown(),
            final(self).debounce() == old(self).debounce(),
    {
        self.running = false;
    }

    /// True until `stop()` has been called.
    pub fn is_running(&self) -> (r: bool)
        ensures
            r == self.running(),
    {
        self.running
    }
}

/// The message of a GPIO error.
pub open spec fn gpio_error_message(e: GpioError) -> Seq<char> {
    match e {
        GpioError::ChipOpenFailed(reason) => "Cannot open /dev/gpiochip0: "@ + reason@
            + ". Is the uinput module loaded?"@,
        GpioError::PinRequestFailed { pin, reason } => "Pin "@ + decimal(pin as nat)
            + ": cannot add edge detection ("@ + reason@ + "). Skipping."@,
        GpioError::I2cPinPulldownConflict { pin } => "Pin "@ + decimal(pin as nat)
            + " is an i2c pin (SDA/SCL). Cannot set pulldown. Use 'gpionext set pulldown false' or enable i2c feature."@,
    }
}

impl GpioError {
    /// A human-readable description of the error.
    pub fn message(&self) -> (m: String)
        ensures
            m@ == gpio_error_message(*self),
    {
        let mut v: Vec<char> = Vec::new();
        match self {
            GpioError::ChipOpenFailed(reason) => {
                push_str(&mut v, "Cannot open /dev/gpiochip0: ");
                push_str(&mut v, reason.as_str());
                push_str(&mut v, ". Is the uinput module loaded?");
            },
            GpioError::PinRequestFailed { pin, reason } => {
                push_str(&mut v, "Pin ");
                push_decimal(&mut v, *pin as u64);
                push_str(&mut v, ": cannot add edge detection (");
                push_str(&mut v, reason.as_str());
                push_str(&mut v, "). Skipping.");
            },
            GpioError::I2cPinPulldownConflict { pin } => {
                push_str(&mut v, "Pin ");
                push_decimal(&mut v, *pin as u64);
                push_str(
                    &mut v,
                    " is an i2c pin (SDA/SCL). Cannot set pulldown. Use 'gpionext set pulldown false' or enable i2c feature.",
                );
            },
        }
        proof {
            assert(v@ =~= gpio_error_message(*self));
        }
        string_from_chars(&v)
    }
}

} // verus!
