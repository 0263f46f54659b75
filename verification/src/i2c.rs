//! i2c device models: MCP23017 GPIO expander pins and ADS1115 ADC channels,
//! with the virtual BOARD pin numbers that put them in the pin bitmask.

use vstd::prelude::*;

use crate::text::{decimal, hex2, law_hex2_reads_back, push_decimal, push_hex2, push_str, reads_as_hex, string_from_chars};

verus! {

broadcast use vstd::string::group_string_axioms;

/// Common interface of the pin types: physical GPIO pins, MCP23017 inputs
/// and ADS1115 channels (digital through a dead-zone threshold).
pub trait IoPin: Send + Sync {
    /// Identifier as shown in the config UI, e.g. `"i2c-0x20-A0"`.
    fn pin_id(&self) -> String;

    /// True when the pin is in its active (pressed / triggered) state.
    fn is_pressed(&self) -> bool;

    /// Raw analog reading; 0 for digital-only pins.
    fn read_analog(&self) -> i16;

    /// The virtual BOARD pin number that indexes the bitmask.
    fn virtual_pin(&self) -> u8;
}

/// `a - b`, or 0 when `b > a`.
pub open spec fn sat_sub(a: u8, b: u8) -> int {
    if a >= b {
        a - b
    } else {
        0
    }
}

/// Virtual pin of MCP23017 input `port``bit` at `address`:
/// 64 + 16 per chip above 0x20 + 8 for port B + bit.
pub open spec fn mcp_vpin(address: u8, port: char, bit: u8) -> int {
    64 + sat_sub(address, 0x20) * 16 + (if port == 'A' { 0int } else { 8int }) + bit
}

/// The virtual pin of an MCP23017 input fits in a `u8`.
pub open spec fn mcp_vpin_fits(address: u8, port: char, bit: u8) -> bool {
    sat_sub(address, 0x20) * 16 <= 255 && mcp_vpin(address, port, bit) <= 255
}

/// Virtual pin of ADS1115 channel `channel` at `address`:
/// 128 + 4 per chip above 0x48 + channel.
pub open spec fn ads_vpin(address: u8, channel: u8) -> int {
    128 + sat_sub(address, 0x48) * 4 + channel
}

/// The virtual pin of an ADS1115 channel fits in a `u8`.
pub open spec fn ads_vpin_fits(address: u8, channel: u8) -> bool {
    sat_sub(address, 0x48) * 4 <= 255 && ads_vpin(address, channel) <= 255
}

/// A single digital input pin on an MCP23017 GPIO expander.
#[derive(Debug)]
pub struct Mcp23017Pin {
    /// i2c bus number (usually 1, /dev/i2c-1).
    pub bus: u8,
    /// i2c address of the chip (0x20-0x27).
    pub address: u8,
    /// Port: 'A' or 'B'.
    pub port: char,
    /// Bit index within the port (0-7).
    pub bit: u8,
    /// Virtual BOARD pin number (64 and up).
    pub vpin: u8,
}

fn chip_index(address: u8, base: u8) -> (r: u8)
    ensures
        r == sat_sub(address, base),
{
    if address >= base {
        address - base
    } else {
        0
    }
}

impl Mcp23017Pin {
    /// A pin of the chip at `address`, with its virtual pin
    /// `64 + (address - 0x20) * 16 + port offset (A: 0, B: 8) + bit`.
    pub fn new(bus: u8, address: u8, port: char, bit: u8) -> (p: Self)
        requires
            mcp_vpin_fits(address, port, bit),
        ensures
            p.bus == bus,
            p.address == address,
            p.port == port,
            p.bit == bit,
            p.vpin == mcp_vpin(address, port, bit),
    {
        let chip_offset = chip_index(address, 0x20) * 16;
        let port_offset: u8 = if port == 'A' { 0 } else { 8 };
        let vpin = 64 + chip_offset + port_offset + bit;
        Mcp23017Pin { bus, address, port, bit, vpin }
    }
}

/// The identifier of MCP23017 input `port``bit` at `address`.
pub open spec fn mcp_pin_id(address: u8, port: char, bit: u8) -> Seq<char> {
    "i2c-0x"@ + hex2(address) + "-"@ + seq![port] + decimal(bit as nat)
}

impl IoPin for Mcp23017Pin {
    fn pin_id(&self) -> (id: String)
        ensures
            id@ == mcp_pin_id(self.address, self.port, self.bit),
    {
        let mut v: Vec<char> = Vec::new();
        push_str(&mut v, "i2c-0x");
        push_hex2(&mut v, self.address);
        push_str(&mut v, "-");
        v.push(self.port);
        push_decimal(&mut v, self.bit as u64);
        proof {
            assert(v@ =~= mcp_pin_id(self.address, self.port, self.bit));
        }
        string_from_chars(&v)
    }

    /// Without i2c hardware support compiled in, an MCP23017 input never
    /// reads as pressed.
    fn is_pressed(&self) -> (r: bool)
        ensures
            !r,
    {
        false
    }

    fn read_analog(&self) -> (r: i16)
        ensures
            r == 0,
    {
        0
    }

    fn virtual_pin(&self) -> (r: u8)
        ensures
            r == self.vpin,
    {
        self.vpin
    }
}

/// The sixteen pins of a chip, A0-A7 then B0-B7.
pub open spec fn mcp_chip_pins(bus: u8, address: u8, pins: Seq<Mcp23017Pin>) -> bool {
    &&& pins.len() == 16
    &&& forall|k: int|
        0 <= k < 16 ==> {
            let p = #[trigger] pins[k];
            let port = if k < 8 { 'A' } else { 'B' };
            let bit = (k % 8) as u8;
            &&& p.bus == bus
            &&& p.address == address
            &&& p.port == port
            &&& p.bit == bit
            &&& p.vpin == mcp_vpin(address, port, bit)
        }
}

/// A complete MCP23017 chip: its sixteen input pins and optional
/// interrupt pin.
#[derive(Debug)]
pub struct Mcp23017 {
    /// i2c bus number.
    pub bus: u8,
    /// Chip i2c address (0x20-0x27).
    pub address: u8,
    /// BOARD GPIO pin wired to the chip's INT output; `None` means polling.
    pub int_pin: Option<u8>,
    /// All 16 pins (A0-A7, B0-B7).
    pub pins: Vec<Mcp23017Pin>,
}

/// Errors that can occur during i2c device setup or reads.
#[derive(Debug)]
pub enum I2cError {
    /// /dev/i2c-N could not be opened (kernel module not loaded, wrong bus).
    BusOpenFailed { bus: u8, reason: String },
    /// No device responded at the address.
    DeviceNotFound { bus: u8, address: u8 },
    /// A register read or write failed.
    IoError { address: u8, reason: String },
}

impl Mcp23017 {
    /// The chip at `address` with its sixteen pins. Without i2c hardware
    /// support compiled in, no register is written and this always succeeds.
    pub fn new(bus: u8, address: u8, int_pin: Option<u8>) -> (r: Result<Self, I2cError>)
        requires
            mcp_vpin_fits(address, 'B', 7),
        ensures
            r matches Ok(m) && m.bus == bus && m.address == address && m.int_pin == int_pin
                && mcp_chip_pins(bus, address, m.pins@),
    {
        let mut pins: Vec<Mcp23017Pin> = Vec::new();
        let mut b: u8 = 0;
        while b < 8
            invariant
                b <= 8,
                mcp_vpin_fits(address, 'B', 7),
                pins@.len() == b,
                forall|k: int| 0 <= k < b ==> {
                    let p = #[trigger] pins@[k];
                    &&& p.bus == bus && p.address == address && p.port == 'A' && p.bit == k as u8
                    &&& p.vpin == mcp_vpin(address, 'A', k as u8)
                },
            decreases 8 - b,
        {
            pins.push(Mcp23017Pin::new(bus, address, 'A', b));
            b += 1;
        }
        let mut b: u8 = 0;
        while b < 8
            invariant
                b <= 8,
                mcp_vpin_fits(address, 'B', 7),
                pins@.len() == 8 + b,
                forall|k: int| 0 <= k < 8 ==> {
                    let p = #[trigger] pins@[k];
                    &&& p.bus == bus && p.address == address && p.port == 'A' && p.bit == k as u8
                    &&& p.vpin == mcp_vpin(address, 'A', k as u8)
                },
                forall|k: int| 8 <= k < 8 + b ==> {
                    let p = #[trigger] pins@[k];
                    &&& p.bus == bus && p.address == address && p.port == 'B' && p.bit == (k - 8) as u8
                    &&& p.vpin == mcp_vpin(address, 'B', (k - 8) as u8)
                },
            decreases 8 - b,
        {
            pins.push(Mcp23017Pin::new(bus, address, 'B', b));
            b += 1;
        }
        Ok(Mcp23017 { bus, address, int_pin, pins })
    }

    /// Addresses 0x20-0x27 on `bus` where an MCP23017 answers. Without i2c
    /// hardware support compiled in, none does.
    pub fn scan(bus: u8) -> (found: Vec<u8>)
        ensures
            found@.len() == 0,
    {
        Vec::new()
    }
}

/// A single analog input channel on an ADS1115 ADC.
#[derive(Debug)]
pub struct Ads1115Channel {
    /// i2c bus number.
    pub bus: u8,
    /// Chip i2c address (0x48-0x4B).
    pub address: u8,
    /// Channel index (0-3 = AIN0-AIN3).
    pub channel: u8,
    /// Virtual BOARD pin number (128 and up).
    pub vpin: u8,
    /// Raw readings whose magnitude is at most this count as centre.
    pub dead_zone: i16,
}

/// Rust's `/` on integers: the quotient rounded toward zero.
pub open spec fn div_toward_zero(a: int, b: int) -> int {
    if a >= 0 {
        a / b
    } else {
        -((-a) / b)
    }
}

/// A raw reading scaled to the joystick axis range.
pub open spec fn axis_value(raw: i16) -> int {
    div_toward_zero(raw * 255, 32767)
}

/// `|raw|` exceeds the dead zone.
pub open spec fn beyond_dead_zone(raw: i16, dead_zone: i16) -> bool {
    (if raw < 0 { -raw } else { raw as int }) > dead_zone
}

/// True when `|raw| > dead_zone` (the magnitude taken without overflow, so
/// -32768 counts as 32768).
pub fn exceeds_dead_zone(raw: i16, dead_zone: i16) -> (r: bool)
    ensures
        r == beyond_dead_zone(raw, dead_zone),
{
    let wide = raw as i32;
    let magnitude: i32 = if wide < 0 { -wide } else { wide };
    magnitude > dead_zone as i32
}

impl Ads1115Channel {
    /// Channel `channel` of the chip at `address`, with its virtual pin
    /// `128 + (address - 0x48) * 4 + channel`.
    pub fn new(bus: u8, address: u8, channel: u8, dead_zone: i16) -> (c: Self)
        requires
            ads_vpin_fits(address, channel),
        ensures
            c.bus == bus,
            c.address == address,
            c.channel == channel,
            c.vpin == ads_vpin(address, channel),
            c.dead_zone == dead_zone,
    {
        let chip_offset = chip_index(address, 0x48) * 4;
        let vpin = 128 + chip_offset + channel;
        Ads1115Channel { bus, address, channel, vpin, dead_zone }
    }

    /// Scales a raw reading (-32768..32767) to the joystick axis range:
    /// `raw * 255 / 32767`, rounded toward zero.
    pub fn scale_to_axis(raw: i16) -> (v: i32)
        ensures
            v == axis_value(raw),
    {
        let product = (raw as i32) * 255;
        if product >= 0 {
            product / 32767
        } else {
            -((-product) / 32767)
        }
    }
}

/// The identifier of ADS1115 channel `channel` at `address`.
pub open spec fn ads_pin_id(address: u8, channel: u8) -> Seq<char> {
    "i2c-0x"@ + hex2(address) + "-ch"@ + decimal(channel as nat)
}

impl IoPin for Ads1115Channel {
    fn pin_id(&self) -> (id: String)
        ensures
            id@ == ads_pin_id(self.address, self.channel),
    {
        let mut v: Vec<char> = Vec::new();
        push_str(&mut v, "i2c-0x");
        push_hex2(&mut v, self.address);
        push_str(&mut v, "-ch");
        push_decimal(&mut v, self.channel as u64);
        proof {
            assert(v@ =~= ads_pin_id(self.address, self.channel));
        }
        string_from_chars(&v)
    }

    /// Pressed when the reading lies beyond the dead zone.
    fn is_pressed(&self) -> (r: bool)
        ensures
            r == beyond_dead_zone(0, self.dead_zone),
    {
        exceeds_dead_zone(self.read_analog(), self.dead_zone)
    }

    /// Without i2c hardware support compiled in, the channel reads 0.
    fn read_analog(&self) -> (r: i16)
        ensures
            r == 0,
    {
        0
    }

    fn virtual_pin(&self) -> (r: u8)
        ensures
            r == self.vpin,
    {
        self.vpin
    }
}

/// The message of an i2c error.
pub open spec fn i2c_error_message(e: I2cError) -> Seq<char> {
    match e {
        I2cError::BusOpenFailed { bus, reason } => "Cannot open /dev/i2c-"@ + decimal(bus as nat)
            + ": "@ + reason@ + ". Run 'raspi-config' → Interface Options → I2C."@,
        I2cError::DeviceNotFound { bus, address } => "No i2c device at address 0x"@ + hex2(address)
            + " on bus "@ + decimal(bus as nat) + ". Check wiring and 'i2cdetect -y "@ + decimal(
            bus as nat,
        ) + "'."@,
        I2cError::IoError { address, reason } => "i2c I/O error on device 0x"@ + hex2(address)
            + ": "@ + reason@,
    }
}

impl I2cError {
    /// A human-readable description of the error.
    pub fn message(&self) -> (m: String)
        ensures
            m@ == i2c_error_message(*self),
    {
        let mut v: Vec<char> = Vec::new();
        match self {
            I2cError::BusOpenFailed { bus, reason } => {
                push_str(&mut v, "Cannot open /dev/i2c-");
                push_decimal(&mut v, *bus as u64);
                push_str(&mut v, ": ");
                push_str(&mut v, reason.as_str());
                push_str(&mut v, ". Run 'raspi-config' → Interface Options → I2C.");
            },
            I2cError::DeviceNotFound { bus, address } => {
                push_str(&mut v, "No i2c device at address 0x");
                push_hex2(&mut v, *address);
                push_str(&mut v, " on bus ");
                push_decimal(&mut v, *bus as u64);
                push_str(&mut v, ". Check wiring and 'i2cdetect -y ");
                push_decimal(&mut v, *bus as u64);
                push_str(&mut v, "'.");
            },
            I2cError::IoError { address, reason } => {
                push_str(&mut v, "i2c I/O error on device 0x");
                push_hex2(&mut v, *address);
                push_str(&mut v, ": ");
                push_str(&mut v, reason.as_str());
            },
        }
        proof {
            assert(v@ =~= i2c_error_message(*self));
        }
        string_from_chars(&v)
    }
}

/// MCP23017 inputs of chips 0x20-0x27 get virtual pins 64-191: above every
/// physical BOARD pin, and distinct inputs never share one.
pub proof fn law_mcp_vpins(a1: u8, port1: char, bit1: u8, a2: u8, port2: char, bit2: u8)
    requires
        0x20 <= a1 <= 0x27,
        0x20 <= a2 <= 0x27,
        port1 == 'A' || port1 == 'B',
        port2 == 'A' || port2 == 'B',
        bit1 < 8,
        bit2 < 8,
    ensures
        64 <= mcp_vpin(a1, port1, bit1) <= 191,
        mcp_vpin_fits(a1, port1, bit1),
        mcp_vpin(a1, port1, bit1) == mcp_vpin(a2, port2, bit2) ==> a1 == a2 && port1 == port2 && bit1
            == bit2,
{
}

/// ADS1115 channels of chips 0x48-0x4B get virtual pins 128-143, and
/// distinct channels never share one.
pub proof fn law_ads_vpins(a1: u8, ch1: u8, a2: u8, ch2: u8)
    requires
        0x48 <= a1 <= 0x4B,
        0x48 <= a2 <= 0x4B,
        ch1 < 4,
        ch2 < 4,
    ensures
        128 <= ads_vpin(a1, ch1) <= 143,
        ads_vpin_fits(a1, ch1),
        ads_vpin(a1, ch1) == ads_vpin(a2, ch2) ==> a1 == a2 && ch1 == ch2,
{
}

/// Scaled axis values stay within -255..255, grow with the reading, and
/// reach the ends of the range at the ends of the reading range.
pub proof fn law_axis_range(raw: i16, other: i16)
    ensures
        -255 <= axis_value(raw) <= 255,
        raw <= other ==> axis_value(raw) <= axis_value(other),
        axis_value(32767) == 255,
        axis_value(i16::MIN) == -255,
        axis_value(0) == 0,
{
    let a = raw * 255;
    let b = other * 255;
    assert(-32768 * 255 <= a <= 32767 * 255);
    assert(-32768 * 255 <= b <= 32767 * 255);
    if a >= 0 {
        assert(a / 32767 <= 255) by (nonlinear_arith)
            requires 0 <= a <= 32767 * 255;
        assert(a / 32767 >= 0) by (nonlinear_arith)
            requires 0 <= a;
    } else {
        assert((-a) / 32767 <= 255) by (nonlinear_arith)
            requires 0 < -a <= 32768 * 255;
        assert((-a) / 32767 >= 0) by (nonlinear_arith)
            requires 0 < -a;
    }
    if raw <= other {
        assert(a <= b) by (nonlinear_arith)
            requires a == raw * 255, b == other * 255, raw <= other;
        if a >= 0 {
            assert(a / 32767 <= b / 32767) by (nonlinear_arith)
                requires 0 <= a <= b;
        } else if b >= 0 {
            assert((-a) / 32767 >= 0) by (nonlinear_arith)
                requires 0 < -a;
            assert(b / 32767 >= 0) by (nonlinear_arith)
                requires 0 <= b;
        } else {
            assert((-b) / 32767 <= (-a) / 32767) by (nonlinear_arith)
                requires 0 < -b <= -a;
        }
    }
    assert((32767 * 255) / 32767 == 255);
    assert((32768 * 255) / 32767 == 255);
}

/// The identifier of an MCP23017 input starts with `i2c-0x`, followed by
/// the chip address in two upper-case hexadecimal digits that read back as
/// the address (0x20 gives `20`, 0x2A gives `2A`).
pub proof fn law_mcp_pin_id_names_address(address: u8, port: char, bit: u8)
    ensures
        mcp_pin_id(address, port, bit).len() > 8,
        mcp_pin_id(address, port, bit).subrange(0, 6) == "i2c-0x"@,
        reads_as_hex(mcp_pin_id(address, port, bit)[6], (address / 16) as int),
        reads_as_hex(mcp_pin_id(address, port, bit)[7], (address % 16) as int),
{
    reveal_strlit("i2c-0x");
    reveal_strlit("-");
    law_hex2_reads_back(address);
    let id = mcp_pin_id(address, port, bit);
    let pre = "i2c-0x"@ + hex2(address);
    assert(id == pre + "-"@ + seq![port] + decimal(bit as nat));
    assert(id[6] == hex2(address)[0]);
    assert(id[7] == hex2(address)[1]);
    assert(id.subrange(0, 6) =~= "i2c-0x"@);
}

/// The identifier of an ADS1115 channel starts with `i2c-0x`, followed by
/// the chip address in two upper-case hexadecimal digits that read back as
/// the address (0x48 gives `48`, 0x4B gives `4B`).
pub proof fn law_ads_pin_id_names_address(address: u8, channel: u8)
    ensures
        ads_pin_id(address, channel).len() > 8,
        ads_pin_id(address, channel).subrange(0, 6) == "i2c-0x"@,
        reads_as_hex(ads_pin_id(address, channel)[6], (address / 16) as int),
        reads_as_hex(ads_pin_id(address, channel)[7], (address % 16) as int),
{
    reveal_strlit("i2c-0x");
    reveal_strlit("-ch");
    law_hex2_reads_back(address);
    let id = ads_pin_id(address, channel);
    assert(id[6] == hex2(address)[0]);
    assert(id[7] == hex2(address)[1]);
    assert(id.subrange(0, 6) =~= "i2c-0x"@);
}

} // verus!
