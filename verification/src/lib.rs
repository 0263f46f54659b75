//! Pin-state tracking, combo resolution and device models for a GPIO-to-HID
//! daemon: the decisions are made here, the hardware and thread plumbing
//! lives in the application around it.

pub mod bits;
pub mod bitmask;
pub mod state;
pub mod text;
pub mod uinput;
pub mod gpio;
pub mod i2c;
pub mod config;
pub mod daemon;
