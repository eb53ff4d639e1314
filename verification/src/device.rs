//! Devices.

pub mod rtc;
