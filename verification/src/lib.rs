//! Core of a 3x3 USB keypad: debouncing, chord detection, layered key
//! resolution and HID report synthesis, with every rule of the input
//! pipeline stated as a contract and proved.
//!
//! One scan period runs through the modules in this order:
//!
//! - `debounce` turns the raw sample of the switch matrix into press and
//!   release events, with the filter that `filter` brings in from the
//!   `keyberon` crate;
//! - `chord` replaces the events of keys pressed together by one event;
//! - `layout` resolves the events against the `keymap` and keeps track of
//!   the keys held, the layers active and the maintenance actions asked for;
//! - `maintenance` says what a maintenance action asks of the platform;
//! - `report` builds the keyboard report from the `key_code`s held, and
//!   `transport` decides whether it goes to the host;
//! - `scheduler` ties these into the tasks of a period.
//!
//! The library computes and decides. Reading the switches, driving the USB
//! controller, resetting the device and keeping time are left to the caller.

pub mod event;
pub mod filter;
pub mod debounce;
pub mod chord;
pub mod key_code;
pub mod keymap;
pub mod layout;
pub mod maintenance;
pub mod report;
pub mod transport;
pub mod scheduler;
