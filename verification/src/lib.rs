//! The decision logic of Vortex: what the laptop half of a phone-laptop link
//! parses, remembers, decides and writes down. Everything here is a function of
//! plain values; the radio, the desktop and the disk stay outside.

pub mod applog;
pub mod arbiter;
pub mod ble_link;
pub mod ble_portable;
pub mod ble_scan;
pub mod call;
pub mod call_log;
pub mod call_control;
pub mod camera;
pub mod cli;
pub mod clipboard;
pub mod clipboard_sync;
pub mod codec;
pub mod contacts;
pub mod diagnostics;
pub mod dnd;
pub mod earbuds;
pub mod file_consent;
pub mod fs_cli;
pub mod keys;
pub mod lan;
pub mod pairing;
pub mod platform;
pub mod session_lock;
pub mod sms;
pub mod storage;
pub mod text;
