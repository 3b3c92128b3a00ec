//! File vaults bound to Logitech Unifying receivers.

pub mod bytes;
pub mod cli;
pub mod fingerprint;
pub mod fsio;
pub mod gui;
pub mod hid;
pub mod selfcheck;
pub mod text;
pub mod vault;
