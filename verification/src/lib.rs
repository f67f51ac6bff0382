//! Verified core of the FM350 modem daemon.
pub mod text;
pub mod addr;
pub mod cli;
pub mod config;
pub mod at;
pub mod modem;
pub mod imei;
pub mod net;
pub mod sms;
pub mod daemon;
pub mod api;
pub mod log;
