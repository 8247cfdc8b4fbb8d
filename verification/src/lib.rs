//! Backend-independent VM I/O worker scaling service.

pub mod arithmetic;
pub mod backends;
pub mod binary64;
pub mod bounds;
pub mod collate;
pub mod config;
pub mod controller;
pub mod daemon;
pub mod dbus;
pub mod engines;
pub mod figures;
pub mod identity;
pub mod instance;
pub mod numerals;
pub mod ordered;
pub mod patterns;
pub mod powers;
pub mod quantity;
pub mod registry;
pub mod rolling;
pub mod rounding;
pub mod state;
pub mod status;
pub mod text;
pub mod values;
