//! What the parts of the library are for, stated of what goes in and what
//! comes out.

pub mod args;
pub mod calling;
pub mod config;
pub mod culling;
pub mod fingerprint;
pub mod lifecycle;
pub mod ports;
pub mod pressure;
pub mod reporting;
pub mod routing;
pub mod sandbox;
pub mod showing;
pub mod terminal;
pub mod views;
pub mod wire;
