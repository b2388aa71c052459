//! Paging proxy for grid MIDI controllers: the verified core.

pub mod config;
pub mod dispatch;
pub mod midi;
pub mod ports;
pub mod proxy;
pub mod shutdown;
pub mod stop;
pub mod text;
