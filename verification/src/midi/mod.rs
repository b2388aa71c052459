pub mod any_device;
pub mod apc_mini;
pub mod device;
pub mod mini_mk3;
pub mod parse;
pub mod sysex_lighting;
pub mod ump;
pub mod wire;
