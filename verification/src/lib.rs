//! A vendor-neutral hardware abstraction layer for software-defined radios:
//! capability ranges, device arguments, device handles, stream sessions and
//! sample format conversion.

pub mod args;
pub mod channel;
pub mod device;
pub mod error;
pub mod format;
pub mod range;
pub mod registry;
pub mod session;
