//! Early-boot serial console: the register programs that bring a 16550-style
//! UART up and push text through it, the sequencer that plays such a program
//! against the hardware one port access at a time, and the boot state machine
//! that emits an endless stream of diagnostic lines.
//!
//! Nothing in this crate touches hardware. Every function computes what the
//! platform has to do next; the platform performs the access and hands back
//! what it read.

pub mod port;
pub mod uart;
pub mod runner;
pub mod handshake;
pub mod diagnostic;
pub mod kernel;
