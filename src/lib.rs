//! Serial-to-LED-strip pixel pipeline for a dual-core microcontroller.
//!
//! The library holds the verified logic: the wire and packed encodings of a
//! pixel update, the per-strip framebuffer and its refresh order, the
//! command-loop decisions, and the timing program and clock divisor of the
//! waveform generator. Hardware access lives outside the library.

pub mod channel;
pub mod command;
pub mod config;
pub mod framebuffer;
pub mod serial;
pub mod strbuffer;
pub mod ws2812b;
