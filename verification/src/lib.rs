//! Cycle-accurate delay and full-duplex SPI bus driver for the BL702
//! microcontroller family.
//!
//! The driver is split into a hardware-facing port abstraction and the bus
//! engine proper: all clock-divider arithmetic, FIFO polling policy, transfer
//! sequencing and error propagation live here, stated and checked as
//! contracts over the port's history of bytes sent and received.

#![verifier::loop_isolation(false)]

pub mod delay;
pub mod hal;
pub mod sim;
pub mod spi;
