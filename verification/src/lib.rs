//! Hardware abstraction layer for TM4C123x and TM4C129x microcontrollers,
//! centred on a verified I2C master-mode transaction engine.
//!
//! The peripherals' memory-mapped registers are modelled by plain register
//! files (`registers::RegisterFile` and its SPI and ADC counterparts): every
//! register write is recorded in order, and the values the hardware would
//! report -- status snapshots, incoming data bytes -- are supplied as
//! scripts. The protocol logic, that is bus framing, acknowledgment control,
//! timeout detection and error classification, is verified against that
//! model; an unverified shell binds the same decisions, through
//! `i2c::plan_cycles` and `status::classify`, to the real registers.

pub mod adc;
pub mod delay;
pub mod i2c;
pub mod laws;
pub mod registers;
pub mod spi;
pub mod status;
