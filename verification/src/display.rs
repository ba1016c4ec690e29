//! Support for the 5×5 LED display.
//!
//! There are two drivers: [`blocking`] scans the rows in a busy loop, and
//! [`nonblocking`] is driven from a timer interrupt and offers ten levels of
//! brightness for each LED.
pub mod blocking;
pub mod nonblocking;
