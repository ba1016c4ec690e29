//! Support for the BBC micro:bit's 5×5 LED display, verified.
//!
//! The crate holds the logic of the board's display drivers as code that
//! never touches a peripheral: every pin and timer register that the
//! drivers program is kept as a register image, and the code that owns the
//! hardware copies the images to the device. What the drivers do to the
//! images is proved, down to the LEDs that are lit at each tick of the
//! timer.
//!
//! - [`display::nonblocking`]: the interrupt-driven driver with ten levels
//!   of brightness: images, frames, the timer, the GPIO ports and the
//!   display that schedules them.
//! - [`display::blocking`]: the arithmetic of the simple row scanner.
//! - [`gpio`]: the two board revisions and the size of their LED matrix.
//! - [`bits`]: single bits of a 32-bit register word, and what the bitwise
//!   operators do to them.
//! - [`release`]: the text edits of the release tooling.
//!
//! The timer, the ports and the images also serve as `DisplayTimer`,
//! `DisplayControl` and `Render` of the crate `tiny-led-matrix`.
pub mod bits;
pub mod display;
pub mod gpio;
pub mod release;
