//! Crosstalk cancellation for two loudspeakers, in 32.32 fixed-point arithmetic.
//!
//! Every quantity (samples, gains, delays in frames, frequencies in hertz,
//! coordinates in metres) is a [`fixed::Fixed`]: a signed 64-bit integer that
//! counts units of 2^-32. All arithmetic saturates at the ends of that range,
//! so every function of the crate is total. Where single-precision numbers
//! are wanted, the crate takes and gives their bits.

pub mod fixed;
pub mod single;
pub mod roots;
pub mod trig;
pub mod accuracy;
pub mod exponent;
pub mod filter;
pub mod shelf;
pub mod stability;
pub mod biquad_bound;
pub mod delay;
pub mod phase;
pub mod ctc_engine;
pub mod oddness;
pub mod geometry;
pub mod control;
pub mod thru;
