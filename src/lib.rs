//! Integer core of an instrument tuner: note naming from a pitch offset,
//! fixed-size analysis windowing of a sample stream, and a smoothed,
//! hysteresis-style display state.
//!
//! Pitch offsets and cents are carried as integers in hundredths of a cent
//! (one equal-tempered semitone is 10_000 units), measured from the
//! reference note C4 = 261.6 Hz.
pub mod note;
pub mod smoother;
pub mod window;
