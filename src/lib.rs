//! Turns a MIDI composition into timed haptic commands for a small set of
//! game-controller vibration motors, and decides live which track each motor
//! plays.
//!
//! Fractions are fixed point: amplitudes and scores in millionths, times in
//! microseconds, frequencies in millihertz.

pub mod decode;
pub mod events;
pub mod joycon;
pub mod merge;
pub mod pipeline;
pub mod playback;
pub mod rumble;
pub mod tempo;
pub mod track_analysis;
pub mod track_types;
