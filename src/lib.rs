//! Tuning a timer-IC relaxation oscillator to the notes of equal temperament.
//!
//! For every note, every capacitor value of a fixed series (in micro, nano
//! and pico farads, times 1, 10 or 100) is tried; where the note's frequency
//! lies in the range that the trim resistor reaches, the trim that reproduces
//! it is found by a sweep. All arithmetic is exact: trims are counted in
//! tenths of an ohm, frequencies are exact fractions, and results are given
//! in hundredths of a hertz.
//!
//! - `tables`: the note frequencies and the capacitor series.
//! - `oscillator`: frequency as a function of capacitance and trim.
//! - `search`: the trim sweep.
//! - `matcher`: matching notes to capacitances and the full enumeration.

pub mod tables;
pub mod oscillator;
pub mod search;
pub mod matcher;
