//! Playback of a wave file on an audio device so that a given sample is
//! played at a given time of the wall clock, as the decisions that the
//! playback loop takes and the streaming statistics that they rest on.
//!
//! Everything here computes with whole numbers: times in nanoseconds,
//! lengths of a sample in attoseconds, places in the file in parts of a
//! frame. The loop itself, which talks to the device and reads the file,
//! is not part of the library.

pub mod average;
pub mod controller;
pub mod covariance;
pub mod indicator;
pub mod integers;
pub mod median;
pub mod moving;
pub mod number;
pub mod regression;
pub mod resample;
pub mod stats;
pub mod steering;
pub mod sum;
pub mod textbook;
pub mod timing;
pub mod variance;
pub mod window;
