//! Recorded audio.

pub mod mixer;
