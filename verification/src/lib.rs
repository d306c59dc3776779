//! Logic of a call recorder.

pub mod anna;
pub mod audio;
pub mod dictation;
pub mod dictation_windows;
pub mod google_auth;
pub mod logging;
pub mod number;
pub mod paths;
pub mod recording;
pub mod settings;
pub mod state;
pub mod text;
pub mod text_insert;
pub mod transcription;
pub mod tray;
