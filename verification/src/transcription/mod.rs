//! From recorded speech to text.

pub mod cleaner;
pub mod live;
pub mod model;
pub mod openai;
pub mod whisper;
