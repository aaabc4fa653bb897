pub mod diagnostics;
pub mod envelope;
pub mod transcribe;
pub mod whisper;
