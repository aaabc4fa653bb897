//! Wonder of U's library: how recordings are named, imported, transcribed and cleaned,
//! how a transcript becomes subtitles, and how study progress is counted by day, each with
//! a contract that Verus proves. Files, processes, threads and floating point stay outside
//! it, in `app/`.
pub mod assets;
pub mod command;
pub mod library;
pub mod media;
pub mod path_probe;
pub mod paths;
pub mod preview;
pub mod progress;
pub mod recording;
pub mod scanner;
pub mod settings;
pub mod sherpa;
pub mod subtitles;
pub mod text;
pub mod tokenizer;
pub mod translation;
