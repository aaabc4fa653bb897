pub mod batch;
pub mod fetch;
pub mod import;
pub mod naming;
pub mod requirements;
pub mod segments;
pub mod selection;
pub mod texts;
pub mod transcripts;
