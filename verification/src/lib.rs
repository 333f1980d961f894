pub mod text;
pub mod tables;
pub mod types;
pub mod suffix_prefix;
pub mod phonemizer;
pub mod download;

pub use download::Downloader;
pub use phonemizer::error::{PhonemizeError, Result as PhonemizeResult};
