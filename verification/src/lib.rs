//! Text statistics: segmentation of a text into words, sentences, paragraphs
//! and lines, the metrics derived from them, keyword frequencies, and the set
//! of metrics a session has enabled.

pub mod duration;
pub mod export;
pub mod keywords;
pub mod metrics;
pub mod options;
pub mod pattern;
pub mod ratio;
pub mod segment;
pub mod state;
pub mod text;
