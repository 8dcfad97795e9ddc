//! Detection of n-gram overlap between a reference corpus and a training
//! corpus: text normalization, sliding-window n-gram fingerprinting, a
//! reference fingerprint index, and the overlap scan that classifies each
//! training document.

pub mod assemble;
pub mod chars;
pub mod config;
pub mod hashing;
pub mod index;
pub mod ngrams;
pub mod normalize;
pub mod scanner;
pub mod strings;
