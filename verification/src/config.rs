//! Job configuration and the error taxonomy shared by the whole library.

use vstd::prelude::*;

verus! {

/// The kinds of unrecoverable failure a decontamination job can report.
#[derive(Clone, Copy, Debug, PartialEq, Eq, Structural)]
pub enum DecontamError {
    /// A path is missing or unreadable, or a write failed.
    IoError,
    /// A line is not a well-formed record.
    FormatError,
    /// An expected text or identifier field is missing or has the wrong type.
    SchemaError,
    /// The configured n-gram window size is zero, or a required path is absent.
    ConfigError,
}

/// Settings of one decontamination run.
#[derive(Clone, Copy, Debug, PartialEq, Eq, Structural)]
pub struct Config {
    /// Number of consecutive tokens hashed into one fingerprint; at least 1.
    pub ngram_size: usize,
    /// When set, contaminated documents are suppressed from the output.
    pub keep_only_clean: bool,
}

impl Config {
    /// A configuration is valid exactly when the window size is at least 1.
    pub open spec fn valid(self) -> bool {
        self.ngram_size >= 1
    }

    /// Validates the window size before any document is touched: a window
    /// size of zero is a configuration error, anything else is accepted
    /// unchanged.
    pub fn new(ngram_size: usize, keep_only_clean: bool) -> (r: Result<Config, DecontamError>)
        ensures
            ngram_size == 0 ==> r == Result::<Config, DecontamError>::Err(
                DecontamError::ConfigError,
            ),
            ngram_size >= 1 ==> r == Result::<Config, DecontamError>::Ok(
                Config { ngram_size, keep_only_clean },
            ),
    {
        if ngram_size == 0 {
            Err(DecontamError::ConfigError)
        } else {
            Ok(Config { ngram_size, keep_only_clean })
        }
    }
}

} // verus!
