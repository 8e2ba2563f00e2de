//! The errors of a window.

use vstd::prelude::*;

verus! {

/// Why a window could not be read.
#[derive(Debug, PartialEq)]
pub enum FeedError {
    /// The range fetch failed; the transport's own words.
    Transport(String),
    /// A fetch committed fewer bytes than the configured minimum.
    NoProgress,
}

impl FeedError {
    /// The reason in words.
    pub fn reason(&self) -> (text: String)
        ensures
            text@ == match *self {
                FeedError::Transport(words) => words@,
                FeedError::NoProgress => "segment size not large enough"@,
            },
    {
        match self {
            FeedError::Transport(words) => words.clone(),
            FeedError::NoProgress => "segment size not large enough".to_string(),
        }
    }
}

} // verus!
