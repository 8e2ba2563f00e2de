//! Resumable parsing of very large podcast feeds.
//!
//! A feed is read in bounded byte windows. Each window yields the items whose
//! `<item>` element closed inside it and the offset just after the last of
//! them, which is where the next window starts.

pub mod client;
pub mod entity;
pub mod error;
pub mod model;
pub mod parser;
pub mod rss;
pub mod stream;
pub mod util;
pub mod xml;
