//! Verified core of a plain-text log filtering tool.
//!
//! Lines of a log are classified by literal substring search against a set
//! of keywords; a file's text can be reduced to the lines that carry (or
//! that lack) a keyword, and the reduced text is written under a derived
//! sibling file name.  The modules hold, in order: the keyword matcher,
//! line splitting and joining, the output-file naming rule, the per-file
//! processor, and the batch model that processes many files independently.

pub mod batch;
pub mod lines;
pub mod matcher;
pub mod naming;
pub mod paths;
pub mod processor;
