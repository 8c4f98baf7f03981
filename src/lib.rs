//! Moves a unique molecular identifier (UMI) embedded in a read name into the
//! record's `RX` tag.
//!
//! Read names carry zero or more segments of the form `{key}={value},{quality};`.
//! The library decodes those segments, picks the value of the first one whose key
//! equals a configured target key, and decides for each record of a stream what
//! to do with it: which tag value to set, and whether to report a name that holds
//! no such segment.
pub mod name_grammar;
pub mod umi;
pub mod diagnostics;
pub mod pipeline;
