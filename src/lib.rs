//! Renders a directory's contents as an indented tree diagram.
//!
//! The library holds the whole decision logic of the walk: which patterns
//! exclude an entry, in which order the entries of a directory are listed,
//! how each line's branch prefix is drawn, how an entry is classified, when
//! the walk descends, and how the counts are kept. Reading the filesystem and
//! printing are left to the caller, which drives a [`walker::Walker`].
pub mod stats;
pub mod text;
pub mod pattern;
pub mod order;
pub mod entry;
pub mod walker;
