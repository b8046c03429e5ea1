//! Core of a diagnostics-markup tool: a span model for analyzer findings, a
//! markup compiler that annotates source bytes with inline markers, an item
//! extractor and drift-based aligner that pair up changed top-level items
//! between an original and an auto-fixed document, and a patch correlator
//! that matches findings against diff hunks.

pub mod align;
pub mod bytes;
pub mod extract;
pub mod language;
pub mod markup;
pub mod patch;
pub mod span;
