//! Bracket highlighting for a document made of concatenated fragments: the
//! visible window, the remapping and filtering of per-fragment bracket pairs,
//! depth colors, the enclosing-pair highlight under the cursor, and the
//! refresh decisions that tie them together.
pub mod geometry;
pub mod fragments;
pub mod rainbow;
pub mod cursor;
pub mod refresh;
