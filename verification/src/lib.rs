//! Visual-formatting core of a minimal rendering pipeline.
//!
//! Given a parsed document tree and a parsed list of style rules, the crate
//! resolves which declarations apply to each element (the cascade) and then
//! computes the position and size of every box of the block layout.
//! Tokenizing markup or style text and painting the finished layout tree are
//! left to the caller.
//!
//! All lengths are whole pixels.

pub mod css;
pub mod dom;
pub mod style;
pub mod layout;
