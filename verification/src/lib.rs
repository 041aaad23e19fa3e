//! An embeddable fuzzy-search core: a session holds a fixed corpus of text
//! items and ranks caller-supplied candidate subsets against an incrementally
//! typed query, with per-item match offsets for highlighting.  The character
//! level scoring itself comes from the nucleo matching engine; everything
//! around it - candidate filtering, ordering, truncation, offset clean-up -
//! is verified here.

pub mod engine;
pub mod model;
pub mod sorting;
pub mod session;
pub mod filter;
pub mod laws;
