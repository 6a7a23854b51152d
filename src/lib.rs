//! A tree of named, continuously-valued plugin parameters, addressed by a
//! host through one flat, zero-based index space.
//!
//! A [`Group`] holds leaves and nested groups in declaration order. Every
//! operation of the host (count, name, label, text, get and set) resolves a
//! flat index to the leaf that owns it; indices outside the tree give neutral
//! defaults. Values are carried as the bit patterns of IEEE-754 single
//! precision numbers, which are stored and handed back unchanged.
pub mod flat;
pub mod group;
pub mod laws;
pub mod leaf;

pub use flat::ParamView;
pub use group::{BuildError, Group};
pub use leaf::Leaf;
