//! Profiles of typed nodes, with a content hash that identifies a profile and
//! a set distance that measures how far two profiles have drifted apart.
//!
//! A profile is a plain value: a sequence of nodes, an energy state and a
//! version. Nothing here changes a profile that it is given. What is wanted
//! changed is made anew, by [`OntoProfile::with_overrides`] or by hand, since
//! the fields are public.
//!
//! - [`model`] holds the nodes and profiles, and the plain values that stand
//!   for them in contracts.
//! - [`scalar`] holds the real-valued quantities, as numerals.
//! - [`encoding`] writes the canonical text of a profile.
//! - [`digest`] takes the content hash of that text.
//! - [`distance`] measures the Jaccard distance between two profiles.
//! - [`injective`] proves that the canonical text tells the profile.

pub mod digest;
pub mod distance;
pub mod encoding;
pub mod injective;
pub mod model;
pub mod scalar;

pub use distance::{DistanceView, JaccardDistance};
pub use model::{NodeView, OntoNode, OntoProfile, ProfileOverrides, ProfileView};
pub use scalar::Scalar;
