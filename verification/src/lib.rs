//! A greedy multi-hop router over a 3-D point cloud of stars.
//!
//! The crate deserializes a binary point-cloud snapshot into an immutable
//! store, builds one spatial index per star category, and searches for a
//! multi-hop route between two neutron stars.  Every hop must be bridged by a
//! general star that satisfies a two-sided distance constraint; the router
//! escalates its working range limit until a route is found or a hard ceiling
//! is reached.
//!
//! All geometry is carried out in fixed-point integer coordinates with
//! [`geom::SCALE`] units per light-year, so every comparison the engine makes
//! is exact.

pub mod alias;
pub mod geom;
pub mod index;
pub mod route;
pub mod store;
