//! Verified data model of a solid-modelling kernel: mesh buffers, watertight
//! manifolds and the rules that guard the operations on them.
//!
//! Real numbers enter this crate as the bits of their IEEE 754 encoding, so
//! that every contract is stated over integers. A mesh buffer is checked for
//! its structure when it is made. A manifold is made of a mesh buffer by
//! welding the vertices that lie at one point and then checking, exactly,
//! that the triangles bound a solid: that they form a closed, consistently
//! wound surface, that no two of them lie on the same vertices, and that the
//! volume they enclose is not negative.

pub mod error;
pub mod ieee;
pub mod key;
pub mod manifold;
pub mod mesh;
pub mod ops;
pub mod params;
pub mod surface;
pub mod volume;
pub mod weld;
pub mod wide;
