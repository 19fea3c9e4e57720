//! Verified core of a CAD library: topology snapshots, boolean expression
//! trees, exchange-format framing and color handling.
use vstd::prelude::*;

pub mod error;
pub mod topology;
pub mod boolean;
pub mod bytes;
pub mod body_order;
pub mod colormap;
pub mod color_trailer;
pub mod text;
pub mod repair;
pub mod gltf;
pub mod mesh_buffers;
pub mod color;
pub mod trim;
pub mod construct;
pub mod provenance;
pub mod chjc;

pub use error::{Error, SolidificationFailure};

verus! {

} // verus!
