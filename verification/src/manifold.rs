//! The manifold: the closed, consistently wound boundary of a solid.

use vstd::prelude::*;
use crate::error::Error;
use crate::mesh::{Mesh, MeshView};
use crate::surface::{faces_all_differ, faces_differ, is_closed, is_closed_surface};
use crate::volume::{volume_is_not_negative, six_volume};
use crate::weld::{is_welded, lemma_welded_is_fixed, weld, welded};

verus! {

/// Whether the triangles of a mesh buffer form a closed surface that faces
/// outward: the surface is closed and consistently wound, no two triangles
/// have the same three vertices, and the volume that the triangles enclose,
/// counted positive where they face outward, is not negative. Whether
/// triangles cut through each other away from their vertices is not looked
/// at.
pub open spec fn is_outward_surface(m: MeshView) -> bool {
    &&& is_closed(m.indices)
    &&& faces_differ(m.indices)
    &&& six_volume(m) >= 0
}

/// Whether a mesh buffer holds the boundary of a solid as a manifold keeps
/// it: the buffer has its structure, no two vertices lie at the same point,
/// and the triangles form a closed surface that faces outward. A buffer
/// with no triangles holds the empty solid.
pub open spec fn is_manifold(m: MeshView) -> bool {
    &&& m.well_formed()
    &&& is_welded(m)
    &&& is_outward_surface(m)
}

/// What a mesh buffer gives as a manifold: the welded buffer, if its
/// triangles then form a closed surface that faces outward, and nothing
/// otherwise.
pub open spec fn manifold_of(m: MeshView) -> Option<MeshView> {
    if is_outward_surface(welded(m)) {
        Some(welded(m))
    } else {
        None
    }
}

/// The boundary of a solid. It is validated when it is made and never
/// changes; every operation gives a new manifold.
pub struct Manifold {
    mesh: Mesh,
}

impl View for Manifold {
    type V = MeshView;

    closed spec fn view(&self) -> MeshView {
        self.mesh@
    }
}

impl Clone for Manifold {
    /// A second manifold with the same boundary.
    fn clone(&self) -> (r: Manifold)
        ensures
            r@ == self@,
    {
        proof {
            use_type_invariant(self);
        }
        Manifold { mesh: self.mesh.clone() }
    }
}

impl Manifold {
    #[verifier::type_invariant]
    spec fn inv(self) -> bool {
        is_manifold(self@)
    }

    /// Makes a manifold of a mesh. Vertices that lie at the same point are
    /// merged first. The mesh is refused as `InvalidGeometry` if the
    /// surface is then open or not consistently wound, if two triangles lie
    /// on the same three vertices, or if the surface is wound inward, so
    /// that it encloses a negative volume. A surface that is wound inward is
    /// not turned.
    pub fn from_mesh(mesh: Mesh) -> (r: Result<Manifold, Error>)
        ensures
            match r {
                Ok(manifold) => manifold_of(mesh@) == Some(manifold@) && is_manifold(manifold@),
                Err(e) => e == Error::InvalidGeometry && manifold_of(mesh@) is None,
            },
    {
        let merged = weld(&mesh);
        let (_, corners) = merged.buffers();
        if is_closed_surface(corners.as_slice()) && faces_all_differ(corners.as_slice())
            && volume_is_not_negative(&merged) {
            Ok(Manifold { mesh: merged })
        } else {
            Err(Error::InvalidGeometry)
        }
    }

    /// Get the mesh representation of the manifold: the same buffers, in the
    /// same order, at every call.
    pub fn to_mesh(&self) -> (r: Mesh)
        ensures
            r@ == self@,
            is_manifold(self@),
    {
        proof {
            use_type_invariant(self);
        }
        self.mesh.clone()
    }

    /// Whether the manifold is the empty solid: it has no triangle.
    pub fn is_empty(&self) -> (r: bool)
        ensures
            r == (self@.triangle_count() == 0),
    {
        let (_, indices) = self.mesh.buffers();
        indices.len() == 0
    }
}

impl Mesh {
    /// Get the manifold representation of the mesh: what
    /// `Manifold::from_mesh` makes of a copy of this mesh.
    pub fn to_manifold(&self) -> (r: Result<Manifold, Error>)
        ensures
            match r {
                Ok(manifold) => manifold_of(self@) == Some(manifold@) && is_manifold(manifold@),
                Err(e) => e == Error::InvalidGeometry && manifold_of(self@) is None,
            },
    {
        Manifold::from_mesh(self.clone())
    }
}

/// A manifold that is turned into a mesh and back is the same manifold, so
/// that turning it into a mesh once more gives the same mesh as the first
/// time.
pub proof fn lemma_round_trip(m: MeshView)
    requires
        is_manifold(m),
    ensures
        manifold_of(m) == Some(m),
{
    lemma_welded_is_fixed(m);
}

} // verus!
