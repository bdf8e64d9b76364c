//! The mesh buffer: a flat array of vertex coordinates and a flat array of
//! triangle corners.

use vstd::prelude::*;
use vstd::slice::slice_to_vec;
use crate::error::Error;
use crate::ieee::{canonical32, f32_is_finite, is_finite32};

verus! {

/// What a mesh buffer holds. `vertices` lists the coordinates `x, y, z` of
/// one vertex after the other, each as the bits of a binary32 value;
/// `indices` lists the three corners of one triangle after the other, each
/// the number of a vertex.
pub struct MeshView {
    pub vertices: Seq<u32>,
    pub indices: Seq<u32>,
}

impl MeshView {
    /// The number of vertices.
    pub open spec fn vertex_count(self) -> int {
        self.vertices.len() as int / 3
    }

    /// The number of triangles.
    pub open spec fn triangle_count(self) -> int {
        self.indices.len() as int / 3
    }

    /// The structure that every mesh buffer has: whole vertices with finite
    /// coordinates, whole triangles, and no corner that names a vertex
    /// which is not there. Nothing is said of the surface that the triangles
    /// form.
    pub open spec fn well_formed(self) -> bool {
        &&& self.vertices.len() % 3 == 0
        &&& forall|i: int| 0 <= i < self.vertices.len() ==> is_finite32(#[trigger] self.vertices[i])
        &&& self.indices.len() % 3 == 0
        &&& forall|k: int|
            0 <= k < self.indices.len() ==> (#[trigger] self.indices[k] as int)
                < self.vertex_count()
    }

    /// Where vertex `v` lies: its three coordinates, each in canonical
    /// encoding, so that two vertices lie at the same point exactly when
    /// their positions are equal.
    pub open spec fn position(self, v: int) -> (u32, u32, u32) {
        (
            canonical32(self.vertices[3 * v]),
            canonical32(self.vertices[3 * v + 1]),
            canonical32(self.vertices[3 * v + 2]),
        )
    }

    /// The positions of all vertices, in order.
    pub open spec fn positions(self) -> Seq<(u32, u32, u32)> {
        Seq::new(self.vertex_count() as nat, |v: int| self.position(v))
    }
}

/// A mesh buffer. It is checked once, when it is made, and never changes.
pub struct Mesh {
    vertices: Vec<u32>,
    indices: Vec<u32>,
}

impl View for Mesh {
    type V = MeshView;

    closed spec fn view(&self) -> MeshView {
        MeshView { vertices: self.vertices@, indices: self.indices@ }
    }
}

impl Clone for Mesh {
    /// A second mesh with the same buffers.
    fn clone(&self) -> (r: Mesh)
        ensures
            r@ == self@,
    {
        proof {
            use_type_invariant(self);
        }
        Mesh { vertices: self.vertices.clone(), indices: self.indices.clone() }
    }
}

impl Mesh {
    #[verifier::type_invariant]
    spec fn inv(self) -> bool {
        self@.well_formed()
    }

    /// Creates a mesh from vertex coordinates and triangle corners. The
    /// buffers are copied as they are if they have the structure of a mesh
    /// buffer, and refused as `InvalidGeometry` if they do not.
    pub fn new(vertices: &[u32], indices: &[u32]) -> (r: Result<Mesh, Error>)
        ensures
            match r {
                Ok(mesh) => {
                    &&& mesh@.vertices == vertices@
                    &&& mesh@.indices == indices@
                    &&& mesh@.well_formed()
                },
                Err(e) => {
                    &&& e == Error::InvalidGeometry
                    &&& !(MeshView { vertices: vertices@, indices: indices@ }).well_formed()
                },
            },
    {
        let ghost given = MeshView { vertices: vertices@, indices: indices@ };
        if vertices.len() % 3 != 0 || indices.len() % 3 != 0 {
            return Err(Error::InvalidGeometry);
        }
        let count = vertices.len() / 3;
        let mut i: usize = 0;
        while i < vertices.len()
            invariant
                i <= vertices.len(),
                given == (MeshView { vertices: vertices@, indices: indices@ }),
                forall|a: int| 0 <= a < i ==> is_finite32(#[trigger] vertices@[a]),
            decreases vertices.len() - i,
        {
            if !f32_is_finite(vertices[i]) {
                assert(!is_finite32(given.vertices[i as int]));
                return Err(Error::InvalidGeometry);
            }
            i += 1;
        }
        let mut k: usize = 0;
        while k < indices.len()
            invariant
                k <= indices.len(),
                count == vertices.len() / 3,
                given == (MeshView { vertices: vertices@, indices: indices@ }),
                forall|a: int| 0 <= a < k ==> (#[trigger] indices@[a] as int) < count,
            decreases indices.len() - k,
        {
            if indices[k] as usize >= count {
                assert(given.indices[k as int] as int >= given.vertex_count());
                return Err(Error::InvalidGeometry);
            }
            k += 1;
        }
        Ok(Mesh { vertices: slice_to_vec(vertices), indices: slice_to_vec(indices) })
    }

    /// Get the vertices of the mesh: three coordinates for each vertex.
    pub fn vertices(&self) -> (r: Vec<u32>)
        ensures
            r@ == self@.vertices,
            self@.well_formed(),
    {
        proof {
            use_type_invariant(self);
        }
        self.vertices.clone()
    }

    /// Get the indices of the mesh: three corners for each triangle.
    pub fn indices(&self) -> (r: Vec<u32>)
        ensures
            r@ == self@.indices,
            self@.well_formed(),
    {
        proof {
            use_type_invariant(self);
        }
        self.indices.clone()
    }

    /// The number of vertices.
    pub fn vertex_count(&self) -> (r: usize)
        ensures
            r == self@.vertex_count(),
    {
        self.vertices.len() / 3
    }

    /// The number of triangles.
    pub fn triangle_count(&self) -> (r: usize)
        ensures
            r == self@.triangle_count(),
    {
        self.indices.len() / 3
    }

    /// The two buffers, borrowed.
    pub(crate) fn buffers(&self) -> (r: (&Vec<u32>, &Vec<u32>))
        ensures
            r.0@ == self@.vertices,
            r.1@ == self@.indices,
            self@.well_formed(),
    {
        proof {
            use_type_invariant(self);
        }
        (&self.vertices, &self.indices)
    }

    /// Makes a mesh of two buffers that are known to have its structure.
    pub(crate) fn from_buffers(vertices: Vec<u32>, indices: Vec<u32>) -> (r: Mesh)
        requires
            (MeshView { vertices: vertices@, indices: indices@ }).well_formed(),
        ensures
            r@ == (MeshView { vertices: vertices@, indices: indices@ }),
    {
        Mesh { vertices, indices }
    }
}

} // verus!
