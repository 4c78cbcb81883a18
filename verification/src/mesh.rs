//! Triangulated meshes as a mesh file gives them, and the keys by which
//! their corners are told apart.

use crate::distinct::first_seen;
use vstd::prelude::*;

verus! {

/// The identity of a vertex: the index of its position in the mesh source
/// and, where the mesh has texture coordinates, the index of its texture
/// coordinate.
pub type CornerKey = (u32, Option<u32>);

/// A triangle by the indices of its three vertices, the indices of their
/// texture coordinates, and the index of its material.
#[derive(Clone, Debug, Default, PartialEq, Eq)]
pub struct TriIndexed {
    pub v_idx: [usize; 3],
    pub tc_idx: [usize; 3],
    pub mat_idx: usize,
}

/// One triangulated mesh as it comes from a mesh file: flattened positions
/// (three coordinates each) and texture coordinates (two each), one
/// position index per triangle corner, one texture-coordinate index per
/// corner where the mesh has texture coordinates, and the material of its
/// faces.
#[derive(Clone, Debug, Default)]
pub struct MeshSource {
    pub positions: Vec<u32>,
    pub texcoords: Vec<u32>,
    pub indices: Vec<u32>,
    pub texcoord_indices: Vec<u32>,
    pub material_id: Option<usize>,
}

impl MeshSource {
    /// Whether the mesh carries texture coordinates.
    pub open spec fn has_texcoords(&self) -> bool {
        self.texcoords@.len() > 0
    }

    /// Whether the indices of corner `c` point into the position and
    /// texture-coordinate arrays.
    pub open spec fn corner_in_range(&self, c: int) -> bool {
        &&& 3 * self.indices@[c] + 2 < self.positions@.len()
        &&& self.has_texcoords() ==> 2 * self.texcoord_indices@[c] + 1 < self.texcoords@.len()
    }

    /// Whether the mesh can be ingested: its corners come in threes, a mesh
    /// with texture coordinates has one texture-coordinate index per
    /// corner, and every index points into its array.
    pub open spec fn well_formed(&self) -> bool {
        &&& self.indices@.len() % 3 == 0
        &&& self.has_texcoords() ==> self.texcoord_indices@.len() == self.indices@.len()
        &&& forall|c: int| 0 <= c < self.indices@.len() ==> self.corner_in_range(c)
    }

    /// The key of corner `c`.
    pub open spec fn corner_key(&self, c: int) -> CornerKey {
        (
            self.indices@[c],
            if self.has_texcoords() {
                Some(self.texcoord_indices@[c])
            } else {
                None
            },
        )
    }

    /// The keys of all corners, in corner order.
    pub open spec fn corner_keys(&self) -> Seq<CornerKey> {
        Seq::new(self.indices@.len(), |c: int| self.corner_key(c))
    }

    /// The position that a corner key refers to.
    pub open spec fn position_of(&self, k: CornerKey) -> [u32; 3] {
        [self.positions@[3 * k.0], self.positions@[3 * k.0 + 1], self.positions@[3 * k.0 + 2]]
    }

    /// The texture coordinate that a corner key refers to: (0, 0) where it
    /// refers to none.
    pub open spec fn texcoord_of(&self, k: CornerKey) -> [u32; 2] {
        match k.1 {
            Some(t) => [self.texcoords@[2 * t], self.texcoords@[2 * t + 1]],
            None => [0u32, 0u32],
        }
    }

    /// The positions of a sequence of corner keys.
    pub open spec fn positions_of(&self, keys: Seq<CornerKey>) -> Seq<[u32; 3]> {
        Seq::new(keys.len(), |i: int| self.position_of(keys[i]))
    }

    /// The texture coordinates of a sequence of corner keys.
    pub open spec fn texcoords_of(&self, keys: Seq<CornerKey>) -> Seq<[u32; 2]> {
        Seq::new(keys.len(), |i: int| self.texcoord_of(keys[i]))
    }

    /// The distinct corner keys of the mesh, in order of first occurrence:
    /// one per vertex that the mesh contributes.
    pub open spec fn vertex_keys(&self) -> Seq<CornerKey> {
        first_seen(self.corner_keys())
    }

    /// The index, among the vertices that the mesh contributes, of the
    /// vertex of corner `c`.
    pub open spec fn slot(&self, c: int) -> int {
        self.vertex_keys().index_of(self.corner_key(c))
    }

    /// The material index of the mesh's triangles: 0 where it names none.
    pub open spec fn material_index(&self) -> usize {
        match self.material_id {
            Some(m) => m,
            None => 0,
        }
    }

    /// Triangle `t` of the mesh, for a scene that held `base` vertices
    /// before the mesh was added.
    pub open spec fn triangle_at(&self, base: int, t: int) -> TriIndexed {
        let idx = [
            (base + self.slot(3 * t)) as usize,
            (base + self.slot(3 * t + 1)) as usize,
            (base + self.slot(3 * t + 2)) as usize,
        ];
        TriIndexed { v_idx: idx, tc_idx: idx, mat_idx: self.material_index() }
    }

    /// Tells whether the mesh is well-formed.
    pub fn is_well_formed(&self) -> (ok: bool)
        ensures
            ok == self.well_formed(),
    {
        let n = self.indices.len();
        let has_tex = self.texcoords.len() > 0;
        if n % 3 != 0 {
            return false;
        }
        if has_tex && self.texcoord_indices.len() != n {
            return false;
        }
        let pmax = self.positions.len() / 3;
        let tmax = self.texcoords.len() / 2;
        let mut c: usize = 0;
        while c < n
            invariant
                c <= n,
                n == self.indices@.len(),
                has_tex == self.has_texcoords(),
                has_tex ==> self.texcoord_indices@.len() == n,
                pmax == self.positions@.len() / 3,
                tmax == self.texcoords@.len() / 2,
                forall|d: int| 0 <= d < c ==> self.corner_in_range(d),
            decreases n - c,
        {
            if self.indices[c] as usize >= pmax {
                assert(!self.corner_in_range(c as int));
                return false;
            }
            if has_tex && self.texcoord_indices[c] as usize >= tmax {
                assert(!self.corner_in_range(c as int));
                return false;
            }
            assert(self.corner_in_range(c as int));
            c += 1;
        }
        true
    }
}

} // verus!
