//! Scenes: the geometry and materials gathered from the meshes of a mesh
//! file, with deduplicated vertices, indexed and raw triangles, and a
//! bounding box.

use crate::aabb::{bounds, lemma_bounds_sound, AABB};
use crate::coord::{is_nan, rank};
use crate::distinct::{
    first_seen, lemma_first_seen, lemma_first_seen_counts_distinct, lemma_index_of_unique,
};
use crate::material::{collect_materials, collected, Material, MaterialSource};
use crate::mesh::{CornerKey, MeshSource, TriIndexed};
use std::collections::HashMap;
use vstd::prelude::*;

verus! {

broadcast use vstd::std_specs::hash::group_hash_axioms;

/// Why a scene could not be produced.
#[derive(Clone, Copy, Debug, PartialEq, Eq, Structural)]
pub enum SceneError {
    /// The source could not be read.
    Io,
    /// The source is malformed.
    Parse,
}

/// The geometry and materials gathered from a mesh file.
#[derive(Debug)]
pub struct Scene {
    pub materials: Vec<Material>,
    pub vertices: Vec<[u32; 3]>,
    pub texture_coords: Vec<[u32; 2]>,
    pub triangles: Vec<[u32; 3]>,
    pub triangles_indexed: Vec<TriIndexed>,
    pub aabb: AABB,
}

/// What a scene holds, as sequences.
pub ghost struct SceneModel {
    pub materials: Seq<Material>,
    pub vertices: Seq<[u32; 3]>,
    pub texture_coords: Seq<[u32; 2]>,
    pub triangles: Seq<[u32; 3]>,
    pub triangles_indexed: Seq<TriIndexed>,
    pub aabb: AABB,
}

impl View for Scene {
    type V = SceneModel;

    open spec fn view(&self) -> SceneModel {
        SceneModel {
            materials: self.materials@,
            vertices: self.vertices@,
            texture_coords: self.texture_coords@,
            triangles: self.triangles@,
            triangles_indexed: self.triangles_indexed@,
            aabb: self.aabb,
        }
    }
}

impl SceneModel {
    /// Whether indexed triangle `t` agrees with the raw triangle list: each
    /// of its vertex indices points at a vertex, its texture-coordinate
    /// indices equal its vertex indices, and raw corner `3t + j` is the
    /// position of its vertex `j`.
    pub open spec fn triangle_consistent(self, t: int) -> bool {
        let tri = self.triangles_indexed[t];
        &&& tri.tc_idx == tri.v_idx
        &&& tri.v_idx[0] < self.vertices.len()
        &&& tri.v_idx[1] < self.vertices.len()
        &&& tri.v_idx[2] < self.vertices.len()
        &&& self.triangles[3 * t] == self.vertices[tri.v_idx[0] as int]
        &&& self.triangles[3 * t + 1] == self.vertices[tri.v_idx[1] as int]
        &&& self.triangles[3 * t + 2] == self.vertices[tri.v_idx[2] as int]
    }

    /// The invariant of a scene: one texture coordinate per vertex, three
    /// raw corners per indexed triangle, every indexed triangle consistent
    /// with the raw list, and the bounding box that of the vertices.
    pub open spec fn wf(self) -> bool {
        &&& self.texture_coords.len() == self.vertices.len()
        &&& self.triangles.len() == 3 * self.triangles_indexed.len()
        &&& forall|t: int| 0 <= t < self.triangles_indexed.len() ==> self.triangle_consistent(t)
        &&& self.aabb == bounds(self.vertices)
    }

    /// The scene of no geometry and no materials.
    pub open spec fn empty() -> SceneModel {
        SceneModel {
            materials: Seq::empty(),
            vertices: Seq::empty(),
            texture_coords: Seq::empty(),
            triangles: Seq::empty(),
            triangles_indexed: Seq::empty(),
            aabb: AABB::empty_spec(),
        }
    }

    /// The scene after a well-formed mesh is added: one new vertex, with
    /// its texture coordinate, per distinct corner key of the mesh in order
    /// of first occurrence; one indexed triangle per three corners; one raw
    /// corner per corner; the bounding box grown over the new vertices.
    pub open spec fn with_mesh(self, mesh: MeshSource) -> SceneModel {
        let vertices = self.vertices + mesh.positions_of(mesh.vertex_keys());
        SceneModel {
            materials: self.materials,
            vertices: vertices,
            texture_coords: self.texture_coords + mesh.texcoords_of(mesh.vertex_keys()),
            triangles: self.triangles + mesh.positions_of(mesh.corner_keys()),
            triangles_indexed: self.triangles_indexed + Seq::new(
                mesh.indices@.len() / 3,
                |t: int| mesh.triangle_at(self.vertices.len() as int, t),
            ),
            aabb: bounds(vertices),
        }
    }

    /// The scene after each mesh of `meshes` is added in turn.
    pub open spec fn with_meshes(self, meshes: Seq<MeshSource>) -> SceneModel
        decreases meshes.len(),
    {
        if meshes.len() == 0 {
            self
        } else {
            self.with_meshes(meshes.drop_last()).with_mesh(meshes.last())
        }
    }
}

/// The key under which a corner key is filed in the lookup table. Distinct
/// corner keys have distinct table keys.
spec fn table_key(k: CornerKey) -> u128 {
    (k.0 as int * 0x2_0000_0000 + match k.1 {
        Some(t) => t as int + 1,
        None => 0,
    }) as u128
}

/// Whether the lookup table files exactly the keys of `uniq`, each under
/// the scene index of its vertex.
spec fn table_matches(table: Map<u128, usize>, uniq: Seq<CornerKey>, base: int) -> bool {
    &&& forall|i: int|
        0 <= i < uniq.len() ==> table.contains_key(#[trigger] table_key(uniq[i])) && table[table_key(
            uniq[i],
        )] == base + i
    &&& forall|k: CornerKey| table.contains_key(#[trigger] table_key(k)) ==> uniq.contains(k)
}

/// Whether `cur` is `start` with one vertex added per key of `uniq`, and
/// the lookup table files those keys.
spec fn vertices_built(
    cur: SceneModel,
    start: SceneModel,
    mesh: MeshSource,
    table: Map<u128, usize>,
    uniq: Seq<CornerKey>,
) -> bool {
    &&& table_matches(table, uniq, start.vertices.len() as int)
    &&& cur.vertices == start.vertices + mesh.positions_of(uniq)
    &&& cur.texture_coords == start.texture_coords + mesh.texcoords_of(uniq)
    &&& cur.aabb == bounds(cur.vertices)
}

/// Distinct corner keys have distinct table keys.
proof fn lemma_table_key_injective(a: CornerKey, b: CornerKey)
    ensures
        table_key(a) == table_key(b) ==> a == b,
{
}

fn make_table_key(pos: u32, tex: Option<u32>) -> (r: u128)
    ensures
        r == table_key((pos, tex)),
{
    let low: u128 = match tex {
        Some(t) => t as u128 + 1,
        None => 0,
    };
    (pos as u128) * 0x2_0000_0000u128 + low
}

/// Resolves corner `c` of the mesh to a vertex of the scene, adding the
/// vertex if its key has not been seen before.
fn resolve_corner(
    scene: &mut Scene,
    mesh: &MeshSource,
    table: &mut HashMap<u128, usize>,
    c: usize,
    Ghost(start): Ghost<SceneModel>,
) -> (idx: usize)
    requires
        mesh.well_formed(),
        c < mesh.indices@.len(),
        vertices_built(
            old(scene)@,
            start,
            *mesh,
            old(table)@,
            first_seen(mesh.corner_keys().take(c as int)),
        ),
    ensures
        vertices_built(
            final(scene)@,
            start,
            *mesh,
            final(table)@,
            first_seen(mesh.corner_keys().take(c + 1)),
        ),
        final(scene)@.triangles == old(scene)@.triangles,
        final(scene)@.triangles_indexed == old(scene)@.triangles_indexed,
        final(scene)@.materials == old(scene)@.materials,
        first_seen(mesh.corner_keys().take(c as int)).is_prefix_of(
            first_seen(mesh.corner_keys().take(c + 1)),
        ),
        start.vertices.len() <= idx < start.vertices.len() + first_seen(
            mesh.corner_keys().take(c + 1),
        ).len(),
        first_seen(mesh.corner_keys().take(c + 1))[idx - start.vertices.len()] == mesh.corner_key(
            c as int,
        ),
{
    let pos_idx = mesh.indices[c];
    let tex_idx: Option<u32> = if mesh.texcoords.len() > 0 {
        Some(mesh.texcoord_indices[c])
    } else {
        None
    };
    let key = make_table_key(pos_idx, tex_idx);
    let ghost keys = mesh.corner_keys();
    let ghost k = mesh.corner_key(c as int);
    let ghost before = first_seen(keys.take(c as int));
    let ghost after = first_seen(keys.take(c + 1));
    let ghost base = start.vertices.len() as int;
    proof {
        assert(keys.take(c + 1).drop_last() =~= keys.take(c as int));
        assert(keys.take(c + 1).last() == k);
        assert(mesh.corner_in_range(c as int));
        assert forall|i: int| 0 <= i < before.len() && before[i] != k implies table_key(before[i])
            != key by {
            lemma_table_key_injective(before[i], k);
        }
    }
    let found: Option<usize> = match table.get(&key) {
        Some(v) => Some(*v),
        None => None,
    };
    match found {
        Some(idx) => {
            proof {
                assert(before.contains(k));
                assert(after == before);
                let i = choose|i: int| 0 <= i < before.len() && before[i] == k;
                assert(table@[table_key(before[i])] == base + i);
            }
            idx
        },
        None => {
            proof {
                if before.contains(k) {
                    let i = choose|i: int| 0 <= i < before.len() && before[i] == k;
                    assert(table@.contains_key(table_key(before[i])));
                }
                assert(after == before.push(k));
            }
            let p = pos_idx as usize;
            let position_count = mesh.positions.len();
            assert(3 * p + 2 < position_count);
            let x = mesh.positions[3 * p];
            let y = mesh.positions[3 * p + 1];
            let z = mesh.positions[3 * p + 2];
            let pos = [x, y, z];
            let uv = match tex_idx {
                Some(t) => {
                    let t = t as usize;
                    let u = mesh.texcoords[2 * t];
                    let v = mesh.texcoords[2 * t + 1];
                    [u, v]
                },
                None => [0u32, 0u32],
            };
            let idx = scene.vertices.len();
            let ghost prior = scene@;
            let ghost prior_table = table@;
            scene.vertices.push(pos);
            scene.aabb.extend(&pos);
            scene.texture_coords.push(uv);
            table.insert(key, idx);
            proof {
                assert(pos == mesh.position_of(k));
                assert(uv == mesh.texcoord_of(k));
                assert(scene@.vertices.drop_last() =~= prior.vertices);
                assert(scene@.vertices =~= start.vertices + mesh.positions_of(after));
                assert(scene@.texture_coords =~= start.texture_coords + mesh.texcoords_of(after));
                assert(after[before.len() as int] == k);
                assert forall|k2: CornerKey| table@.contains_key(#[trigger] table_key(k2)) implies after.contains(
                    k2,
                ) by {
                    if table_key(k2) == key {
                        lemma_table_key_injective(k2, k);
                    } else {
                        assert(prior_table.contains_key(table_key(k2)));
                        let i = choose|i: int| 0 <= i < before.len() && before[i] == k2;
                        assert(after[i] == k2);
                    }
                }
                assert forall|i: int| 0 <= i < after.len() implies table@.contains_key(
                    #[trigger] table_key(after[i]),
                ) && table@[table_key(after[i])] == base + i by {
                    if i < before.len() {
                        assert(after[i] == before[i]);
                        assert(prior_table.contains_key(table_key(before[i])));
                    }
                }
            }
            idx
        },
    }
}

/// Whether the three vertex indices of `tri` point at the vertices filed
/// in `uniq` under the keys of corners `3u`, `3u + 1` and `3u + 2`.
spec fn corners_resolved(
    tri: TriIndexed,
    uniq: Seq<CornerKey>,
    keys: Seq<CornerKey>,
    base: int,
    u: int,
    mat_idx: usize,
) -> bool {
    &&& tri.mat_idx == mat_idx
    &&& tri.tc_idx == tri.v_idx
    &&& base <= tri.v_idx[0] < base + uniq.len()
    &&& base <= tri.v_idx[1] < base + uniq.len()
    &&& base <= tri.v_idx[2] < base + uniq.len()
    &&& uniq[tri.v_idx[0] - base] == keys[3 * u]
    &&& uniq[tri.v_idx[1] - base] == keys[3 * u + 1]
    &&& uniq[tri.v_idx[2] - base] == keys[3 * u + 2]
}

proof fn lemma_resolved_extends(
    tri: TriIndexed,
    shorter: Seq<CornerKey>,
    longer: Seq<CornerKey>,
    keys: Seq<CornerKey>,
    base: int,
    u: int,
    mat_idx: usize,
)
    requires
        shorter.is_prefix_of(longer),
        corners_resolved(tri, shorter, keys, base, u, mat_idx),
    ensures
        corners_resolved(tri, longer, keys, base, u, mat_idx),
{
    let head = longer.subrange(0, shorter.len() as int);
    assert(head[tri.v_idx[0] - base] == longer[tri.v_idx[0] - base]);
    assert(head[tri.v_idx[1] - base] == longer[tri.v_idx[1] - base]);
    assert(head[tri.v_idx[2] - base] == longer[tri.v_idx[2] - base]);
}

proof fn lemma_prefix_index<K>(shorter: Seq<K>, longer: Seq<K>, i: int)
    requires
        shorter.is_prefix_of(longer),
        0 <= i < shorter.len(),
    ensures
        shorter[i] == longer[i],
        shorter.len() <= longer.len(),
{
    assert(longer.subrange(0, shorter.len() as int)[i] == longer[i]);
}

proof fn lemma_prefix_chain<K>(a: Seq<K>, b: Seq<K>, c: Seq<K>)
    requires
        a.is_prefix_of(b),
        b.is_prefix_of(c),
    ensures
        a.is_prefix_of(c),
{
    assert forall|i: int| 0 <= i < a.len() implies a[i] == c.subrange(0, a.len() as int)[i] by {
        lemma_prefix_index(a, b, i);
        lemma_prefix_index(b, c, i);
    }
    assert(a =~= c.subrange(0, a.len() as int));
}

/// Whether the triangles of `cur` are those of `start` followed by the
/// first `t` triangles of the mesh, resolved against the vertices filed in
/// `uniq`.
spec fn triangles_added(
    cur: SceneModel,
    start: SceneModel,
    mesh: MeshSource,
    uniq: Seq<CornerKey>,
    t: int,
) -> bool {
    let keys = mesh.corner_keys();
    let tri0 = start.triangles_indexed.len() as int;
    &&& cur.materials == start.materials
    &&& cur.triangles_indexed.len() == tri0 + t
    &&& cur.triangles.len() == 3 * (tri0 + t)
    &&& forall|u: int| 0 <= u < tri0 + t ==> cur.triangle_consistent(u)
    &&& forall|u: int| 0 <= u < tri0 ==> cur.triangles_indexed[u] == start.triangles_indexed[u]
    &&& forall|c: int| 0 <= c < 3 * tri0 ==> cur.triangles[c] == start.triangles[c]
    &&& forall|u: int|
        0 <= u < t ==> corners_resolved(
            #[trigger] cur.triangles_indexed[tri0 + u],
            uniq,
            keys,
            start.vertices.len() as int,
            u,
            mesh.material_index(),
        )
}

/// Whether `cur` is `start` with the first `t` triangles of the mesh
/// added, and the lookup table files the vertices added so far.
spec fn triangles_built(
    cur: SceneModel,
    start: SceneModel,
    mesh: MeshSource,
    table: Map<u128, usize>,
    t: int,
) -> bool {
    let uniq = first_seen(mesh.corner_keys().take(3 * t));
    &&& vertices_built(cur, start, mesh, table, uniq)
    &&& triangles_added(cur, start, mesh, uniq, t)
}

/// One more triangle, resolved to the vertices `a`, `b` and `d`, extends
/// the triangles added so far.
proof fn lemma_triangle_added(
    prev: SceneModel,
    cur: SceneModel,
    start: SceneModel,
    mesh: MeshSource,
    u0: Seq<CornerKey>,
    u3: Seq<CornerKey>,
    t: int,
    a: usize,
    b: usize,
    d: usize,
)
    requires
        0 <= t,
        triangles_added(prev, start, mesh, u0, t),
        u0.is_prefix_of(u3),
        prev.vertices == start.vertices + mesh.positions_of(u0),
        cur.vertices == start.vertices + mesh.positions_of(u3),
        cur.materials == prev.materials,
        start.vertices.len() <= a < start.vertices.len() + u3.len(),
        start.vertices.len() <= b < start.vertices.len() + u3.len(),
        start.vertices.len() <= d < start.vertices.len() + u3.len(),
        u3[a - start.vertices.len()] == mesh.corner_keys()[3 * t],
        u3[b - start.vertices.len()] == mesh.corner_keys()[3 * t + 1],
        u3[d - start.vertices.len()] == mesh.corner_keys()[3 * t + 2],
        cur.triangles_indexed == prev.triangles_indexed.push(
            TriIndexed { v_idx: [a, b, d], tc_idx: [a, b, d], mat_idx: mesh.material_index() },
        ),
        cur.triangles == prev.triangles.push(cur.vertices[a as int]).push(
            cur.vertices[b as int],
        ).push(cur.vertices[d as int]),
    ensures
        triangles_added(cur, start, mesh, u3, t + 1),
{
    let keys = mesh.corner_keys();
    let base = start.vertices.len() as int;
    let tri0 = start.triangles_indexed.len() as int;
    assert forall|i: int| 0 <= i < prev.vertices.len() implies cur.vertices[i]
        == prev.vertices[i] by {
        if i >= base {
            lemma_prefix_index(u0, u3, i - base);
        }
    }
    assert(u0.len() <= u3.len());
    assert forall|u: int| 0 <= u < tri0 + t + 1 implies cur.triangle_consistent(u) by {
        if u < tri0 + t {
            assert(prev.triangle_consistent(u));
            assert(cur.triangles_indexed[u] == prev.triangles_indexed[u]);
            assert(cur.triangles[3 * u] == prev.triangles[3 * u]);
            assert(cur.triangles[3 * u + 1] == prev.triangles[3 * u + 1]);
            assert(cur.triangles[3 * u + 2] == prev.triangles[3 * u + 2]);
        }
    }
    assert forall|u: int| 0 <= u < t + 1 implies corners_resolved(
        #[trigger] cur.triangles_indexed[tri0 + u],
        u3,
        keys,
        base,
        u,
        mesh.material_index(),
    ) by {
        if u < t {
            assert(cur.triangles_indexed[tri0 + u] == prev.triangles_indexed[tri0 + u]);
            lemma_resolved_extends(
                prev.triangles_indexed[tri0 + u],
                u0,
                u3,
                keys,
                base,
                u,
                mesh.material_index(),
            );
        }
    }
}

proof fn lemma_triangles_built_start(start: SceneModel, mesh: MeshSource)
    requires
        start.wf(),
    ensures
        triangles_built(start, start, mesh, Map::<u128, usize>::empty(), 0),
{
    let keys = mesh.corner_keys();
    assert(keys.take(0) =~= Seq::<CornerKey>::empty());
    assert(start.vertices + mesh.positions_of(Seq::<CornerKey>::empty()) =~= start.vertices);
    assert(start.texture_coords + mesh.texcoords_of(Seq::<CornerKey>::empty())
        =~= start.texture_coords);
}

proof fn lemma_triangles_built_end(
    cur: SceneModel,
    start: SceneModel,
    mesh: MeshSource,
    table: Map<u128, usize>,
)
    requires
        start.wf(),
        mesh.well_formed(),
        triangles_built(cur, start, mesh, table, mesh.indices@.len() as int / 3),
    ensures
        cur == start.with_mesh(mesh),
        cur.wf(),
{
    let keys = mesh.corner_keys();
    let t = mesh.indices@.len() as int / 3;
    let base = start.vertices.len() as int;
    let tri0 = start.triangles_indexed.len() as int;
    let uniq = mesh.vertex_keys();
    let goal = start.with_mesh(mesh);
    assert(keys.take(3 * t) =~= keys);
    lemma_first_seen(keys);
    assert forall|u: int| 0 <= u < t implies cur.triangles_indexed[tri0 + u] == mesh.triangle_at(
        base,
        u,
    ) by {
        let tri = cur.triangles_indexed[tri0 + u];
        let want = mesh.triangle_at(base, u);
        assert(corners_resolved(tri, uniq, keys, base, u, mesh.material_index()));
        lemma_index_of_unique(uniq, tri.v_idx[0] - base);
        lemma_index_of_unique(uniq, tri.v_idx[1] - base);
        lemma_index_of_unique(uniq, tri.v_idx[2] - base);
        assert(tri.v_idx =~= want.v_idx);
        assert(tri.tc_idx =~= want.tc_idx);
    }
    assert(cur.triangles_indexed =~= goal.triangles_indexed);
    assert forall|c: int| 0 <= c < 3 * t implies cur.triangles[3 * tri0 + c] == mesh.position_of(
        keys[c],
    ) by {
        let u = c / 3;
        let tri = cur.triangles_indexed[tri0 + u];
        assert(cur.triangle_consistent(tri0 + u));
        assert(corners_resolved(tri, uniq, keys, base, u, mesh.material_index()));
    }
    assert(cur.triangles =~= goal.triangles);
}

/// Adds triangle `t` of the mesh to the scene.
fn add_triangle(
    scene: &mut Scene,
    mesh: &MeshSource,
    table: &mut HashMap<u128, usize>,
    t: usize,
    Ghost(start): Ghost<SceneModel>,
)
    requires
        mesh.well_formed(),
        t < mesh.indices@.len() / 3,
        mesh.indices@.len() <= usize::MAX,
        triangles_built(old(scene)@, start, *mesh, old(table)@, t as int),
    ensures
        triangles_built(final(scene)@, start, *mesh, final(table)@, t + 1),
{
    let mat_idx = match mesh.material_id {
        Some(m) => m,
        None => 0,
    };
    let c = 3 * t;
    let ghost keys = mesh.corner_keys();
    let ghost base = start.vertices.len() as int;
    let ghost prev = scene@;
    let ghost u0 = first_seen(keys.take(c as int));
    let a = resolve_corner(scene, mesh, table, c, Ghost(start));
    let ghost u1 = first_seen(keys.take(c + 1));
    let b = resolve_corner(scene, mesh, table, c + 1, Ghost(start));
    let ghost u2 = first_seen(keys.take(c + 2));
    let d = resolve_corner(scene, mesh, table, c + 2, Ghost(start));
    let ghost u3 = first_seen(keys.take(c + 3));
    proof {
        lemma_prefix_chain(u1, u2, u3);
        lemma_prefix_chain(u0, u1, u3);
        lemma_prefix_index(u1, u3, a - base);
        lemma_prefix_index(u2, u3, b - base);
    }
    let idx = [a, b, d];
    let pa = scene.vertices[a];
    let pb = scene.vertices[b];
    let pd = scene.vertices[d];
    scene.triangles_indexed.push(TriIndexed { v_idx: idx, tc_idx: idx, mat_idx });
    scene.triangles.push(pa);
    scene.triangles.push(pb);
    scene.triangles.push(pd);
    proof {
        lemma_triangle_added(prev, scene@, start, *mesh, u0, u3, t as int, a, b, d);
    }
}

impl Default for Scene {
    /// The scene of no geometry and no materials.
    fn default() -> (s: Scene)
        ensures
            s@ == SceneModel::empty(),
    {
        Scene::new()
    }
}

impl Scene {
    /// Returns the scene of no geometry and no materials.
    pub fn new() -> (s: Scene)
        ensures
            s@ == SceneModel::empty(),
            s@.wf(),
    {
        Scene {
            materials: Vec::new(),
            vertices: Vec::new(),
            texture_coords: Vec::new(),
            triangles: Vec::new(),
            triangles_indexed: Vec::new(),
            aabb: AABB::empty(),
        }
    }

    /// Adds a mesh to the scene. A mesh that is not well-formed is
    /// rejected and leaves the scene as it was.
    pub fn ingest_mesh(&mut self, mesh: &MeshSource) -> (r: Result<(), SceneError>)
        requires
            old(self)@.wf(),
        ensures
            final(self)@.wf(),
            mesh.well_formed() ==> r is Ok && final(self)@ == old(self)@.with_mesh(*mesh),
            !mesh.well_formed() ==> r == Err::<(), SceneError>(SceneError::Parse) && final(self)@
                == old(self)@,
    {
        if !mesh.is_well_formed() {
            return Err(SceneError::Parse);
        }
        let ghost start = self@;
        let corner_count = mesh.indices.len();
        let triangle_count = corner_count / 3;
        let mut table: HashMap<u128, usize> = HashMap::new();
        let mut t: usize = 0;
        proof {
            lemma_triangles_built_start(start, *mesh);
        }
        while t < triangle_count
            invariant
                mesh.well_formed(),
                start.wf(),
                corner_count == mesh.indices@.len(),
                triangle_count == corner_count / 3,
                t <= triangle_count,
                triangles_built(self@, start, *mesh, table@, t as int),
            decreases triangle_count - t,
        {
            add_triangle(self, mesh, &mut table, t, Ghost(start));
            t += 1;
        }
        proof {
            lemma_triangles_built_end(self@, start, *mesh, table@);
        }
        Ok(())
    }
}

/// How reading a mesh file failed.
#[derive(Clone, Copy, Debug, PartialEq, Eq, Structural)]
pub enum LoadFailure {
    OpenFileFailed,
    ReadError,
    UnrecognizedCharacter,
    PositionParseError,
    ScalingByZeroError,
    ColorParseError,
    NormalParseError,
    TexcoordParseError,
    FaceParseError,
    MaterialParseError,
    InvalidObjectName,
    InvalidPolygon,
    FaceVertexOutOfBounds,
    FaceTexCoordOutOfBounds,
    FaceNormalOutOfBounds,
    FaceColorOutOfBounds,
    InvalidLoadOptionConfig,
    GenericFailure,
}

/// The error that a failed read amounts to: `Io` where the file could not
/// be opened or read, `Parse` where its text was refused.
pub open spec fn failure_error(failure: LoadFailure) -> SceneError {
    if failure == LoadFailure::OpenFileFailed || failure == LoadFailure::ReadError {
        SceneError::Io
    } else {
        SceneError::Parse
    }
}

/// Classifies a failed read.
pub fn classify_failure(failure: LoadFailure) -> (e: SceneError)
    ensures
        e == failure_error(failure),
{
    match failure {
        LoadFailure::OpenFileFailed => SceneError::Io,
        LoadFailure::ReadError => SceneError::Io,
        _ => SceneError::Parse,
    }
}

/// The scene that a mesh file's models and material declarations yield.
pub open spec fn loaded(models: Seq<MeshSource>, materials: Seq<MaterialSource>) -> SceneModel {
    SceneModel {
        materials: collected(materials),
        vertices: Seq::empty(),
        texture_coords: Seq::empty(),
        triangles: Seq::empty(),
        triangles_indexed: Seq::empty(),
        aabb: AABB::empty_spec(),
    }.with_meshes(models)
}

/// Builds the scene of a mesh file from its models and its material
/// declarations. Fails with `Parse`, returning no scene, exactly when some
/// model is not well-formed. The scene built holds one vertex per distinct
/// corner key of each model, and its raw triangle list is the expansion of
/// its indexed triangles.
pub fn load_obj_scene(models: &Vec<MeshSource>, materials: &Vec<MaterialSource>) -> (r: Result<
    Scene,
    SceneError,
>)
    ensures
        match r {
            Ok(scene) => {
                &&& forall|i: int| 0 <= i < models@.len() ==> models@[i].well_formed()
                &&& scene@ == loaded(models@, materials@)
                &&& scene@.wf()
                &&& scene@.vertices.len() == distinct_corner_total(models@)
                &&& scene@.texture_coords.len() == scene@.vertices.len()
                &&& scene@.triangles == scene@.expanded()
            },
            Err(e) => {
                &&& e == SceneError::Parse
                &&& exists|i: int| 0 <= i < models@.len() && !models@[i].well_formed()
            },
        },
{
    let mut scene = Scene::new();
    scene.materials = collect_materials(materials);
    let ghost start = scene@;
    let mut i: usize = 0;
    while i < models.len()
        invariant
            i <= models@.len(),
            start.materials == collected(materials@),
            start.vertices == Seq::<[u32; 3]>::empty(),
            start.texture_coords == Seq::<[u32; 2]>::empty(),
            start.triangles == Seq::<[u32; 3]>::empty(),
            start.triangles_indexed == Seq::<TriIndexed>::empty(),
            start.aabb == AABB::empty_spec(),
            forall|j: int| 0 <= j < i ==> models@[j].well_formed(),
            scene@ == start.with_meshes(models@.take(i as int)),
            scene@.wf(),
        decreases models@.len() - i,
    {
        proof {
            assert(models@.take(i + 1).drop_last() =~= models@.take(i as int));
        }
        match scene.ingest_mesh(&models[i]) {
            Ok(_) => {},
            Err(e) => {
                return Err(e);
            },
        }
        i += 1;
    }
    proof {
        assert(models@.take(i as int) =~= models@);
        lemma_scene_vertex_count(models@, materials@);
        scene@.lemma_raw_is_expansion();
    }
    Ok(scene)
}

/// The number of vertices that a sequence of meshes contributes: for each
/// mesh, the number of its distinct corner keys.
pub open spec fn distinct_corner_total(meshes: Seq<MeshSource>) -> nat
    decreases meshes.len(),
{
    if meshes.len() == 0 {
        0
    } else {
        distinct_corner_total(meshes.drop_last()) + meshes.last().corner_keys().to_set().len()
    }
}

/// Adding a mesh adds one vertex per distinct corner key of the mesh, and
/// as many texture coordinates; new vertex `i` and new texture coordinate
/// `i` are the position and the texture coordinate of the `i`-th distinct
/// key.
pub proof fn lemma_mesh_vertex_count(start: SceneModel, mesh: MeshSource)
    ensures
        start.with_mesh(mesh).vertices.len() == start.vertices.len()
            + mesh.corner_keys().to_set().len(),
        start.with_mesh(mesh).texture_coords.len() == start.texture_coords.len()
            + mesh.corner_keys().to_set().len(),
        mesh.vertex_keys().len() == mesh.corner_keys().to_set().len(),
        mesh.vertex_keys().len() <= mesh.corner_keys().len(),
        forall|i: int|
            0 <= i < mesh.vertex_keys().len() ==> {
                &&& start.with_mesh(mesh).vertices[start.vertices.len() + i] == mesh.position_of(
                    mesh.vertex_keys()[i],
                )
                &&& start.with_mesh(mesh).texture_coords[start.texture_coords.len() + i]
                    == mesh.texcoord_of(mesh.vertex_keys()[i])
            },
{
    lemma_first_seen_counts_distinct(mesh.corner_keys());
    lemma_first_seen(mesh.corner_keys());
}

/// A scene built from meshes alone holds one vertex, and one texture
/// coordinate, per distinct corner key of each mesh.
pub proof fn lemma_scene_vertex_count(meshes: Seq<MeshSource>, materials: Seq<MaterialSource>)
    ensures
        loaded(meshes, materials).vertices.len() == distinct_corner_total(meshes),
        loaded(meshes, materials).texture_coords.len() == distinct_corner_total(meshes),
    decreases meshes.len(),
{
    if meshes.len() > 0 {
        lemma_scene_vertex_count(meshes.drop_last(), materials);
        lemma_mesh_vertex_count(loaded(meshes.drop_last(), materials), meshes.last());
    }
}

impl SceneModel {
    /// The raw triangle list that the indexed triangles expand to: corner
    /// `c` is the vertex that triangle `c / 3` names in place `c % 3`.
    pub open spec fn expanded(self) -> Seq<[u32; 3]> {
        Seq::new(
            3 * self.triangles_indexed.len(),
            |c: int| self.vertices[self.triangles_indexed[c / 3].v_idx[c % 3] as int],
        )
    }

    /// In a scene that meets its invariant, the raw triangle list is the
    /// expansion of the indexed triangles.
    pub proof fn lemma_raw_is_expansion(self)
        requires
            self.wf(),
        ensures
            self.triangles == self.expanded(),
    {
        assert forall|c: int| 0 <= c < self.triangles.len() implies self.triangles[c]
            == self.expanded()[c] by {
            assert(self.triangle_consistent(c / 3));
        }
        assert(self.triangles =~= self.expanded());
    }

    /// In a scene that meets its invariant, every coordinate of every
    /// vertex that is a number lies between the bounds of the scene's
    /// bounding box.
    pub proof fn lemma_vertices_within_box(self, i: int, k: int)
        requires
            self.wf(),
            0 <= i < self.vertices.len(),
            0 <= k < 3,
            !is_nan(self.vertices[i][k]),
        ensures
            rank(self.aabb.min[k]) <= rank(self.vertices[i][k]) <= rank(self.aabb.max[k]),
    {
        lemma_bounds_sound(self.vertices, i, k);
    }
}

} // verus!
