//! Materials and their collection by name.

use crate::distinct::{first_seen, last_position, lemma_first_seen, lemma_last_position};
use vstd::prelude::*;

verus! {

/// A surface material. Colours and the exponent are bit patterns of
/// single-precision numbers.
#[derive(Clone, Debug, Default)]
pub struct Material {
    pub name: String,
    pub texture: Option<String>,
    pub diffuse: [u32; 3],
    pub specular: [u32; 3],
    pub ambient: [u32; 3],
    pub exponent: u32,
}

/// A material as a material file declares it: any colour, the diffuse
/// texture and the shininess may be missing.
#[derive(Clone, Debug, Default)]
pub struct MaterialSource {
    pub name: String,
    pub diffuse_texture: Option<String>,
    pub diffuse: Option<[u32; 3]>,
    pub specular: Option<[u32; 3]>,
    pub ambient: Option<[u32; 3]>,
    pub shininess: Option<u32>,
}

/// A colour, or black where it is missing.
pub open spec fn colour_or_black(c: Option<[u32; 3]>) -> [u32; 3] {
    match c {
        Some(c) => c,
        None => [0u32, 0u32, 0u32],
    }
}

/// The material that a declaration stands for: missing colours are black
/// and a missing shininess is zero.
pub open spec fn resolved(src: MaterialSource) -> Material {
    Material {
        name: src.name,
        texture: src.diffuse_texture,
        diffuse: colour_or_black(src.diffuse),
        specular: colour_or_black(src.specular),
        ambient: colour_or_black(src.ambient),
        exponent: match src.shininess {
            Some(e) => e,
            None => 0,
        },
    }
}

/// The names of a sequence of declarations.
pub open spec fn source_names(srcs: Seq<MaterialSource>) -> Seq<Seq<char>> {
    Seq::new(srcs.len(), |i: int| srcs[i].name@)
}

/// The materials that a sequence of declarations yields: one per distinct
/// name, in the order in which the names first occur, each resolved from
/// the last declaration of its name.
pub open spec fn collected(srcs: Seq<MaterialSource>) -> Seq<Material> {
    let names = source_names(srcs);
    Seq::new(
        first_seen(names).len(),
        |i: int| resolved(srcs[last_position(names, first_seen(names)[i])]),
    )
}

fn pick_colour(c: &Option<[u32; 3]>) -> (r: [u32; 3])
    ensures
        r == colour_or_black(*c),
{
    match c {
        Some(c) => *c,
        None => [0u32, 0u32, 0u32],
    }
}

impl Material {
    /// Resolves a declaration to a material.
    pub fn from_source(src: &MaterialSource) -> (m: Material)
        ensures
            m == resolved(*src),
    {
        let texture = match &src.diffuse_texture {
            Some(t) => Some(t.clone()),
            None => None,
        };
        Material {
            name: src.name.clone(),
            texture,
            diffuse: pick_colour(&src.diffuse),
            specular: pick_colour(&src.specular),
            ambient: pick_colour(&src.ambient),
            exponent: match src.shininess {
                Some(e) => e,
                None => 0,
            },
        }
    }
}

/// Finds the material of the given name.
fn find_by_name(materials: &Vec<Material>, name: &String) -> (r: Option<usize>)
    ensures
        match r {
            Some(p) => p < materials@.len() && materials@[p as int].name@ == name@,
            None => forall|j: int| 0 <= j < materials@.len() ==> materials@[j].name@ != name@,
        },
{
    let mut j: usize = 0;
    while j < materials.len()
        invariant
            j <= materials@.len(),
            forall|q: int| 0 <= q < j ==> materials@[q].name@ != name@,
        decreases materials@.len() - j,
    {
        if materials[j].name == *name {
            return Some(j);
        }
        j += 1;
    }
    None
}

/// The name of collected material `j` is the `j`-th distinct name.
proof fn lemma_collected_names(srcs: Seq<MaterialSource>, j: int)
    requires
        0 <= j < first_seen(source_names(srcs)).len(),
    ensures
        collected(srcs).len() == first_seen(source_names(srcs)).len(),
        collected(srcs)[j].name@ == first_seen(source_names(srcs))[j],
        0 <= last_position(source_names(srcs), first_seen(source_names(srcs))[j]) < srcs.len(),
{
    let names = source_names(srcs);
    let k = first_seen(names)[j];
    lemma_first_seen(names);
    assert(first_seen(names).contains(k));
    lemma_last_position(names, k);
}

/// Collects declarations into materials, one per distinct name.
pub fn collect_materials(sources: &Vec<MaterialSource>) -> (out: Vec<Material>)
    ensures
        out@ == collected(sources@),
{
    let mut out: Vec<Material> = Vec::new();
    let mut i: usize = 0;
    proof {
        assert(source_names(sources@.take(0)) =~= Seq::<Seq<char>>::empty());
        assert(out@ =~= collected(sources@.take(0)));
    }
    while i < sources.len()
        invariant
            i <= sources@.len(),
            out@ == collected(sources@.take(i as int)),
        decreases sources@.len() - i,
    {
        let m = Material::from_source(&sources[i]);
        let ghost before = sources@.take(i as int);
        let ghost after = sources@.take(i + 1);
        let ghost names = source_names(before);
        let ghost names2 = source_names(after);
        let ghost n = sources@[i as int].name@;
        let ghost prior = out@;
        proof {
            assert(names2.drop_last() =~= names);
            assert(names2.last() == n);
            lemma_first_seen(names);
            lemma_first_seen(names2);
            assert forall|j: int| 0 <= j < prior.len() implies prior[j].name@ == first_seen(
                names,
            )[j] by {
                lemma_collected_names(before, j);
            }
        }
        let found = find_by_name(&out, &m.name);
        match found {
            Some(p) => {
                out.set(p, m);
                proof {
                    assert(first_seen(names)[p as int] == n);
                    assert(first_seen(names2) == first_seen(names));
                    assert forall|j: int| 0 <= j < out@.len() implies out@[j] == collected(
                        after,
                    )[j] by {
                        lemma_collected_names(before, j);
                        let k = first_seen(names)[j];
                        if j != p {
                            assert(k != n);
                            assert(last_position(names2, k) == last_position(names, k));
                        }
                    }
                    assert(out@ =~= collected(after));
                }
            },
            None => {
                out.push(m);
                proof {
                    if first_seen(names).contains(n) {
                        let j = choose|j: int|
                            0 <= j < first_seen(names).len() && first_seen(names)[j] == n;
                        assert(prior[j].name@ == n);
                    }
                    assert(first_seen(names2) == first_seen(names).push(n));
                    assert forall|j: int| 0 <= j < out@.len() implies out@[j] == collected(
                        after,
                    )[j] by {
                        if j < prior.len() {
                            lemma_collected_names(before, j);
                            let k = first_seen(names)[j];
                            assert(first_seen(names).contains(k));
                            assert(k != n);
                            assert(last_position(names2, k) == last_position(names, k));
                        }
                    }
                    assert(out@ =~= collected(after));
                }
            },
        }
        i += 1;
    }
    proof {
        assert(sources@.take(i as int) =~= sources@);
    }
    out
}

/// The texture names that a sequence of materials refers to, one per
/// material that has a texture, in material order.
pub open spec fn texture_refs(materials: Seq<Material>) -> Seq<Seq<char>>
    decreases materials.len(),
{
    if materials.len() == 0 {
        Seq::empty()
    } else {
        let rest = texture_refs(materials.drop_last());
        match materials.last().texture {
            Some(t) => rest.push(t@),
            None => rest,
        }
    }
}

/// The character sequences of a sequence of strings.
pub open spec fn names_of(strings: Seq<String>) -> Seq<Seq<char>> {
    Seq::new(strings.len(), |i: int| strings[i]@)
}

/// Tells whether `names` holds a string equal to `name`.
fn holds_name(names: &Vec<String>, name: &String) -> (r: bool)
    ensures
        r == names_of(names@).contains(name@),
{
    let mut j: usize = 0;
    while j < names.len()
        invariant
            j <= names@.len(),
            forall|q: int| 0 <= q < j ==> names_of(names@)[q] != name@,
        decreases names@.len() - j,
    {
        if names[j] == *name {
            assert(names_of(names@)[j as int] == name@);
            return true;
        }
        j += 1;
    }
    false
}

/// Lists the textures that a scene's materials need: each texture name
/// once, in the order in which the materials first refer to it.
pub fn textures_to_load(materials: &Vec<Material>) -> (out: Vec<String>)
    ensures
        names_of(out@) == first_seen(texture_refs(materials@)),
{
    let mut out: Vec<String> = Vec::new();
    let mut i: usize = 0;
    proof {
        assert(materials@.take(0) =~= Seq::<Material>::empty());
        assert(names_of(out@) =~= first_seen(texture_refs(materials@.take(0))));
    }
    while i < materials.len()
        invariant
            i <= materials@.len(),
            names_of(out@) == first_seen(texture_refs(materials@.take(i as int))),
        decreases materials@.len() - i,
    {
        let ghost refs = texture_refs(materials@.take(i as int));
        let ghost prior = out@;
        proof {
            assert(materials@.take(i + 1).drop_last() =~= materials@.take(i as int));
        }
        match &materials[i].texture {
            Some(t) => {
                proof {
                    assert(refs.push(t@).drop_last() =~= refs);
                }
                if !holds_name(&out, t) {
                    out.push(t.clone());
                    proof {
                        assert(names_of(out@) =~= names_of(prior).push(t@));
                    }
                }
            },
            None => {},
        }
        i += 1;
    }
    proof {
        assert(materials@.take(i as int) =~= materials@);
    }
    out
}

} // verus!
