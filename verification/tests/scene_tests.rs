use svdag::coord::{coord_is_nan, coord_max, coord_min, coord_rank};
use svdag::material::{collect_materials, textures_to_load, Material, MaterialSource};
use svdag::aabb::AABB;
use svdag::mesh::MeshSource;
use svdag::scene::{classify_failure, load_obj_scene, LoadFailure, Scene, SceneError};

fn bits(values: &[f32]) -> Vec<u32> {
    values.iter().map(|v| v.to_bits()).collect()
}

fn point(p: [u32; 3]) -> [f32; 3] {
    [f32::from_bits(p[0]), f32::from_bits(p[1]), f32::from_bits(p[2])]
}

fn mesh(positions: &[f32], texcoords: &[f32], indices: &[u32], texcoord_indices: &[u32]) -> MeshSource {
    MeshSource {
        positions: bits(positions),
        texcoords: bits(texcoords),
        indices: indices.to_vec(),
        texcoord_indices: texcoord_indices.to_vec(),
        material_id: None,
    }
}

fn declaration(name: &str) -> MaterialSource {
    MaterialSource {
        name: name.to_string(),
        diffuse_texture: None,
        diffuse: None,
        specular: None,
        ambient: None,
        shininess: None,
    }
}

fn assert_consistent(scene: &Scene) {
    assert_eq!(scene.vertices.len(), scene.texture_coords.len());
    assert_eq!(scene.triangles.len(), 3 * scene.triangles_indexed.len());
    for (t, tri) in scene.triangles_indexed.iter().enumerate() {
        assert_eq!(tri.v_idx, tri.tc_idx);
        for j in 0..3 {
            assert_eq!(scene.triangles[3 * t + j], scene.vertices[tri.v_idx[j]]);
        }
    }
}

#[test]
fn single_triangle_without_texture_coordinates() {
    let m = mesh(&[0.0, 0.0, 0.0, 2.0, -1.0, 0.0, 0.5, 3.0, -4.0], &[], &[0, 1, 2], &[]);
    let scene = load_obj_scene(&vec![m], &vec![]).unwrap();
    assert_eq!(scene.vertices.len(), 3);
    assert_eq!(point(scene.vertices[0]), [0.0, 0.0, 0.0]);
    assert_eq!(point(scene.vertices[1]), [2.0, -1.0, 0.0]);
    assert_eq!(point(scene.vertices[2]), [0.5, 3.0, -4.0]);
    assert_eq!(scene.texture_coords, vec![[0u32, 0u32]; 3]);
    assert_eq!(scene.triangles_indexed.len(), 1);
    assert_eq!(scene.triangles_indexed[0].v_idx, [0, 1, 2]);
    assert_eq!(scene.triangles_indexed[0].tc_idx, [0, 1, 2]);
    assert_eq!(scene.triangles_indexed[0].mat_idx, 0);
    assert_eq!(point(scene.aabb.min), [0.0, -1.0, -4.0]);
    assert_eq!(point(scene.aabb.max), [2.0, 3.0, 0.0]);
    assert_eq!(scene.triangles, scene.vertices);
    assert!(scene.materials.is_empty());
}

#[test]
fn quad_shares_the_corners_of_its_common_edge() {
    let m = mesh(
        &[0.0, 0.0, 0.0, 1.0, 0.0, 0.0, 1.0, 1.0, 0.0, 0.0, 1.0, 0.0],
        &[],
        &[0, 1, 2, 0, 2, 3],
        &[],
    );
    let scene = load_obj_scene(&vec![m], &vec![]).unwrap();
    assert_eq!(scene.vertices.len(), 4);
    assert_eq!(scene.texture_coords.len(), 4);
    assert_eq!(scene.triangles_indexed.len(), 2);
    assert_eq!(scene.triangles_indexed[0].v_idx, [0, 1, 2]);
    assert_eq!(scene.triangles_indexed[1].v_idx, [0, 2, 3]);
    assert_eq!(scene.triangles.len(), 6);
    assert_eq!(point(scene.triangles[3]), [0.0, 0.0, 0.0]);
    assert_eq!(point(scene.triangles[4]), [1.0, 1.0, 0.0]);
    assert_eq!(point(scene.triangles[5]), [0.0, 1.0, 0.0]);
    assert_consistent(&scene);
}

#[test]
fn vertex_count_is_the_number_of_distinct_keys() {
    let indices = [0u32, 1, 2, 2, 1, 0, 1, 1, 3];
    let texcoord_indices = [0u32, 0, 1, 1, 0, 1, 0, 1, 0];
    let m = mesh(
        &[0.0, 0.0, 0.0, 1.0, 0.0, 0.0, 1.0, 1.0, 0.0, 0.0, 1.0, 0.0],
        &[0.25, 0.5, 0.75, 1.0],
        &indices,
        &texcoord_indices,
    );
    let mut distinct: Vec<(u32, u32)> = Vec::new();
    for c in 0..indices.len() {
        let key = (indices[c], texcoord_indices[c]);
        if !distinct.contains(&key) {
            distinct.push(key);
        }
    }
    let scene = load_obj_scene(&vec![m], &vec![]).unwrap();
    assert_eq!(distinct.len(), 6);
    assert_eq!(scene.vertices.len(), distinct.len());
    assert_eq!(scene.texture_coords.len(), distinct.len());
    assert_consistent(&scene);
}

#[test]
fn same_position_with_different_texture_coordinates_stays_distinct() {
    let m = mesh(
        &[0.0, 0.0, 0.0, 1.0, 0.0, 0.0, 1.0, 1.0, 0.0],
        &[0.0, 0.0, 1.0, 0.0, 1.0, 1.0, 0.5, 0.5],
        &[0, 1, 2, 0, 1, 2],
        &[0, 1, 2, 3, 1, 2],
    );
    let scene = load_obj_scene(&vec![m], &vec![]).unwrap();
    assert_eq!(scene.vertices.len(), 4);
    assert_eq!(scene.triangles_indexed[0].v_idx, [0, 1, 2]);
    assert_eq!(scene.triangles_indexed[1].v_idx, [3, 1, 2]);
    assert_eq!(scene.vertices[0], scene.vertices[3]);
    assert_eq!(scene.texture_coords[0], [0.0f32.to_bits(), 0.0f32.to_bits()]);
    assert_eq!(scene.texture_coords[1], [1.0f32.to_bits(), 0.0f32.to_bits()]);
    assert_eq!(scene.texture_coords[2], [1.0f32.to_bits(), 1.0f32.to_bits()]);
    assert_eq!(scene.texture_coords[3], [0.5f32.to_bits(), 0.5f32.to_bits()]);
    assert_consistent(&scene);
}

#[test]
fn each_model_has_its_own_vertices() {
    let first = mesh(&[0.0, 0.0, 0.0, 1.0, 0.0, 0.0, 0.0, 1.0, 0.0], &[], &[0, 1, 2], &[]);
    let mut second = mesh(&[5.0, 5.0, 5.0, 6.0, 5.0, 5.0, 5.0, 6.0, 5.0], &[], &[2, 1, 0, 0, 1, 2], &[]);
    second.material_id = Some(7);
    let scene = load_obj_scene(&vec![first, second], &vec![]).unwrap();
    assert_eq!(scene.vertices.len(), 6);
    assert_eq!(scene.triangles_indexed.len(), 3);
    assert_eq!(scene.triangles_indexed[1].v_idx, [3, 4, 5]);
    assert_eq!(scene.triangles_indexed[2].v_idx, [5, 4, 3]);
    assert_eq!(scene.triangles_indexed[0].mat_idx, 0);
    assert_eq!(scene.triangles_indexed[1].mat_idx, 7);
    assert_eq!(point(scene.vertices[3]), [5.0, 6.0, 5.0]);
    assert_eq!(point(scene.aabb.min), [0.0, 0.0, 0.0]);
    assert_eq!(point(scene.aabb.max), [6.0, 6.0, 5.0]);
    assert_consistent(&scene);
}

#[test]
fn empty_input_leaves_the_bounding_box_unset() {
    let scene = load_obj_scene(&vec![], &vec![]).unwrap();
    assert!(scene.vertices.is_empty());
    assert_eq!(point(scene.aabb.min), [f32::INFINITY; 3]);
    assert_eq!(point(scene.aabb.max), [f32::NEG_INFINITY; 3]);
    let no_faces = mesh(&[1.0, 2.0, 3.0], &[], &[], &[]);
    let scene = load_obj_scene(&vec![no_faces], &vec![]).unwrap();
    assert!(scene.vertices.is_empty());
    assert!(scene.triangles_indexed.is_empty());
    assert_eq!(point(scene.aabb.min), [f32::INFINITY; 3]);
    assert_eq!(point(scene.aabb.max), [f32::NEG_INFINITY; 3]);
    assert_eq!(Scene::default().aabb, AABB::default());
    assert_eq!(AABB::default(), AABB::empty());
    let fresh = Scene::new();
    assert_eq!(fresh.aabb.min, AABB::empty().min);
    assert_eq!(fresh.aabb.max, AABB::empty().max);
}

#[test]
fn every_vertex_lies_inside_the_bounding_box() {
    let m = mesh(
        &[-3.5, 2.0, 0.0, 4.0, -7.25, 1.0e10, 0.0, -0.0, -1.0e-20, 1.0, 1.0, 1.0],
        &[],
        &[0, 1, 2, 3, 2, 1],
        &[],
    );
    let scene = load_obj_scene(&vec![m], &vec![]).unwrap();
    let min = point(scene.aabb.min);
    let max = point(scene.aabb.max);
    assert_eq!(min, [-3.5, -7.25, -1.0e-20]);
    assert_eq!(max, [4.0, 2.0, 1.0e10]);
    for v in &scene.vertices {
        let p = point(*v);
        for k in 0..3 {
            assert!(min[k] <= p[k] && p[k] <= max[k]);
        }
    }
}

#[test]
fn bounding_box_ignores_nan() {
    let mut b = AABB::empty();
    b.extend(&[f32::NAN.to_bits(), 1.0f32.to_bits(), (-2.0f32).to_bits()]);
    b.extend(&[3.0f32.to_bits(), f32::NAN.to_bits(), 5.0f32.to_bits()]);
    assert_eq!(point(b.min), [3.0, 1.0, -2.0]);
    assert_eq!(point(b.max), [3.0, 1.0, 5.0]);
}

#[test]
fn malformed_meshes_are_rejected() {
    let positions = [0.0, 0.0, 0.0, 1.0, 0.0, 0.0, 0.0, 1.0, 0.0];
    let good = mesh(&positions, &[], &[0, 1, 2], &[]);
    let corner_missing = mesh(&positions, &[], &[0, 1, 2, 0], &[]);
    let position_out_of_range = mesh(&positions, &[], &[0, 1, 3], &[]);
    let texture_indices_missing = mesh(&positions, &[0.0, 0.0], &[0, 1, 2], &[]);
    let texture_indices_uneven = mesh(&positions, &[0.0, 0.0], &[0, 1, 2], &[0, 0, 0, 0]);
    let texture_out_of_range = mesh(&positions, &[0.0, 0.0], &[0, 1, 2], &[0, 1, 0]);
    let cut_position = mesh(&positions[..8], &[], &[0, 1, 2], &[]);
    for bad in [
        corner_missing,
        position_out_of_range,
        texture_indices_missing,
        texture_indices_uneven,
        texture_out_of_range,
        cut_position,
    ] {
        assert!(!bad.is_well_formed());
        let r = load_obj_scene(&vec![good.clone(), bad.clone()], &vec![]);
        assert_eq!(r.err(), Some(SceneError::Parse));
        let mut scene = Scene::new();
        assert_eq!(scene.ingest_mesh(&good), Ok(()));
        assert_eq!(scene.ingest_mesh(&bad), Err(SceneError::Parse));
        assert_eq!(scene.vertices.len(), 3);
        assert_eq!(scene.triangles_indexed.len(), 1);
        assert_eq!(scene.triangles.len(), 3);
    }
    assert!(good.is_well_formed());
}

#[test]
fn read_failures_are_classified() {
    assert_eq!(classify_failure(LoadFailure::OpenFileFailed), SceneError::Io);
    assert_eq!(classify_failure(LoadFailure::ReadError), SceneError::Io);
    assert_eq!(classify_failure(LoadFailure::FaceParseError), SceneError::Parse);
    assert_eq!(classify_failure(LoadFailure::InvalidPolygon), SceneError::Parse);
    assert_eq!(classify_failure(LoadFailure::GenericFailure), SceneError::Parse);
}

#[test]
fn coordinate_order_agrees_with_numbers() {
    let samples = [
        f32::NEG_INFINITY,
        f32::MIN,
        -89.0,
        -1.0,
        -1.0e-40,
        -0.0,
        0.0,
        1.0e-40,
        f32::MIN_POSITIVE,
        0.1,
        1.0,
        89.0,
        f32::MAX,
        f32::INFINITY,
    ];
    for a in samples {
        assert!(!coord_is_nan(a.to_bits()));
        for b in samples {
            let (ra, rb) = (coord_rank(a.to_bits()), coord_rank(b.to_bits()));
            assert_eq!(a < b, ra < rb);
            assert_eq!(a == b, ra == rb);
            assert_eq!(f32::from_bits(coord_min(a.to_bits(), b.to_bits())), a.min(b));
            assert_eq!(f32::from_bits(coord_max(a.to_bits(), b.to_bits())), a.max(b));
        }
        assert_eq!(coord_min(a.to_bits(), f32::NAN.to_bits()), a.to_bits());
        assert_eq!(coord_min(f32::NAN.to_bits(), a.to_bits()), a.to_bits());
        assert_eq!(coord_max(a.to_bits(), f32::NAN.to_bits()), a.to_bits());
        assert_eq!(coord_max(f32::NAN.to_bits(), a.to_bits()), a.to_bits());
    }
    assert!(coord_is_nan(f32::NAN.to_bits()));
    assert!(coord_is_nan((-f32::NAN).to_bits()));
    assert!(coord_is_nan(0x7f80_0001));
    assert_eq!(coord_rank(1.0f32.to_bits()), 0x3f80_0000);
    assert_eq!(coord_rank((-1.0f32).to_bits()), -0x3f80_0000);
}

#[test]
fn materials_collapse_by_name() {
    let mut red = declaration("red");
    red.diffuse = Some(bits(&[1.0, 0.0, 0.0]).try_into().unwrap());
    red.diffuse_texture = Some("red.png".to_string());
    let mut blue = declaration("blue");
    blue.ambient = Some(bits(&[0.0, 0.0, 1.0]).try_into().unwrap());
    blue.shininess = Some(32.0f32.to_bits());
    let mut red_again = declaration("red");
    red_again.specular = Some(bits(&[0.5, 0.5, 0.5]).try_into().unwrap());
    let out = collect_materials(&vec![red, blue, red_again]);
    assert_eq!(out.len(), 2);
    assert_eq!(out[0].name, "red");
    assert_eq!(out[0].texture, None);
    assert_eq!(out[0].diffuse, [0, 0, 0]);
    assert_eq!(point(out[0].specular), [0.5, 0.5, 0.5]);
    assert_eq!(out[0].exponent, 0);
    assert_eq!(out[1].name, "blue");
    assert_eq!(point(out[1].ambient), [0.0, 0.0, 1.0]);
    assert_eq!(f32::from_bits(out[1].exponent), 32.0);
    assert!(collect_materials(&vec![]).is_empty());
}

#[test]
fn scene_holds_the_collected_materials() {
    let mut wood = declaration("wood");
    wood.diffuse_texture = Some("wood.png".to_string());
    let m = mesh(&[0.0, 0.0, 0.0, 1.0, 0.0, 0.0, 0.0, 1.0, 0.0], &[], &[0, 1, 2], &[]);
    let scene = load_obj_scene(&vec![m], &vec![wood, declaration("steel")]).unwrap();
    assert_eq!(scene.materials.len(), 2);
    assert_eq!(scene.materials[0].name, "wood");
    assert_eq!(scene.materials[0].texture, Some("wood.png".to_string()));
    assert_eq!(scene.materials[1].name, "steel");
}

#[test]
fn each_texture_is_listed_once() {
    let material = |name: &str, texture: Option<&str>| Material {
        name: name.to_string(),
        texture: texture.map(|t| t.to_string()),
        diffuse: [0; 3],
        specular: [0; 3],
        ambient: [0; 3],
        exponent: 0,
    };
    let materials = vec![
        material("a", Some("brick.png")),
        material("b", None),
        material("c", Some("moss.png")),
        material("d", Some("brick.png")),
        material("e", Some("sand.png")),
        material("f", Some("moss.png")),
    ];
    assert_eq!(textures_to_load(&materials), vec!["brick.png", "moss.png", "sand.png"]);
    assert!(textures_to_load(&vec![material("b", None)]).is_empty());
}
