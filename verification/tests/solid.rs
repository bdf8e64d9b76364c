use manifold_rs::error::Error;
use manifold_rs::manifold::Manifold;
use manifold_rs::mesh::Mesh;
use manifold_rs::ops::BooleanOp;
use manifold_rs::surface::is_closed_surface;
use manifold_rs::weld::weld;

fn bits(values: &[f32]) -> Vec<u32> {
    values.iter().map(|v| v.to_bits()).collect()
}

fn floats(values: &[u32]) -> Vec<f32> {
    values.iter().map(|v| f32::from_bits(*v)).collect()
}

fn mesh(vertices: &[f32], indices: &[u32]) -> Mesh {
    match Mesh::new(&bits(vertices), indices) {
        Ok(m) => m,
        Err(e) => panic!("the buffers were refused: {e:?}"),
    }
}

const TETRAHEDRON: [f32; 12] = [0.0, 0.0, 0.0, 1.0, 0.0, 0.0, 0.0, 1.0, 0.0, 0.0, 0.0, 1.0];

const TETRAHEDRON_CORNERS: [u32; 12] = [0, 2, 1, 0, 1, 3, 0, 3, 2, 1, 2, 3];

const BOX: [f32; 24] = [
    0.0, 0.0, 0.0, //
    10.0, 0.0, 0.0, //
    0.0, 10.0, 0.0, //
    10.0, 10.0, 0.0, //
    0.0, 0.0, 10.0, //
    10.0, 0.0, 10.0, //
    0.0, 10.0, 10.0, //
    10.0, 10.0, 10.0,
];

const BOX_CORNERS: [u32; 36] = [
    0, 2, 3, 0, 3, 1, // z = 0
    4, 5, 7, 4, 7, 6, // z = 10
    0, 1, 5, 0, 5, 4, // y = 0
    2, 6, 7, 2, 7, 3, // y = 10
    0, 4, 6, 0, 6, 2, // x = 0
    1, 3, 7, 1, 7, 5, // x = 10
];

/// The box with four vertices of its own for each face, as a mesh with hard
/// edges has them.
fn box_with_hard_edges() -> (Vec<f32>, Vec<u32>) {
    let mut vertices = Vec::new();
    let mut indices = Vec::new();
    for corner in BOX_CORNERS {
        let at = 3 * corner as usize;
        indices.push((vertices.len() / 3) as u32);
        vertices.extend_from_slice(&BOX[at..at + 3]);
    }
    (vertices, indices)
}

#[test]
fn boolean_ops_are_three_different_values() {
    let all = [BooleanOp::Union, BooleanOp::Intersection, BooleanOp::Difference];
    for (i, a) in all.iter().enumerate() {
        for (j, b) in all.iter().enumerate() {
            assert_eq!(a == b, i == j);
        }
    }
    let copy = all[2];
    assert_eq!(copy, BooleanOp::Difference);
}

#[test]
fn mesh_gives_back_its_buffers() {
    let m = mesh(&TETRAHEDRON, &TETRAHEDRON_CORNERS);
    assert_eq!(floats(&m.vertices()), TETRAHEDRON.to_vec());
    assert_eq!(m.indices(), TETRAHEDRON_CORNERS.to_vec());
    assert_eq!(m.vertex_count(), 4);
    assert_eq!(m.triangle_count(), 4);
    let again = m.clone();
    assert_eq!(again.vertices(), m.vertices());
    assert_eq!(again.indices(), m.indices());
}

#[test]
fn mesh_may_be_open_or_empty() {
    let open = mesh(&TETRAHEDRON, &[0, 1, 2]);
    assert_eq!(open.triangle_count(), 1);
    let empty = mesh(&[], &[]);
    assert_eq!(empty.vertex_count(), 0);
    assert_eq!(empty.triangle_count(), 0);
    assert!(empty.vertices().is_empty());
    assert!(empty.indices().is_empty());
    let points_only = mesh(&TETRAHEDRON, &[]);
    assert_eq!(points_only.vertex_count(), 4);
}

#[test]
fn mesh_refuses_a_corner_without_a_vertex() {
    assert_eq!(Mesh::new(&bits(&TETRAHEDRON), &[0, 1, 4]).err(), Some(Error::InvalidGeometry));
    assert_eq!(Mesh::new(&[], &[0, 0, 0]).err(), Some(Error::InvalidGeometry));
    assert_eq!(Mesh::new(&bits(&TETRAHEDRON), &[0, 1, u32::MAX]).err(), Some(Error::InvalidGeometry));
    assert!(Mesh::new(&bits(&TETRAHEDRON), &[0, 1, 3]).is_ok());
}

#[test]
fn mesh_refuses_broken_vertices_and_triangles() {
    assert_eq!(Mesh::new(&bits(&[0.0, 1.0]), &[]).err(), Some(Error::InvalidGeometry));
    assert_eq!(Mesh::new(&bits(&TETRAHEDRON), &[0, 1]).err(), Some(Error::InvalidGeometry));
    assert_eq!(Mesh::new(&bits(&TETRAHEDRON), &[0, 1, 2, 3]).err(), Some(Error::InvalidGeometry));
}

#[test]
fn mesh_refuses_coordinates_that_are_not_finite() {
    for bad in [f32::NAN, f32::INFINITY, f32::NEG_INFINITY] {
        let mut vertices = TETRAHEDRON.to_vec();
        vertices[7] = bad;
        assert_eq!(
            Mesh::new(&bits(&vertices), &TETRAHEDRON_CORNERS).err(),
            Some(Error::InvalidGeometry)
        );
    }
    let mut vertices = TETRAHEDRON.to_vec();
    vertices[7] = f32::MAX;
    assert!(Mesh::new(&bits(&vertices), &TETRAHEDRON_CORNERS).is_ok());
}

#[test]
fn closed_surfaces_are_recognised() {
    assert!(is_closed_surface(&TETRAHEDRON_CORNERS));
    assert!(is_closed_surface(&BOX_CORNERS));
    assert!(is_closed_surface(&[]));
    // two tetrahedra that share nothing
    let mut two: Vec<u32> = TETRAHEDRON_CORNERS.to_vec();
    two.extend(TETRAHEDRON_CORNERS.iter().map(|c| c + 4));
    assert!(is_closed_surface(&two));
    // the same surface with every triangle turned is closed as well
    let turned: Vec<u32> = TETRAHEDRON_CORNERS.chunks(3).flat_map(|t| [t[0], t[2], t[1]]).collect();
    assert!(is_closed_surface(&turned));
}

#[test]
fn open_surfaces_are_refused() {
    assert!(!is_closed_surface(&[0, 1, 2]));
    assert!(!is_closed_surface(&TETRAHEDRON_CORNERS[..9]));
    assert!(!is_closed_surface(&BOX_CORNERS[3..]));
}

#[test]
fn a_turned_triangle_breaks_the_winding() {
    let mut corners = TETRAHEDRON_CORNERS;
    corners.swap(10, 11);
    assert!(!is_closed_surface(&corners));
    let mut corners = BOX_CORNERS;
    corners.swap(0, 1);
    assert!(!is_closed_surface(&corners));
}

#[test]
fn degenerate_and_repeated_triangles_are_refused() {
    assert!(!is_closed_surface(&[0, 0, 1]));
    assert!(!is_closed_surface(&[0, 1, 0]));
    assert!(!is_closed_surface(&[1, 1, 1]));
    // a triangle and its mirror image close up, the same triangle twice does not
    assert!(is_closed_surface(&[0, 1, 2, 0, 2, 1]));
    assert!(!is_closed_surface(&[0, 1, 2, 0, 1, 2]));
    assert!(!is_closed_surface(&[0, 1, 2, 1, 2, 0]));
    // an edge with four triangles
    let mut twice: Vec<u32> = TETRAHEDRON_CORNERS.to_vec();
    twice.extend_from_slice(&TETRAHEDRON_CORNERS);
    assert!(!is_closed_surface(&twice));
}

#[test]
fn corners_that_are_no_whole_triangles_are_refused() {
    assert!(!is_closed_surface(&[0]));
    assert!(!is_closed_surface(&[0, 1]));
    assert!(!is_closed_surface(&[0, 1, 2, 0, 2, 1, 0]));
}

#[test]
fn far_apart_vertex_numbers_do_not_collide() {
    let a = u32::MAX;
    let b = u32::MAX - 1;
    assert!(is_closed_surface(&[0, a, b, 0, b, a]));
    assert!(!is_closed_surface(&[0, a, b, 0, a, b]));
    assert!(!is_closed_surface(&[0, 1, 2, 1, 0, 1 << 16]));
}

#[test]
fn welding_merges_vertices_at_the_same_point() {
    let (vertices, indices) = box_with_hard_edges();
    assert_eq!(vertices.len(), 3 * 36);
    let welded = weld(&mesh(&vertices, &indices));
    assert_eq!(welded.vertex_count(), 8);
    assert_eq!(welded.triangle_count(), 12);
    // every corner is where it was
    let before = vertices;
    let after = floats(&welded.vertices());
    let corners = welded.indices();
    for (k, old) in indices.iter().enumerate() {
        let old = 3 * *old as usize;
        let new = 3 * corners[k] as usize;
        assert_eq!(before[old..old + 3], after[new..new + 3]);
    }
}

#[test]
fn welding_keeps_the_order_of_first_occurrence() {
    let vertices = [
        1.0, 1.0, 1.0, //
        2.0, 2.0, 2.0, //
        1.0, 1.0, 1.0, //
        3.0, 3.0, 3.0, //
        2.0, 2.0, 2.0, //
        1.0, 1.0, 1.0,
    ];
    let welded = weld(&mesh(&vertices, &[0, 1, 2, 3, 4, 5, 5, 4, 3]));
    assert_eq!(floats(&welded.vertices()), vec![1.0, 1.0, 1.0, 2.0, 2.0, 2.0, 3.0, 3.0, 3.0]);
    assert_eq!(welded.indices(), vec![0, 1, 0, 2, 1, 0, 0, 1, 2]);
}

#[test]
fn welding_tells_points_apart_by_every_coordinate() {
    let vertices = [
        1.0, 2.0, 3.0, //
        1.0, 2.0, 4.0, //
        1.0, 5.0, 3.0, //
        6.0, 2.0, 3.0, //
        3.0, 2.0, 1.0, //
        1.0, 2.0, 3.0,
    ];
    let welded = weld(&mesh(&vertices, &[0, 1, 2, 3, 4, 5]));
    assert_eq!(welded.vertex_count(), 5);
    assert_eq!(welded.indices(), vec![0, 1, 2, 3, 4, 0]);
}

#[test]
fn welding_takes_both_zeros_for_one_coordinate() {
    let vertices = [0.0, -0.0, 1.0, -0.0, 0.0, 1.0, 0.0, 0.0, -1.0];
    let welded = weld(&mesh(&vertices, &[0, 1, 2]));
    assert_eq!(welded.vertex_count(), 2);
    assert_eq!(welded.indices(), vec![0, 0, 1]);
    let kept = welded.vertices();
    assert_eq!(kept, bits(&[0.0, 0.0, 1.0, 0.0, 0.0, -1.0]));
    assert!(kept.iter().all(|c| *c != (-0.0f32).to_bits()));
}

#[test]
fn welding_keeps_vertices_that_no_triangle_uses() {
    let welded = weld(&mesh(&TETRAHEDRON, &[]));
    assert_eq!(floats(&welded.vertices()), TETRAHEDRON.to_vec());
    assert!(welded.indices().is_empty());
}

#[test]
fn welding_twice_is_welding_once() {
    let (vertices, indices) = box_with_hard_edges();
    let once = weld(&mesh(&vertices, &indices));
    let twice = weld(&once);
    assert_eq!(once.vertices(), twice.vertices());
    assert_eq!(once.indices(), twice.indices());
}

#[test]
fn a_closed_mesh_becomes_a_manifold() {
    let solid = Manifold::from_mesh(mesh(&BOX, &BOX_CORNERS)).expect("the box is closed");
    assert!(!solid.is_empty());
    let out = solid.to_mesh();
    assert_eq!(out.vertex_count(), 8);
    assert_eq!(out.triangle_count(), 12);
    assert_eq!(floats(&out.vertices()), BOX.to_vec());
    assert_eq!(out.indices(), BOX_CORNERS.to_vec());
}

#[test]
fn hard_edges_are_closed_by_welding() {
    let (vertices, indices) = box_with_hard_edges();
    assert!(!is_closed_surface(&indices));
    let solid = mesh(&vertices, &indices).to_manifold().expect("welding closes the box");
    let out = solid.to_mesh();
    assert_eq!(out.vertex_count(), 8);
    assert_eq!(out.triangle_count(), 12);
    assert!(is_closed_surface(&out.indices()));
}

#[test]
fn an_open_mesh_is_no_manifold() {
    assert_eq!(
        Manifold::from_mesh(mesh(&TETRAHEDRON, &[0, 1, 2])).err(),
        Some(Error::InvalidGeometry)
    );
    assert_eq!(
        mesh(&BOX, &BOX_CORNERS[..33]).to_manifold().err(),
        Some(Error::InvalidGeometry)
    );
}

#[test]
fn a_mesh_with_broken_winding_is_no_manifold() {
    let mut corners = BOX_CORNERS;
    corners.swap(4, 5);
    assert_eq!(Manifold::from_mesh(mesh(&BOX, &corners)).err(), Some(Error::InvalidGeometry));
}

#[test]
fn a_triangle_that_welding_collapses_is_no_manifold() {
    // two of the three corners lie at the same point
    let vertices = [0.0, 0.0, 0.0, 0.0, 0.0, 0.0, 1.0, 0.0, 0.0];
    assert!(is_closed_surface(&[0, 1, 2, 0, 2, 1]));
    assert_eq!(
        Manifold::from_mesh(mesh(&vertices, &[0, 1, 2, 0, 2, 1])).err(),
        Some(Error::InvalidGeometry)
    );
}

#[test]
fn a_surface_wound_inward_is_no_manifold() {
    let inward = [0, 1, 2, 0, 3, 1, 0, 2, 3, 1, 3, 2];
    assert!(is_closed_surface(&inward));
    assert_eq!(
        Manifold::from_mesh(mesh(&TETRAHEDRON, &inward)).err(),
        Some(Error::InvalidGeometry)
    );
    assert_eq!(mesh(&TETRAHEDRON, &inward).to_manifold().err(), Some(Error::InvalidGeometry));
    let turned: Vec<u32> = BOX_CORNERS.chunks(3).flat_map(|t| [t[0], t[2], t[1]]).collect();
    assert!(is_closed_surface(&turned));
    assert_eq!(Manifold::from_mesh(mesh(&BOX, &turned)).err(), Some(Error::InvalidGeometry));
    // the same corners wound outward are taken
    assert!(Manifold::from_mesh(mesh(&TETRAHEDRON, &TETRAHEDRON_CORNERS)).is_ok());
}

#[test]
fn two_faces_on_the_same_vertices_are_no_manifold() {
    let flat = [0.0, 0.0, 0.0, 1.0, 0.0, 0.0, 0.0, 1.0, 0.0];
    assert!(is_closed_surface(&[0, 1, 2, 0, 2, 1]));
    assert_eq!(
        Manifold::from_mesh(mesh(&flat, &[0, 1, 2, 0, 2, 1])).err(),
        Some(Error::InvalidGeometry)
    );
}

#[test]
fn a_cavity_is_taken_while_the_solid_around_it_is_larger() {
    // an inward shell inside an outward one: a hollow solid
    let mut vertices = BOX.to_vec();
    vertices.extend(TETRAHEDRON.iter().map(|c| c + 2.0));
    let mut corners = BOX_CORNERS.to_vec();
    corners.extend([0u32, 1, 2, 0, 3, 1, 0, 2, 3, 1, 3, 2].iter().map(|c| c + 8));
    let hollow = Manifold::from_mesh(mesh(&vertices, &corners)).expect("a box with a cavity");
    assert_eq!(hollow.to_mesh().triangle_count(), 16);
}

#[test]
fn the_empty_mesh_is_the_empty_solid() {
    let nothing = Manifold::from_mesh(mesh(&[], &[])).expect("no triangles form a closed surface");
    assert!(nothing.is_empty());
    assert_eq!(nothing.to_mesh().triangle_count(), 0);
    let dust = Manifold::from_mesh(mesh(&TETRAHEDRON, &[])).expect("vertices alone bound nothing");
    assert!(dust.is_empty());
}

#[test]
fn to_mesh_gives_the_same_buffers_every_time() {
    let solid = Manifold::from_mesh(mesh(&TETRAHEDRON, &TETRAHEDRON_CORNERS)).unwrap();
    let first = solid.to_mesh();
    let second = solid.to_mesh();
    assert_eq!(first.vertices(), second.vertices());
    assert_eq!(first.indices(), second.indices());
    let copy = solid.clone();
    assert_eq!(copy.to_mesh().vertices(), first.vertices());
    assert_eq!(copy.to_mesh().indices(), first.indices());
}

#[test]
fn mesh_round_trip_is_stable() {
    let (vertices, indices) = box_with_hard_edges();
    for start in [
        mesh(&TETRAHEDRON, &TETRAHEDRON_CORNERS),
        mesh(&BOX, &BOX_CORNERS),
        mesh(&vertices, &indices),
        mesh(&[], &[]),
    ] {
        let solid = Manifold::from_mesh(start).unwrap();
        let once = solid.to_mesh();
        let back = Manifold::from_mesh(solid.to_mesh()).unwrap();
        let twice = back.to_mesh();
        assert_eq!(once.vertices(), twice.vertices());
        assert_eq!(once.indices(), twice.indices());
    }
}

#[test]
fn two_shells_form_one_manifold() {
    let mut vertices = TETRAHEDRON.to_vec();
    vertices.extend(TETRAHEDRON.iter().map(|c| c + 5.0));
    let mut corners = TETRAHEDRON_CORNERS.to_vec();
    corners.extend(TETRAHEDRON_CORNERS.iter().map(|c| c + 4));
    let both = Manifold::from_mesh(mesh(&vertices, &corners)).unwrap();
    assert_eq!(both.to_mesh().vertex_count(), 8);
    assert_eq!(both.to_mesh().triangle_count(), 8);
}
