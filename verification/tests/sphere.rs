use hexsphere::geometry::{isqrt, midpoint, normalized, Point3, SCALE};
use hexsphere::mesh::{
    generate_geodesic_sphere, icosahedron_faces, icosahedron_vertices, GeodesicSphere,
    MeshBuilder,
};
use std::collections::HashMap;

fn build(depth: usize) -> GeodesicSphere {
    generate_geodesic_sphere(depth).expect("the icosahedron subdivision must stay a sphere")
}

fn pentagon_count(s: &GeodesicSphere) -> usize {
    s.tiles.iter().filter(|t| t.is_pentagon).count()
}

#[test]
fn depth_zero_is_the_icosahedron() {
    let s = build(0);
    assert_eq!(s.faces.len(), 20);
    assert_eq!(s.vertices.len(), 12);
    assert_eq!(s.tiles.len(), 12);
    assert_eq!(pentagon_count(&s), 12);
    for t in &s.tiles {
        assert!(t.is_pentagon);
        assert_eq!(t.face_indices.len(), 5);
        assert_eq!(t.faces.len(), 5);
        assert_eq!(t.corner_points.len(), 15);
    }
}

#[test]
fn face_and_vertex_counts_follow_euler() {
    // faces = 20 * 4^d, vertices = faces / 2 + 2
    let expected = [
        (0usize, 20usize, 12usize),
        (1, 80, 42),
        (2, 320, 162),
        (3, 1280, 642),
        (4, 5120, 2562),
        (5, 20480, 10242),
    ];
    for (depth, want_faces, want_vertices) in expected {
        let s = build(depth);
        assert_eq!(s.faces.len(), want_faces);
        assert_eq!(s.vertices.len(), want_vertices);
        assert_eq!(s.vertices.len(), s.faces.len() / 2 + 2);
        assert_eq!(s.tiles.len(), s.vertices.len());
    }
}

#[test]
fn exactly_twelve_pentagons_at_every_depth() {
    for depth in 0..4 {
        let s = build(depth);
        assert_eq!(pentagon_count(&s), 12);
        for t in &s.tiles {
            assert_eq!(t.is_pentagon, t.face_indices.len() == 5);
            assert!(t.face_indices.len() == 5 || t.face_indices.len() == 6);
        }
    }
}

#[test]
fn every_vertex_lies_on_the_unit_sphere() {
    let s = build(2);
    let scale = SCALE as f64;
    for v in &s.vertices {
        let (x, y, z) = (v.x as f64 / scale, v.y as f64 / scale, v.z as f64 / scale);
        let mag = (x * x + y * y + z * z).sqrt();
        assert!((mag - 1.0).abs() < 1e-3, "vertex magnitude {mag} is off the unit sphere");
        // the proved fixed-point bound, checked concretely
        let norm_sq = v.x as i128 * v.x as i128 + v.y as i128 * v.y as i128
            + v.z as i128 * v.z as i128;
        let s128 = SCALE as i128;
        assert!(norm_sq > s128 * s128 - 6 * s128 - 3);
        assert!(v.x.abs() <= SCALE && v.y.abs() <= SCALE && v.z.abs() <= SCALE);
    }
}

#[test]
fn faces_index_real_distinct_vertices() {
    let s = build(2);
    for f in &s.faces {
        assert!(f.v1 < s.vertices.len());
        assert!(f.v2 < s.vertices.len());
        assert!(f.v3 < s.vertices.len());
        assert!(f.v1 != f.v2 && f.v2 != f.v3 && f.v1 != f.v3);
    }
}

#[test]
fn tiles_record_exactly_their_incident_faces() {
    let s = build(1);
    for (v, t) in s.tiles.iter().enumerate() {
        assert_eq!(t.center_vertex, v);
        // sound: each recorded face contains the center vertex
        for (k, &fi) in t.face_indices.iter().enumerate() {
            let f = s.faces[fi];
            assert!(f.v1 == v || f.v2 == v || f.v3 == v);
            assert_eq!(t.faces[k], f);
            assert_eq!(t.corner_points[3 * k], s.vertices[f.v1]);
            assert_eq!(t.corner_points[3 * k + 1], s.vertices[f.v2]);
            assert_eq!(t.corner_points[3 * k + 2], s.vertices[f.v3]);
        }
        // complete: every face containing the center vertex is recorded
        for (j, f) in s.faces.iter().enumerate() {
            if f.v1 == v || f.v2 == v || f.v3 == v {
                assert!(t.face_indices.contains(&j));
            }
        }
        // strictly increasing, hence duplicate-free
        for w in t.face_indices.windows(2) {
            assert!(w[0] < w[1]);
        }
    }
}

#[test]
fn get_middle_point_is_order_independent() {
    let mut b1 = MeshBuilder { vertices: icosahedron_vertices(), cache: HashMap::new() };
    let mut b2 = MeshBuilder { vertices: icosahedron_vertices(), cache: HashMap::new() };
    let i1 = b1.get_middle_point(0, 1).unwrap();
    let i2 = b2.get_middle_point(1, 0).unwrap();
    assert_eq!(i1, i2);
    assert_eq!(i1, 12);
    assert_eq!(b1.vertices[i1], b2.vertices[i2]);
}

#[test]
fn get_middle_point_is_idempotent() {
    let mut b = MeshBuilder { vertices: icosahedron_vertices(), cache: HashMap::new() };
    let first = b.get_middle_point(0, 1).unwrap();
    assert_eq!(b.vertices.len(), 13);
    let again = b.get_middle_point(0, 1).unwrap();
    let swapped = b.get_middle_point(1, 0).unwrap();
    assert_eq!(first, again);
    assert_eq!(first, swapped);
    assert_eq!(b.vertices.len(), 13, "no duplicate midpoint vertex may appear");
}

#[test]
fn midpoint_dedup_shares_every_edge() {
    // the icosahedron has 30 edges: one subdivision adds exactly 30 vertices
    let s0 = build(0);
    let s1 = build(1);
    assert_eq!(s1.vertices.len() - s0.vertices.len(), 30);
}

#[test]
fn children_keep_parent_corners_with_outward_winding() {
    let parents = build(0);
    let s = build(1);
    assert_eq!(s.faces.len(), 4 * parents.faces.len());
    for (j, parent) in parents.faces.iter().enumerate() {
        let c0 = s.faces[4 * j];
        let c1 = s.faces[4 * j + 1];
        let c2 = s.faces[4 * j + 2];
        let c3 = s.faces[4 * j + 3];
        // corner children keep the parent corners
        assert_eq!(c0.v1, parent.v1);
        assert_eq!(c1.v1, parent.v2);
        assert_eq!(c2.v1, parent.v3);
        // the middle child joins the three edge midpoints a, b, c
        assert_eq!(c3.v1, c0.v2);
        assert_eq!(c3.v1, c1.v3);
        assert_eq!(c3.v2, c1.v2);
        assert_eq!(c3.v2, c2.v3);
        assert_eq!(c3.v3, c2.v2);
        assert_eq!(c3.v3, c0.v3);
    }
}

#[test]
fn builds_are_deterministic() {
    let s1 = build(2);
    let s2 = build(2);
    assert_eq!(s1.vertices, s2.vertices);
    assert_eq!(s1.faces, s2.faces);
    assert_eq!(s1.tiles.len(), s2.tiles.len());
    for (t1, t2) in s1.tiles.iter().zip(s2.tiles.iter()) {
        assert_eq!(t1.center_vertex, t2.center_vertex);
        assert_eq!(t1.face_indices, t2.face_indices);
        assert_eq!(t1.faces, t2.faces);
        assert_eq!(t1.corner_points, t2.corner_points);
        assert_eq!(t1.is_pentagon, t2.is_pentagon);
    }
}

#[test]
fn faces_are_pairwise_distinct_triples() {
    let s = build(2);
    let mut keys: Vec<(usize, usize, usize)> = s.faces.iter().map(|f| (f.v1, f.v2, f.v3)).collect();
    keys.sort_unstable();
    let before = keys.len();
    keys.dedup();
    assert_eq!(keys.len(), before, "a face triple appears twice");
}

#[test]
fn incidence_records_sum_to_three_per_face() {
    for depth in 0..4 {
        let s = build(depth);
        let total: usize = s.tiles.iter().map(|t| t.faces.len()).sum();
        assert_eq!(total, 3 * s.faces.len());
    }
}

#[test]
fn seed_tables_have_canonical_shape() {
    let verts = icosahedron_vertices();
    let faces = icosahedron_faces();
    assert_eq!(verts.len(), 12);
    assert_eq!(faces.len(), 20);
    let first = faces[0];
    assert_eq!((first.v1, first.v2, first.v3), (0, 11, 5));
    let last = faces[19];
    assert_eq!((last.v1, last.v2, last.v3), (9, 8, 1));
}

#[test]
fn isqrt_exact_values() {
    assert_eq!(isqrt(0), 0);
    assert_eq!(isqrt(1), 1);
    assert_eq!(isqrt(3), 1);
    assert_eq!(isqrt(4), 2);
    assert_eq!(isqrt(999_999), 999);
    assert_eq!(isqrt(1_000_000), 1000);
    assert_eq!(isqrt(1_000_000_000_000), 1_000_000);
    assert_eq!(isqrt(u64::MAX), (1u64 << 32) - 1);
}

#[test]
fn normalized_rescales_onto_the_sphere() {
    let p = Point3 { x: 2 * SCALE, y: 0, z: 0 };
    let q = normalized(&p).unwrap();
    assert_eq!(q, Point3 { x: SCALE, y: 0, z: 0 });
    let origin = Point3 { x: 0, y: 0, z: 0 };
    assert!(normalized(&origin).is_none());
}

#[test]
fn midpoint_is_symmetric() {
    let a = Point3 { x: 10, y: -21, z: 3 };
    let b = Point3 { x: -5, y: 8, z: 14 };
    assert_eq!(midpoint(&a, &b), midpoint(&b, &a));
    assert_eq!(midpoint(&a, &b), Point3 { x: 2, y: -6, z: 8 });
}
