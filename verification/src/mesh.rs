//! Geodesic sphere construction: icosahedron subdivision with midpoint
//! deduplication, vertex/face adjacency, and dual-tile derivation.

use crate::geometry::{
    midpoint, near_unit, normalized, spec_midpoint, spec_normalized, Point3, COORD_LIMIT, SCALE,
};
use std::collections::HashMap;
use vstd::prelude::*;

verus! {

/// One triangle of the mesh, as three indices into the vertex list.
#[derive(Clone, Copy, Debug, PartialEq, Eq, Structural)]
pub struct Face {
    pub v1: usize,
    pub v2: usize,
    pub v3: usize,
}

impl Face {
    /// All three indices point into a vertex list of length `n`.
    pub open spec fn valid(self, n: int) -> bool {
        &&& self.v1 < n
        &&& self.v2 < n
        &&& self.v3 < n
    }

    /// The three indices are pairwise distinct.
    pub open spec fn distinct(self) -> bool {
        &&& self.v1 != self.v2
        &&& self.v2 != self.v3
        &&& self.v1 != self.v3
    }

    /// Vertex `v` is one of the three corners.
    pub open spec fn contains_vertex(self, v: int) -> bool {
        self.v1 == v || self.v2 == v || self.v3 == v
    }
}

/// An unrecoverable defect found while building a mesh: the seed topology
/// or the subdivision step did not produce a closed triangulated sphere.
#[derive(Clone, Copy, Debug, PartialEq, Eq, Structural)]
pub enum MeshError {
    /// Two vertices of a requested midpoint coincide or cancel, so the
    /// midpoint has no direction to normalize.
    DegenerateMidpoint,
    /// A face names the same vertex twice.
    DegenerateFace,
    /// A vertex has an incident-face count other than five or six, or the
    /// pentagon count is not exactly twelve.
    BadVertexDegree,
    /// The incident-face records do not add up to three per face.
    BrokenAdjacency,
    /// The same triangle stands twice in the face list.
    DuplicateFace,
}

/// The key under which the midpoint of vertices `a` and `b` is cached:
/// the smaller index in the upper 32 bits, the larger in the lower 32,
/// so both orders of one unordered pair share one key.
pub open spec fn edge_key_of(a: int, b: int) -> u64 {
    (if a <= b {
        a * 0x1_0000_0000 + b
    } else {
        b * 0x1_0000_0000 + a
    }) as u64
}

/// Growing vertex list together with the midpoint cache that guarantees
/// each unordered pair of vertices gets at most one midpoint vertex.
pub struct MeshBuilder {
    pub vertices: Vec<Point3>,
    pub cache: HashMap<u64, usize>,
}

impl MeshBuilder {
    /// Every cached index points into the vertex list, every vertex lies
    /// within rounding of the unit sphere, and indices still fit the
    /// edge-key packing.
    pub open spec fn wf(self) -> bool {
        &&& self.vertices@.len() < 0x1_0000_0000
        &&& forall|i: int|
            0 <= i < self.vertices@.len() ==> near_unit(#[trigger] self.vertices@[i])
        &&& forall|k: u64|
            #[trigger] self.cache@.contains_key(k) ==> self.cache@[k] < self.vertices@.len()
    }

    /// A fresh builder with no vertices and an empty cache.
    pub fn new() -> (r: MeshBuilder)
        ensures
            r.wf(),
            r.vertices@ =~= Seq::<Point3>::empty(),
            r.cache@ =~= Map::<u64, usize>::empty(),
    {
        MeshBuilder { vertices: Vec::new(), cache: HashMap::new() }
    }
}

/// What one midpoint request does to the vertex list and the cache, and
/// what it returns: a cached index is reused; otherwise the normalized
/// midpoint is appended and cached, unless it has no direction.
pub open spec fn middle_point_spec(
    verts: Seq<Point3>,
    cache: Map<u64, usize>,
    p1: int,
    p2: int,
) -> (Seq<Point3>, Map<u64, usize>, Result<usize, MeshError>)
    recommends
        0 <= p1 < verts.len(),
        0 <= p2 < verts.len(),
{
    let k = edge_key_of(p1, p2);
    if cache.contains_key(k) {
        (verts, cache, Ok(cache[k]))
    } else {
        let m = spec_midpoint(verts[p1], verts[p2]);
        if m.norm_sq() == 0 {
            (verts, cache, Err(MeshError::DegenerateMidpoint))
        } else {
            (
                verts.push(spec_normalized(m)),
                cache.insert(k, verts.len() as usize),
                Ok(verts.len() as usize),
            )
        }
    }
}

/// The midpoint request does not depend on the order of the two vertices.
pub proof fn lemma_middle_point_order_independent(
    verts: Seq<Point3>,
    cache: Map<u64, usize>,
    p1: int,
    p2: int,
)
    ensures
        middle_point_spec(verts, cache, p1, p2) == middle_point_spec(verts, cache, p2, p1),
{
    assert(edge_key_of(p1, p2) == edge_key_of(p2, p1));
    assert(spec_midpoint(verts[p1], verts[p2]) == spec_midpoint(verts[p2], verts[p1]));
}

/// A repeated request for the same pair returns the same answer and leaves
/// the builder unchanged: no duplicate midpoint vertex is ever created.
pub proof fn lemma_middle_point_idempotent(
    verts: Seq<Point3>,
    cache: Map<u64, usize>,
    p1: int,
    p2: int,
)
    ensures
        ({
            let (v1, c1, r1) = middle_point_spec(verts, cache, p1, p2);
            middle_point_spec(v1, c1, p1, p2) == (v1, c1, r1)
        }),
{
    let k = edge_key_of(p1, p2);
    if !cache.contains_key(k) {
        let m = spec_midpoint(verts[p1], verts[p2]);
        if m.norm_sq() != 0 {
            let c1 = cache.insert(k, verts.len() as usize);
            assert(c1.contains_key(k));
            assert(c1[k] == verts.len() as usize);
        }
    }
}

impl MeshBuilder {
    /// Index of the midpoint vertex of `p1` and `p2`. A pair that was seen
    /// before (in either order) reuses its cached vertex; a new pair gets
    /// the normalized midpoint appended. Fails only when the midpoint of
    /// the two positions is the origin, which a sphere mesh never asks for.
    pub fn get_middle_point(&mut self, p1: usize, p2: usize) -> (r: Result<usize, MeshError>)
        requires
            old(self).wf(),
            p1 < old(self).vertices@.len(),
            p2 < old(self).vertices@.len(),
            old(self).vertices@.len() < 0xffff_ffff,
        ensures
            final(self).wf(),
            ({
                let (sv, sc, sr) = middle_point_spec(
                    old(self).vertices@,
                    old(self).cache@,
                    p1 as int,
                    p2 as int,
                );
                &&& final(self).vertices@ == sv
                &&& final(self).cache@ == sc
                &&& r == sr
            }),
            old(self).vertices@.len() <= final(self).vertices@.len() <= old(self).vertices@.len()
                + 1,
            forall|i: int|
                0 <= i < old(self).vertices@.len() ==> final(self).vertices@[i] == old(
                    self,
                ).vertices@[i],
            match r {
                Ok(idx) => idx < final(self).vertices@.len(),
                Err(_) => final(self).vertices@ == old(self).vertices@ && final(self).cache@ == old(
                    self,
                ).cache@,
            },
    {
        let key = edge_key(p1, p2);
        let cached = self.cache.get(&key);
        match cached {
            Some(idx_ref) => {
                let idx: usize = *idx_ref;
                Ok(idx)
            },
            None => {
                let m = midpoint(&self.vertices[p1], &self.vertices[p2]);
                let normal = normalized(&m);
                match normal {
                    None => Err(MeshError::DegenerateMidpoint),
                    Some(q) => {
                        let idx = self.vertices.len();
                        self.vertices.push(q);
                        self.cache.insert(key, idx);
                        Ok(idx)
                    },
                }
            },
        }
    }
}

/// No two corners of face `f` cancel: each of its three edges has a
/// midpoint with a direction, so its subdivision cannot fail.
pub open spec fn face_midpoints_nonzero(f: Face, verts: Seq<Point3>) -> bool {
    &&& spec_midpoint(verts[f.v1 as int], verts[f.v2 as int]).norm_sq() != 0
    &&& spec_midpoint(verts[f.v2 as int], verts[f.v3 as int]).norm_sq() != 0
    &&& spec_midpoint(verts[f.v3 as int], verts[f.v1 as int]).norm_sq() != 0
}

/// What subdividing the faces from position `j` on does to a builder
/// state, and the children it yields, four per parent face in order: each
/// parent's three edge midpoints are requested through the cache, then its
/// four children are emitted. The first failed midpoint stops the walk.
pub open spec fn subdivide_spec(
    verts: Seq<Point3>,
    cache: Map<u64, usize>,
    faces: Seq<Face>,
    j: int,
) -> (Seq<Point3>, Map<u64, usize>, Result<Seq<Face>, MeshError>)
    decreases faces.len() - j,
{
    if j < 0 || j >= faces.len() {
        (verts, cache, Ok(Seq::empty()))
    } else {
        let f = faces[j];
        let (va, ca, ra) = middle_point_spec(verts, cache, f.v1 as int, f.v2 as int);
        match ra {
            Err(e) => (va, ca, Err(e)),
            Ok(a) => {
                let (vb, cb, rb) = middle_point_spec(va, ca, f.v2 as int, f.v3 as int);
                match rb {
                    Err(e) => (vb, cb, Err(e)),
                    Ok(b) => {
                        let (vc, cc, rc) = middle_point_spec(vb, cb, f.v3 as int, f.v1 as int);
                        match rc {
                            Err(e) => (vc, cc, Err(e)),
                            Ok(c) => {
                                let four = seq![
                                    Face { v1: f.v1, v2: a, v3: c },
                                    Face { v1: f.v2, v2: b, v3: a },
                                    Face { v1: f.v3, v2: c, v3: b },
                                    Face { v1: a, v2: b, v3: c },
                                ];
                                let (vr, cr, rest) = subdivide_spec(vc, cc, faces, j + 1);
                                match rest {
                                    Err(e) => (vr, cr, Err(e)),
                                    Ok(tail) => (vr, cr, Ok(four + tail)),
                                }
                            },
                        }
                    },
                }
            },
        }
    }
}

/// The four children of one parent triangle: each corner triangle keeps
/// one parent corner with outward winding, and the middle triangle joins
/// the three edge midpoints `a` of (v1,v2), `b` of (v2,v3), `c` of (v3,v1):
/// children (v1,a,c), (v2,b,a), (v3,c,b), (a,b,c).
pub open spec fn subdivision_pattern(parent: Face, c0: Face, c1: Face, c2: Face, c3: Face) -> bool {
    &&& c0.v1 == parent.v1
    &&& c1.v1 == parent.v2
    &&& c2.v1 == parent.v3
    &&& c3.v1 == c0.v2 && c3.v1 == c1.v3  // a
    &&& c3.v2 == c1.v2 && c3.v2 == c2.v3  // b
    &&& c3.v3 == c2.v2 && c3.v3 == c0.v3  // c
}

impl MeshBuilder {
    /// Replace every face by its four children, appending the deduplicated
    /// edge-midpoint vertices to the builder.
    #[verifier::rlimit(40)]
    pub fn subdivide_faces(&mut self, faces: &Vec<Face>) -> (r: Result<Vec<Face>, MeshError>)
        requires
            old(self).wf(),
            forall|j: int|
                0 <= j < faces@.len() ==> (#[trigger] faces@[j]).valid(
                    old(self).vertices@.len() as int,
                ),
            old(self).vertices@.len() + 3 * faces@.len() < 0xffff_ffff,
        ensures
            final(self).wf(),
            old(self).vertices@.len() <= final(self).vertices@.len() <= old(
                self,
            ).vertices@.len() + 3 * faces@.len(),
            forall|i: int|
                0 <= i < old(self).vertices@.len() ==> final(self).vertices@[i] == old(
                    self,
                ).vertices@[i],
            match r {
                Ok(children) => {
                    &&& children@.len() == 4 * faces@.len()
                    &&& forall|j: int|
                        0 <= j < children@.len() ==> (#[trigger] children@[j]).valid(
                            final(self).vertices@.len() as int,
                        )
                    &&& forall|j: int|
                        0 <= j < faces@.len() ==> subdivision_pattern(
                            #[trigger] faces@[j],
                            children@[4 * j],
                            children@[4 * j + 1],
                            children@[4 * j + 2],
                            children@[4 * j + 3],
                        )
                },
                Err(e) => e == MeshError::DegenerateMidpoint,
            },
            (forall|j: int|
                0 <= j < faces@.len() ==> face_midpoints_nonzero(
                    #[trigger] faces@[j],
                    old(self).vertices@,
                )) ==> r is Ok,
            ({
                let (sv, sc, sr) = subdivide_spec(
                    old(self).vertices@,
                    old(self).cache@,
                    faces@,
                    0,
                );
                &&& final(self).vertices@ == sv
                &&& final(self).cache@ == sc
                &&& match (r, sr) {
                    (Ok(ch), Ok(sch)) => ch@ == sch,
                    (Err(e), Err(se)) => e == se,
                    _ => false,
                }
            }),
    {
        let ghost orig = *old(self);
        let mut children: Vec<Face> = Vec::new();
        proof {
            let (sv, sc, sr) = subdivide_spec(orig.vertices@, orig.cache@, faces@, 0);
            if sr is Ok {
                assert(children@ + sr->Ok_0 =~= sr->Ok_0);
            }
        }
        let mut j: usize = 0;
        while j < faces.len()
            invariant
                j <= faces@.len(),
                orig == *old(self),
                self.wf(),
                orig.wf(),
                orig.vertices@.len() <= self.vertices@.len(),
                self.vertices@.len() <= orig.vertices@.len() + 3 * j,
                orig.vertices@.len() + 3 * faces@.len() < 0xffff_ffff,
                forall|i: int|
                    0 <= i < orig.vertices@.len() ==> self.vertices@[i] == orig.vertices@[i],
                forall|jj: int|
                    0 <= jj < faces@.len() ==> (#[trigger] faces@[jj]).valid(
                        orig.vertices@.len() as int,
                    ),
                children@.len() == 4 * j,
                forall|jj: int|
                    0 <= jj < children@.len() ==> (#[trigger] children@[jj]).valid(
                        self.vertices@.len() as int,
                    ),
                forall|jj: int|
                    0 <= jj < j ==> subdivision_pattern(
                        #[trigger] faces@[jj],
                        children@[4 * jj],
                        children@[4 * jj + 1],
                        children@[4 * jj + 2],
                        children@[4 * jj + 3],
                    ),
                ({
                    let (sv, sc, sr) = subdivide_spec(orig.vertices@, orig.cache@, faces@, 0);
                    let (cv, cc, cr) = subdivide_spec(
                        self.vertices@,
                        self.cache@,
                        faces@,
                        j as int,
                    );
                    &&& sv == cv
                    &&& sc == cc
                    &&& match (sr, cr) {
                        (Ok(st), Ok(ct)) => st == children@ + ct,
                        (Err(e1), Err(e2)) => e1 == e2,
                        _ => false,
                    }
                }),
            decreases faces@.len() - j,
        {
            let ghost pre_verts = self.vertices@;
            let ghost pre_cache = self.cache@;
            let f = faces[j];
            let a = match self.get_middle_point(f.v1, f.v2) {
                Ok(i) => i,
                Err(e) => {
                    proof {
                        assert(self.vertices@[f.v1 as int] == orig.vertices@[f.v1 as int]);
                        assert(self.vertices@[f.v2 as int] == orig.vertices@[f.v2 as int]);
                        assert(!face_midpoints_nonzero(faces@[j as int], orig.vertices@));
                        assert(subdivide_spec(pre_verts, pre_cache, faces@, j as int) == (
                            self.vertices@,
                            self.cache@,
                            Result::<Seq<Face>, MeshError>::Err(e),
                        ));
                    }
                    return Err(e);
                },
            };
            let ghost a_verts = self.vertices@;
            let ghost a_cache = self.cache@;
            let b = match self.get_middle_point(f.v2, f.v3) {
                Ok(i) => i,
                Err(e) => {
                    proof {
                        assert(self.vertices@[f.v2 as int] == orig.vertices@[f.v2 as int]);
                        assert(self.vertices@[f.v3 as int] == orig.vertices@[f.v3 as int]);
                        assert(!face_midpoints_nonzero(faces@[j as int], orig.vertices@));
                        assert(subdivide_spec(pre_verts, pre_cache, faces@, j as int) == (
                            self.vertices@,
                            self.cache@,
                            Result::<Seq<Face>, MeshError>::Err(e),
                        ));
                    }
                    return Err(e);
                },
            };
            let ghost b_verts = self.vertices@;
            let ghost b_cache = self.cache@;
            let c = match self.get_middle_point(f.v3, f.v1) {
                Ok(i) => i,
                Err(e) => {
                    proof {
                        assert(self.vertices@[f.v3 as int] == orig.vertices@[f.v3 as int]);
                        assert(self.vertices@[f.v1 as int] == orig.vertices@[f.v1 as int]);
                        assert(!face_midpoints_nonzero(faces@[j as int], orig.vertices@));
                        assert(middle_point_spec(pre_verts, pre_cache, f.v1 as int, f.v2 as int)
                            == (a_verts, a_cache, Result::<usize, MeshError>::Ok(a)));
                        assert(subdivide_spec(pre_verts, pre_cache, faces@, j as int) == (
                            self.vertices@,
                            self.cache@,
                            Result::<Seq<Face>, MeshError>::Err(e),
                        ));
                    }
                    return Err(e);
                },
            };
            let ghost children_pre = children@;
            children.push(Face { v1: f.v1, v2: a, v3: c });
            children.push(Face { v1: f.v2, v2: b, v3: a });
            children.push(Face { v1: f.v3, v2: c, v3: b });
            children.push(Face { v1: a, v2: b, v3: c });
            proof {
                let four = seq![
                    Face { v1: f.v1, v2: a, v3: c },
                    Face { v1: f.v2, v2: b, v3: a },
                    Face { v1: f.v3, v2: c, v3: b },
                    Face { v1: a, v2: b, v3: c },
                ];
                assert(children@ =~= children_pre + four);
                assert(middle_point_spec(pre_verts, pre_cache, f.v1 as int, f.v2 as int) == (
                    a_verts,
                    a_cache,
                    Result::<usize, MeshError>::Ok(a),
                ));
                assert(middle_point_spec(a_verts, a_cache, f.v2 as int, f.v3 as int) == (
                    b_verts,
                    b_cache,
                    Result::<usize, MeshError>::Ok(b),
                ));
                assert(middle_point_spec(b_verts, b_cache, f.v3 as int, f.v1 as int) == (
                    self.vertices@,
                    self.cache@,
                    Result::<usize, MeshError>::Ok(c),
                ));
                let (nv, nc, nr) = subdivide_spec(self.vertices@, self.cache@, faces@, j + 1);
                assert(subdivide_spec(pre_verts, pre_cache, faces@, j as int) == (
                    nv,
                    nc,
                    match nr {
                        Ok(tail) => Result::<Seq<Face>, MeshError>::Ok(four + tail),
                        Err(e) => Result::<Seq<Face>, MeshError>::Err(e),
                    },
                ));
                if nr is Ok {
                    assert((children_pre + four) + nr->Ok_0 =~= children_pre + (four + nr->Ok_0));
                }
            }
            j = j + 1;
        }
        proof {
            assert(subdivide_spec(self.vertices@, self.cache@, faces@, j as int) == (
                self.vertices@,
                self.cache@,
                Result::<Seq<Face>, MeshError>::Ok(Seq::<Face>::empty()),
            ));
            let (sv, sc, sr) = subdivide_spec(orig.vertices@, orig.cache@, faces@, 0);
            if sr is Ok {
                assert(children@ + Seq::<Face>::empty() =~= children@);
            }
        }
        Ok(children)
    }
}

/// Fixed-point golden ratio, the icosahedron's defining proportion.
pub const GOLDEN: i64 = 1_618_034;

/// Raw (unnormalized) coordinates of seed vertex `i`: the corners of three
/// mutually orthogonal golden-ratio rectangles.
pub open spec fn seed_vertex_raw(i: int) -> Point3 {
    let ns = (-SCALE) as i64;
    let ng = (-GOLDEN) as i64;
    if i == 0 {
        Point3 { x: ns, y: GOLDEN, z: 0 }
    } else if i == 1 {
        Point3 { x: SCALE, y: GOLDEN, z: 0 }
    } else if i == 2 {
        Point3 { x: ns, y: ng, z: 0 }
    } else if i == 3 {
        Point3 { x: SCALE, y: ng, z: 0 }
    } else if i == 4 {
        Point3 { x: 0, y: ns, z: GOLDEN }
    } else if i == 5 {
        Point3 { x: 0, y: SCALE, z: GOLDEN }
    } else if i == 6 {
        Point3 { x: 0, y: ns, z: ng }
    } else if i == 7 {
        Point3 { x: 0, y: SCALE, z: ng }
    } else if i == 8 {
        Point3 { x: GOLDEN, y: 0, z: ns }
    } else if i == 9 {
        Point3 { x: GOLDEN, y: 0, z: SCALE }
    } else if i == 10 {
        Point3 { x: ng, y: 0, z: ns }
    } else {
        Point3 { x: ng, y: 0, z: SCALE }
    }
}

/// The canonical icosahedron face table: triangle `j` of the twenty, with
/// outward winding over the twelve seed vertices.
pub open spec fn seed_face(j: int) -> Face {
    if j == 0 {
        Face { v1: 0, v2: 11, v3: 5 }
    } else if j == 1 {
        Face { v1: 0, v2: 5, v3: 1 }
    } else if j == 2 {
        Face { v1: 0, v2: 1, v3: 7 }
    } else if j == 3 {
        Face { v1: 0, v2: 7, v3: 10 }
    } else if j == 4 {
        Face { v1: 0, v2: 10, v3: 11 }
    } else if j == 5 {
        Face { v1: 1, v2: 5, v3: 9 }
    } else if j == 6 {
        Face { v1: 5, v2: 11, v3: 4 }
    } else if j == 7 {
        Face { v1: 11, v2: 10, v3: 2 }
    } else if j == 8 {
        Face { v1: 10, v2: 7, v3: 6 }
    } else if j == 9 {
        Face { v1: 7, v2: 1, v3: 8 }
    } else if j == 10 {
        Face { v1: 3, v2: 9, v3: 4 }
    } else if j == 11 {
        Face { v1: 3, v2: 4, v3: 2 }
    } else if j == 12 {
        Face { v1: 3, v2: 2, v3: 6 }
    } else if j == 13 {
        Face { v1: 3, v2: 6, v3: 8 }
    } else if j == 14 {
        Face { v1: 3, v2: 8, v3: 9 }
    } else if j == 15 {
        Face { v1: 4, v2: 9, v3: 5 }
    } else if j == 16 {
        Face { v1: 2, v2: 4, v3: 11 }
    } else if j == 17 {
        Face { v1: 6, v2: 2, v3: 10 }
    } else if j == 18 {
        Face { v1: 8, v2: 6, v3: 7 }
    } else {
        Face { v1: 9, v2: 8, v3: 1 }
    }
}

/// Raw seed vertex `i` as a value.
fn seed_vertex_raw_at(i: usize) -> (p: Point3)
    requires
        i < 12,
    ensures
        p == seed_vertex_raw(i as int),
        p.in_bounds(COORD_LIMIT as int),
        p.norm_sq() > 0,
{
    let s: i64 = SCALE;
    let g: i64 = GOLDEN;
    let ns: i64 = -s;
    let ng: i64 = -g;
    if i == 0 {
        Point3 { x: ns, y: g, z: 0 }
    } else if i == 1 {
        Point3 { x: s, y: g, z: 0 }
    } else if i == 2 {
        Point3 { x: ns, y: ng, z: 0 }
    } else if i == 3 {
        Point3 { x: s, y: ng, z: 0 }
    } else if i == 4 {
        Point3 { x: 0, y: ns, z: g }
    } else if i == 5 {
        Point3 { x: 0, y: s, z: g }
    } else if i == 6 {
        Point3 { x: 0, y: ns, z: ng }
    } else if i == 7 {
        Point3 { x: 0, y: s, z: ng }
    } else if i == 8 {
        Point3 { x: g, y: 0, z: ns }
    } else if i == 9 {
        Point3 { x: g, y: 0, z: s }
    } else if i == 10 {
        Point3 { x: ng, y: 0, z: ns }
    } else {
        Point3 { x: ng, y: 0, z: s }
    }
}

/// Seed face `j` as a value.
fn seed_face_at(j: usize) -> (f: Face)
    requires
        j < 20,
    ensures
        f == seed_face(j as int),
        f.valid(12),
        f.distinct(),
{
    if j == 0 {
        Face { v1: 0, v2: 11, v3: 5 }
    } else if j == 1 {
        Face { v1: 0, v2: 5, v3: 1 }
    } else if j == 2 {
        Face { v1: 0, v2: 1, v3: 7 }
    } else if j == 3 {
        Face { v1: 0, v2: 7, v3: 10 }
    } else if j == 4 {
        Face { v1: 0, v2: 10, v3: 11 }
    } else if j == 5 {
        Face { v1: 1, v2: 5, v3: 9 }
    } else if j == 6 {
        Face { v1: 5, v2: 11, v3: 4 }
    } else if j == 7 {
        Face { v1: 11, v2: 10, v3: 2 }
    } else if j == 8 {
        Face { v1: 10, v2: 7, v3: 6 }
    } else if j == 9 {
        Face { v1: 7, v2: 1, v3: 8 }
    } else if j == 10 {
        Face { v1: 3, v2: 9, v3: 4 }
    } else if j == 11 {
        Face { v1: 3, v2: 4, v3: 2 }
    } else if j == 12 {
        Face { v1: 3, v2: 2, v3: 6 }
    } else if j == 13 {
        Face { v1: 3, v2: 6, v3: 8 }
    } else if j == 14 {
        Face { v1: 3, v2: 8, v3: 9 }
    } else if j == 15 {
        Face { v1: 4, v2: 9, v3: 5 }
    } else if j == 16 {
        Face { v1: 2, v2: 4, v3: 11 }
    } else if j == 17 {
        Face { v1: 6, v2: 2, v3: 10 }
    } else if j == 18 {
        Face { v1: 8, v2: 6, v3: 7 }
    } else {
        Face { v1: 9, v2: 8, v3: 1 }
    }
}

/// Normalize a point known not to be the origin.
fn unit_vertex(p: Point3) -> (q: Point3)
    requires
        p.in_bounds(COORD_LIMIT as int),
        p.norm_sq() > 0,
    ensures
        q == spec_normalized(p),
        near_unit(q),
{
    match normalized(&p) {
        Some(q) => q,
        None => {
            proof {
                assert(false);
            }
            Point3 { x: 0, y: 0, z: 0 }
        },
    }
}

/// The twelve canonical icosahedron vertices, normalized onto the sphere.
pub fn icosahedron_vertices() -> (r: Vec<Point3>)
    ensures
        r@.len() == 12,
        forall|i: int| 0 <= i < 12 ==> #[trigger] r@[i] == spec_normalized(seed_vertex_raw(i)),
        forall|i: int| 0 <= i < 12 ==> near_unit(#[trigger] r@[i]),
{
    let mut v: Vec<Point3> = Vec::new();
    let mut i: usize = 0;
    while i < 12
        invariant
            i <= 12,
            v@.len() == i,
            forall|k: int| 0 <= k < i ==> #[trigger] v@[k] == spec_normalized(seed_vertex_raw(k)),
            forall|k: int| 0 <= k < i ==> near_unit(#[trigger] v@[k]),
        decreases 12 - i,
    {
        let raw = seed_vertex_raw_at(i);
        v.push(unit_vertex(raw));
        i = i + 1;
    }
    v
}

/// The twenty canonical icosahedron faces.
pub fn icosahedron_faces() -> (r: Vec<Face>)
    ensures
        r@.len() == 20,
        forall|j: int| 0 <= j < 20 ==> #[trigger] r@[j] == seed_face(j),
        forall|j: int| 0 <= j < 20 ==> (#[trigger] r@[j]).valid(12) && r@[j].distinct(),
{
    let mut v: Vec<Face> = Vec::new();
    let mut j: usize = 0;
    while j < 20
        invariant
            j <= 20,
            v@.len() == j,
            forall|k: int| 0 <= k < j ==> #[trigger] v@[k] == seed_face(k),
            forall|k: int| 0 <= k < j ==> (#[trigger] v@[k]).valid(12) && v@[k].distinct(),
        decreases 20 - j,
    {
        v.push(seed_face_at(j));
        j = j + 1;
    }
    v
}

/// The twelve seed vertices, as a sequence.
pub open spec fn seed_vertices_spec() -> Seq<Point3> {
    Seq::new(12, |i: int| spec_normalized(seed_vertex_raw(i)))
}

/// The twenty seed faces, as a sequence.
pub open spec fn seed_faces_spec() -> Seq<Face> {
    Seq::new(20, |j: int| seed_face(j))
}

/// The whole build pipeline as a mathematical function of the depth: the
/// normalized icosahedron seed, then `d` levels of `subdivide_spec`. The
/// geometry of a build is determined by the depth alone.
pub open spec fn build_levels_spec(d: int) -> (Seq<Point3>, Map<u64, usize>, Result<
    Seq<Face>,
    MeshError,
>)
    decreases d,
{
    if d <= 0 {
        (seed_vertices_spec(), Map::empty(), Ok(seed_faces_spec()))
    } else {
        let (v, c, rf) = build_levels_spec(d - 1);
        match rf {
            Err(e) => (v, c, Err(e)),
            Ok(fs) => subdivide_spec(v, c, fs, 0),
        }
    }
}

/// `4^k`: the face-count growth of one subdivision level.
pub open spec fn pow4(k: nat) -> nat
    decreases k,
{
    if k == 0 {
        1nat
    } else {
        4 * pow4((k - 1) as nat)
    }
}

/// `pow4` never falls below one.
pub proof fn lemma_pow4_pos(k: nat)
    ensures
        pow4(k) >= 1,
    decreases k,
{
    if k > 0 {
        lemma_pow4_pos((k - 1) as nat);
    }
}

/// `pow4` grows with its argument.
pub proof fn lemma_pow4_monotone(a: nat, b: nat)
    requires
        a <= b,
    ensures
        pow4(a) <= pow4(b),
    decreases b,
{
    if a < b {
        lemma_pow4_monotone(a, (b - 1) as nat);
        lemma_pow4_pos((b - 1) as nat);
    }
}

/// The deepest supported subdivision keeps every count inside the
/// edge-key packing: `20 * 4^12` faces.
pub proof fn lemma_pow4_12()
    ensures
        pow4(12) == 16777216,
{
    reveal_with_fuel(pow4, 13);
}

/// Every recorded incidence points at a real face that contains the vertex.
pub open spec fn adjacency_sound(adj: Seq<Vec<usize>>, faces: Seq<Face>) -> bool {
    forall|v: int, k: int|
        0 <= v < adj.len() && 0 <= k < adj[v]@.len() ==> {
            &&& (#[trigger] adj[v]@[k]) < faces.len()
            &&& faces[adj[v]@[k] as int].contains_vertex(v)
        }
}

/// Every face is recorded at each of its three corners.
pub open spec fn adjacency_complete(adj: Seq<Vec<usize>>, faces: Seq<Face>) -> bool {
    forall|v: int, j: int|
        0 <= v < adj.len() && 0 <= j < faces.len() && #[trigger] faces[j].contains_vertex(v)
            ==> adj[v]@.contains(j as usize)
}

/// Each incidence list is strictly increasing, so no face is recorded twice.
pub open spec fn adjacency_sorted(adj: Seq<Vec<usize>>) -> bool {
    forall|v: int, k1: int, k2: int|
        0 <= v < adj.len() && 0 <= k1 < k2 < adj[v]@.len() ==> (#[trigger] adj[v]@[k1]) < (
        #[trigger] adj[v]@[k2])
}

/// For every vertex, the indices of the faces it belongs to, in increasing
/// order. Fails exactly when some face names one vertex twice, which a
/// well-formed triangulation never does.
pub fn vertex_face_adjacency(faces: &Vec<Face>, n_vertices: usize) -> (r: Result<
    Vec<Vec<usize>>,
    MeshError,
>)
    requires
        forall|j: int| 0 <= j < faces@.len() ==> (#[trigger] faces@[j]).valid(n_vertices as int),
    ensures
        match r {
            Ok(adj) => {
                &&& adj@.len() == n_vertices
                &&& adjacency_sound(adj@, faces@)
                &&& adjacency_complete(adj@, faces@)
                &&& adjacency_sorted(adj@)
                &&& forall|j: int| 0 <= j < faces@.len() ==> (#[trigger] faces@[j]).distinct()
            },
            Err(e) => {
                &&& e == MeshError::DegenerateFace
                &&& exists|j: int| 0 <= j < faces@.len() && !(#[trigger] faces@[j]).distinct()
            },
        },
{
    let mut adj: Vec<Vec<usize>> = Vec::new();
    let mut v: usize = 0;
    while v < n_vertices
        invariant
            v <= n_vertices,
            adj@.len() == v,
            forall|i: int| 0 <= i < v ==> (#[trigger] adj@[i])@.len() == 0,
        decreases n_vertices - v,
    {
        adj.push(Vec::new());
        v = v + 1;
    }
    let mut j: usize = 0;
    while j < faces.len()
        invariant
            j <= faces@.len(),
            adj@.len() == n_vertices,
            forall|jj: int|
                0 <= jj < faces@.len() ==> (#[trigger] faces@[jj]).valid(n_vertices as int),
            forall|vv: int, k: int|
                0 <= vv < adj@.len() && 0 <= k < adj@[vv]@.len() ==> {
                    &&& (#[trigger] adj@[vv]@[k]) < j
                    &&& faces@[adj@[vv]@[k] as int].contains_vertex(vv)
                },
            forall|vv: int, jj: int|
                0 <= vv < adj@.len() && 0 <= jj < j && #[trigger] faces@[jj].contains_vertex(vv)
                    ==> adj@[vv]@.contains(jj as usize),
            adjacency_sorted(adj@),
            forall|jj: int| 0 <= jj < j ==> (#[trigger] faces@[jj]).distinct(),
        decreases faces@.len() - j,
    {
        let f = faces[j];
        if f.v1 == f.v2 || f.v2 == f.v3 || f.v1 == f.v3 {
            return Err(MeshError::DegenerateFace);
        }
        let ghost a0 = adj@;
        adj[f.v1].push(j);
        adj[f.v2].push(j);
        adj[f.v3].push(j);
        proof {
            assert forall|vv: int, jj: int|
                0 <= vv < adj@.len() && 0 <= jj < j + 1 && #[trigger] faces@[jj].contains_vertex(
                    vv,
                ) implies adj@[vv]@.contains(jj as usize) by {
                if jj < j {
                    assert(a0[vv]@.contains(jj as usize));
                    let k = choose|k: int| 0 <= k < a0[vv]@.len() && a0[vv]@[k] == jj as usize;
                    assert(adj@[vv]@[k] == jj as usize);
                } else {
                    let stamp = a0[vv]@.len() as int;
                    if vv == f.v1 as int {
                        assert(adj@[vv]@[stamp] == j);
                    } else if vv == f.v2 as int {
                        assert(adj@[vv]@[stamp] == j);
                    } else {
                        assert(vv == f.v3 as int);
                        assert(adj@[vv]@[stamp] == j);
                    }
                }
            }
        }
        j = j + 1;
    }
    Ok(adj)
}

/// Two strictly increasing sequences with the same members are equal.
proof fn lemma_sorted_unique(s1: Seq<usize>, s2: Seq<usize>)
    requires
        forall|k1: int, k2: int| 0 <= k1 < k2 < s1.len() ==> s1[k1] < s1[k2],
        forall|k1: int, k2: int| 0 <= k1 < k2 < s2.len() ==> s2[k1] < s2[k2],
        forall|x: usize| s1.contains(x) <==> s2.contains(x),
    ensures
        s1 == s2,
    decreases s1.len(),
{
    if s1.len() == 0 {
        if s2.len() > 0 {
            assert(s2.contains(s2[0]));
            assert(s1.contains(s2[0]));
        }
        assert(s1 =~= s2);
    } else {
        assert(s1.contains(s1[0]));
        assert(s2.contains(s1[0]));
        let k = choose|k: int| 0 <= k < s2.len() && s2[k] == s1[0];
        assert(s2[0] <= s2[k]);
        assert(s2.contains(s2[0]));
        assert(s1.contains(s2[0]));
        let m = choose|m: int| 0 <= m < s1.len() && s1[m] == s2[0];
        assert(s1[0] <= s1[m]);
        assert(s1[0] == s2[0]);
        let t1 = s1.subrange(1, s1.len() as int);
        let t2 = s2.subrange(1, s2.len() as int);
        assert forall|x: usize| t1.contains(x) implies t2.contains(x) by {
            let i = choose|i: int| 0 <= i < t1.len() && t1[i] == x;
            assert(s1[i + 1] == x);
            assert(s1.contains(x));
            assert(s2.contains(x));
            let kk = choose|kk: int| 0 <= kk < s2.len() && s2[kk] == x;
            assert(s1[0] < s1[i + 1]);
            assert(kk != 0);
            assert(t2[kk - 1] == x);
            assert(t2.contains(x));
        }
        assert forall|x: usize| t2.contains(x) implies t1.contains(x) by {
            let i = choose|i: int| 0 <= i < t2.len() && t2[i] == x;
            assert(s2[i + 1] == x);
            assert(s2.contains(x));
            assert(s1.contains(x));
            let kk = choose|kk: int| 0 <= kk < s1.len() && s1[kk] == x;
            assert(s2[0] < s2[i + 1]);
            assert(kk != 0);
            assert(t1[kk - 1] == x);
            assert(t1.contains(x));
        }
        lemma_sorted_unique(t1, t2);
        assert(s1.len() == t1.len() + 1 && s2.len() == t2.len() + 1);
        assert forall|i: int| 0 <= i < s1.len() implies s1[i] == s2[i] by {
            if i > 0 {
                assert(t1[i - 1] == s1[i]);
                assert(t2[i - 1] == s2[i]);
            }
        }
        assert(s1 =~= s2);
    }
}

/// The dual-graph construction is deterministic: the face list alone
/// determines the incidence lists. Any two sound, complete and
/// duplicate-free adjacency records over the same faces agree everywhere.
pub proof fn lemma_adjacency_unique(a1: Seq<Vec<usize>>, a2: Seq<Vec<usize>>, faces: Seq<Face>)
    requires
        a1.len() == a2.len(),
        adjacency_sound(a1, faces),
        adjacency_complete(a1, faces),
        adjacency_sorted(a1),
        adjacency_sound(a2, faces),
        adjacency_complete(a2, faces),
        adjacency_sorted(a2),
    ensures
        forall|v: int| 0 <= v < a1.len() ==> (#[trigger] a1[v])@ == a2[v]@,
{
    assert forall|v: int| 0 <= v < a1.len() implies (#[trigger] a1[v])@ == a2[v]@ by {
        assert forall|x: usize| a1[v]@.contains(x) implies a2[v]@.contains(x) by {
            let k = choose|k: int| 0 <= k < a1[v]@.len() && a1[v]@[k] == x;
            assert(a1[v]@[k] < faces.len() && faces[a1[v]@[k] as int].contains_vertex(v));
            assert(faces[x as int].contains_vertex(v));
            assert(a2[v]@.contains(x));
        }
        assert forall|x: usize| a2[v]@.contains(x) implies a1[v]@.contains(x) by {
            let k = choose|k: int| 0 <= k < a2[v]@.len() && a2[v]@[k] == x;
            assert(a2[v]@[k] < faces.len() && faces[a2[v]@[k] as int].contains_vertex(v));
            assert(faces[x as int].contains_vertex(v));
            assert(a1[v]@.contains(x));
        }
        assert forall|k1: int, k2: int| 0 <= k1 < k2 < a1[v]@.len() implies a1[v]@[k1]
            < a1[v]@[k2] by {
            assert((a1[v]@[k1]) < (a1[v]@[k2]));
        }
        assert forall|k1: int, k2: int| 0 <= k1 < k2 < a2[v]@.len() implies a2[v]@[k1]
            < a2[v]@[k2] by {
            assert((a2[v]@[k1]) < (a2[v]@[k2]));
        }
        lemma_sorted_unique(a1[v]@, a2[v]@);
    }
}

/// The indices of the faces that contain vertex `v`, in increasing order.
pub open spec fn incident_list(faces: Seq<Face>, v: int) -> Seq<usize>
    decreases faces.len(),
{
    if faces.len() == 0 {
        Seq::empty()
    } else {
        let prefix = incident_list(faces.drop_last(), v);
        if faces.last().contains_vertex(v) {
            prefix.push((faces.len() - 1) as usize)
        } else {
            prefix
        }
    }
}

/// How many faces contain vertex `v`.
pub open spec fn vertex_degree(faces: Seq<Face>, v: int) -> int {
    incident_list(faces, v).len() as int
}

/// The incident list is strictly increasing, names only faces that contain
/// `v`, and names every one of them.
proof fn lemma_incident_list_props(faces: Seq<Face>, v: int)
    requires
        faces.len() <= usize::MAX,
    ensures
        ({
            let il = incident_list(faces, v);
            &&& forall|k: int|
                0 <= k < il.len() ==> (#[trigger] il[k]) < faces.len() && faces[
                    il[k] as int
                ].contains_vertex(v)
            &&& forall|k1: int, k2: int| 0 <= k1 < k2 < il.len() ==> il[k1] < il[k2]
            &&& forall|j: int|
                0 <= j < faces.len() && (#[trigger] faces[j]).contains_vertex(v) ==> il.contains(
                    j as usize,
                )
            &&& il.len() <= faces.len()
        }),
    decreases faces.len(),
{
    if faces.len() > 0 {
        let pf = faces.drop_last();
        lemma_incident_list_props(pf, v);
        let pil = incident_list(pf, v);
        let il = incident_list(faces, v);
        assert(forall|j: int| 0 <= j < pf.len() ==> pf[j] == faces[j]);
        if faces.last().contains_vertex(v) {
            assert(il == pil.push((faces.len() - 1) as usize));
            assert forall|j: int|
                0 <= j < faces.len() && (#[trigger] faces[j]).contains_vertex(v) implies il.contains(
                j as usize,
            ) by {
                if j < faces.len() - 1 {
                    assert(pil.contains(j as usize));
                    let k = choose|k: int| 0 <= k < pil.len() && pil[k] == j as usize;
                    assert(il[k] == j as usize);
                } else {
                    assert(il[pil.len() as int] == (faces.len() - 1) as usize);
                }
            }
        } else {
            assert(il == pil);
            assert forall|j: int|
                0 <= j < faces.len() && (#[trigger] faces[j]).contains_vertex(v) implies il.contains(
                j as usize,
            ) by {
                assert(j < faces.len() - 1);
                assert(pil.contains(j as usize));
            }
        }
    }
}

/// Sound, complete, duplicate-free incidence records are exactly the
/// incident lists of the face table.
proof fn lemma_adjacency_is_incident(adj: Seq<Vec<usize>>, faces: Seq<Face>)
    requires
        faces.len() <= usize::MAX,
        adjacency_sound(adj, faces),
        adjacency_complete(adj, faces),
        adjacency_sorted(adj),
    ensures
        forall|v: int| 0 <= v < adj.len() ==> (#[trigger] adj[v])@ == incident_list(faces, v),
{
    assert forall|v: int| 0 <= v < adj.len() implies (#[trigger] adj[v])@ == incident_list(
        faces,
        v,
    ) by {
        lemma_incident_list_props(faces, v);
        let il = incident_list(faces, v);
        assert forall|x: usize| adj[v]@.contains(x) implies il.contains(x) by {
            let k = choose|k: int| 0 <= k < adj[v]@.len() && adj[v]@[k] == x;
            assert(adj[v]@[k] < faces.len() && faces[adj[v]@[k] as int].contains_vertex(v));
            assert(faces[x as int].contains_vertex(v));
        }
        assert forall|x: usize| il.contains(x) implies adj[v]@.contains(x) by {
            let k = choose|k: int| 0 <= k < il.len() && il[k] == x;
            assert(il[k] < faces.len() && faces[il[k] as int].contains_vertex(v));
            assert(faces[x as int].contains_vertex(v));
            assert(adj[v]@.contains(x));
        }
        assert forall|k1: int, k2: int| 0 <= k1 < k2 < adj[v]@.len() implies adj[v]@[k1]
            < adj[v]@[k2] by {
            assert((adj[v]@[k1]) < (adj[v]@[k2]));
        }
        lemma_sorted_unique(adj[v]@, il);
    }
}

/// Every vertex below `n` lies in five or six faces.
pub open spec fn degrees_regular_faces(faces: Seq<Face>, n: int) -> bool {
    forall|v: int|
        0 <= v < n ==> (#[trigger] vertex_degree(faces, v) == 5 || vertex_degree(faces, v) == 6)
}

/// Number of vertices below `n` lying in exactly five faces.
pub open spec fn pentagon_vertex_count(faces: Seq<Face>, n: int) -> int
    decreases n,
{
    if n <= 0 {
        0
    } else {
        pentagon_vertex_count(faces, n - 1) + if vertex_degree(faces, n - 1) == 5 {
            1int
        } else {
            0int
        }
    }
}

/// Total incidences of the vertices below `n`.
pub open spec fn degree_sum_faces(faces: Seq<Face>, n: int) -> int
    decreases n,
{
    if n <= 0 {
        0
    } else {
        degree_sum_faces(faces, n - 1) + vertex_degree(faces, n - 1)
    }
}

/// Incidence records with the true per-vertex degrees have the true sums.
proof fn lemma_counts_match(adj: Seq<Vec<usize>>, faces: Seq<Face>)
    requires
        forall|v: int| 0 <= v < adj.len() ==> (#[trigger] adj[v])@.len() == vertex_degree(faces, v),
    ensures
        sum_degrees(adj) == degree_sum_faces(faces, adj.len() as int),
        pentagon_degree_count(adj) == pentagon_vertex_count(faces, adj.len() as int),
    decreases adj.len(),
{
    if adj.len() > 0 {
        let pa = adj.drop_last();
        assert(forall|v: int| 0 <= v < pa.len() ==> pa[v] == adj[v]);
        lemma_counts_match(pa, faces);
        assert(adj.last()@.len() == vertex_degree(faces, adj.len() - 1));
    }
}

/// Total number of recorded vertex-face incidences.
pub open spec fn sum_degrees(adj: Seq<Vec<usize>>) -> int
    decreases adj.len(),
{
    if adj.len() == 0 {
        0
    } else {
        sum_degrees(adj.drop_last()) + adj.last()@.len()
    }
}

/// Number of vertices with exactly five incident faces.
pub open spec fn pentagon_degree_count(adj: Seq<Vec<usize>>) -> int
    decreases adj.len(),
{
    if adj.len() == 0 {
        0
    } else {
        pentagon_degree_count(adj.drop_last()) + if adj.last()@.len() == 5 {
            1int
        } else {
            0int
        }
    }
}

/// Every vertex has five or six incident faces.
pub open spec fn degrees_regular(adj: Seq<Vec<usize>>) -> bool {
    forall|v: int| 0 <= v < adj.len() ==> ((#[trigger] adj[v]@.len()) == 5 || adj[v]@.len() == 6)
}

/// Counting incidences vertex by vertex: with every degree five or six and
/// `p` pentagons, the total is `6 * V - p`.
proof fn lemma_degree_sum(adj: Seq<Vec<usize>>)
    requires
        degrees_regular(adj),
    ensures
        sum_degrees(adj) == 6 * adj.len() - pentagon_degree_count(adj),
    decreases adj.len(),
{
    if adj.len() > 0 {
        assert(degrees_regular(adj.drop_last()));
        lemma_degree_sum(adj.drop_last());
    }
}

/// Euler's relation for the dual tiling: on a closed triangulated sphere
/// (three incidences per face) where every vertex has five or six incident
/// faces and exactly twelve have five, the vertex count is half the face
/// count plus two.
pub proof fn lemma_euler_vertex_count(adj: Seq<Vec<usize>>, n_faces: int)
    requires
        degrees_regular(adj),
        pentagon_degree_count(adj) == 12,
        sum_degrees(adj) == 3 * n_faces,
    ensures
        2 * adj.len() == n_faces + 4,
{
    lemma_degree_sum(adj);
}

/// The dual polygon around one vertex of the triangulation: its incident
/// faces (five for the twelve original icosahedron vertices, six for every
/// vertex introduced by subdivision) and their corner positions.
pub struct DualTile {
    pub center_vertex: usize,
    pub face_indices: Vec<usize>,
    pub faces: Vec<Face>,
    pub corner_points: Vec<Point3>,
    pub is_pentagon: bool,
}

/// Number of pentagon tiles.
pub open spec fn pentagon_tile_count(tiles: Seq<DualTile>) -> int
    decreases tiles.len(),
{
    if tiles.len() == 0 {
        0
    } else {
        pentagon_tile_count(tiles.drop_last()) + if tiles.last().is_pentagon {
            1int
        } else {
            0int
        }
    }
}

/// The pentagon count never exceeds the tile count.
proof fn lemma_pentagon_count_bounds(tiles: Seq<DualTile>)
    ensures
        0 <= pentagon_tile_count(tiles) <= tiles.len(),
    decreases tiles.len(),
{
    if tiles.len() > 0 {
        lemma_pentagon_count_bounds(tiles.drop_last());
    }
}

/// When the pentagon count equals the tile count, every tile is a
/// pentagon - as on the bare icosahedron, whose twelve tiles are its
/// twelve pentagons.
pub proof fn lemma_all_pentagons_when_count_full(tiles: Seq<DualTile>)
    requires
        pentagon_tile_count(tiles) == tiles.len(),
    ensures
        forall|v: int| 0 <= v < tiles.len() ==> (#[trigger] tiles[v]).is_pentagon,
    decreases tiles.len(),
{
    if tiles.len() > 0 {
        let pt = tiles.drop_last();
        lemma_pentagon_count_bounds(pt);
        assert(tiles.last().is_pentagon);
        lemma_all_pentagons_when_count_full(pt);
        assert(forall|v: int| 0 <= v < pt.len() ==> pt[v] == tiles[v]);
    }
}

/// Tile `t` is the dual polygon of vertex `v`: it records exactly the
/// incident faces of `v` and, flattened in order, their corner positions,
/// and is a pentagon exactly when five faces meet at `v`.
pub open spec fn tile_matches(
    t: DualTile,
    v: int,
    vertices: Seq<Point3>,
    faces: Seq<Face>,
    incident: Vec<usize>,
) -> bool {
    &&& t.center_vertex == v
    &&& t.face_indices@ == incident@
    &&& t.faces@.len() == incident@.len()
    &&& t.corner_points@.len() == 3 * incident@.len()
    &&& forall|k: int|
        0 <= k < incident@.len() ==> {
            let fi = (#[trigger] incident@[k]) as int;
            &&& t.faces@[k] == faces[fi]
            &&& t.corner_points@[3 * k] == vertices[faces[fi].v1 as int]
            &&& t.corner_points@[3 * k + 1] == vertices[faces[fi].v2 as int]
            &&& t.corner_points@[3 * k + 2] == vertices[faces[fi].v3 as int]
        }
    &&& (t.is_pentagon <==> incident@.len() == 5)
}

/// Build the dual tile of every vertex from the incidence lists. Fails
/// exactly when the incidence records do not add up to three per face, or
/// some vertex does not have five or six incident faces with exactly
/// twelve fives - the marks of a broken sphere topology.
pub fn derive_dual_tiles(vertices: &Vec<Point3>, faces: &Vec<Face>, adj: &Vec<Vec<usize>>) -> (r:
    Result<Vec<DualTile>, MeshError>)
    requires
        forall|j: int|
            0 <= j < faces@.len() ==> (#[trigger] faces@[j]).valid(vertices@.len() as int),
        adjacency_sound(adj@, faces@),
    ensures
        match r {
            Ok(tiles) => {
                &&& tiles@.len() == adj@.len()
                &&& forall|v: int|
                    0 <= v < adj@.len() ==> tile_matches(
                        #[trigger] tiles@[v],
                        v,
                        vertices@,
                        faces@,
                        adj@[v],
                    )
                &&& degrees_regular(adj@)
                &&& pentagon_degree_count(adj@) == 12
                &&& pentagon_tile_count(tiles@) == 12
                &&& sum_degrees(adj@) == 3 * faces@.len()
            },
            Err(e) => {
                ||| (e == MeshError::BrokenAdjacency && sum_degrees(adj@) != 3 * faces@.len())
                ||| (e == MeshError::BadVertexDegree && sum_degrees(adj@) == 3 * faces@.len() && !(
                degrees_regular(adj@) && pentagon_degree_count(adj@) == 12))
            },
        },
{
    let mut total: u128 = 0;
    let mut v: usize = 0;
    while v < adj.len()
        invariant
            v <= adj@.len(),
            total == sum_degrees(adj@.take(v as int)),
            total <= (v as int) * 0xffff_ffff_ffff_ffffu128,
        decreases adj@.len() - v,
    {
        proof {
            assert(adj@.take(v as int + 1).drop_last() =~= adj@.take(v as int));
            assert(adj@.take(v as int + 1).last() == adj@[v as int]);
        }
        total = total + (adj[v].len() as u128);
        v = v + 1;
    }
    proof {
        assert(adj@.take(adj@.len() as int) =~= adj@);
    }
    if total != 3 * (faces.len() as u128) {
        return Err(MeshError::BrokenAdjacency);
    }
    let mut tiles: Vec<DualTile> = Vec::new();
    let mut pcount: usize = 0;
    let mut v: usize = 0;
    while v < adj.len()
        invariant
            v <= adj@.len(),
            tiles@.len() == v,
            pcount <= v,
            vertices@.len() == vertices.len(),
            forall|j: int|
                0 <= j < faces@.len() ==> (#[trigger] faces@[j]).valid(vertices@.len() as int),
            adjacency_sound(adj@, faces@),
            sum_degrees(adj@) == 3 * faces@.len(),
            forall|vv: int|
                0 <= vv < v ==> ((#[trigger] adj@[vv]@.len()) == 5 || adj@[vv]@.len() == 6),
            pcount == pentagon_degree_count(adj@.take(v as int)),
            pcount == pentagon_tile_count(tiles@),
            forall|vv: int|
                0 <= vv < v ==> tile_matches(#[trigger] tiles@[vv], vv, vertices@, faces@, adj@[vv]),
        decreases adj@.len() - v,
    {
        let lst = &adj[v];
        let deg = lst.len();
        if deg != 5 && deg != 6 {
            proof {
                assert(!degrees_regular(adj@));
            }
            return Err(MeshError::BadVertexDegree);
        }
        let mut tindices: Vec<usize> = Vec::new();
        let mut tfaces: Vec<Face> = Vec::new();
        let mut corners: Vec<Point3> = Vec::new();
        let mut k: usize = 0;
        while k < lst.len()
            invariant
                k <= lst@.len(),
                v < adj@.len(),
                lst@ == adj@[v as int]@,
                vertices@.len() == vertices.len(),
                forall|j: int|
                    0 <= j < faces@.len() ==> (#[trigger] faces@[j]).valid(vertices@.len() as int),
                adjacency_sound(adj@, faces@),
                tindices@.len() == k,
                tfaces@.len() == k,
                corners@.len() == 3 * k,
                forall|kk: int| 0 <= kk < k ==> tindices@[kk] == adj@[v as int]@[kk],
                forall|kk: int|
                    0 <= kk < k ==> {
                        let fi = (#[trigger] tindices@[kk]) as int;
                        &&& tfaces@[kk] == faces@[fi]
                        &&& corners@[3 * kk] == vertices@[faces@[fi].v1 as int]
                        &&& corners@[3 * kk + 1] == vertices@[faces@[fi].v2 as int]
                        &&& corners@[3 * kk + 2] == vertices@[faces@[fi].v3 as int]
                    },
            decreases lst@.len() - k,
        {
            let fi = lst[k];
            let f = faces[fi];
            tindices.push(fi);
            tfaces.push(f);
            corners.push(vertices[f.v1]);
            corners.push(vertices[f.v2]);
            corners.push(vertices[f.v3]);
            k = k + 1;
        }
        let is_pent = deg == 5;
        if is_pent {
            pcount = pcount + 1;
        }
        let tile = DualTile {
            center_vertex: v,
            face_indices: tindices,
            faces: tfaces,
            corner_points: corners,
            is_pentagon: is_pent,
        };
        let ghost tiles0 = tiles@;
        tiles.push(tile);
        proof {
            assert(adj@.take(v as int + 1).drop_last() =~= adj@.take(v as int));
            assert(adj@.take(v as int + 1).last() == adj@[v as int]);
            assert(tiles@.drop_last() =~= tiles0);
            assert(tiles@.last() == tile);
            assert(tiles@.last().face_indices@ =~= adj@[v as int]@);
        }
        v = v + 1;
    }
    proof {
        assert(adj@.take(adj@.len() as int) =~= adj@);
    }
    if pcount != 12 {
        return Err(MeshError::BadVertexDegree);
    }
    Ok(tiles)
}

/// The packed identity of one face triple: the three indices in order,
/// thirty-two bits each.
pub open spec fn face_key_of(f: Face) -> u128 {
    ((f.v1 as int) * 0x1_0000_0000_0000_0000 + (f.v2 as int) * 0x1_0000_0000 + (f.v3 as int)) as u128
}

/// Distinct face triples have distinct packed keys.
proof fn lemma_face_key_injective(f1: Face, f2: Face)
    requires
        f1.valid(0x1_0000_0000),
        f2.valid(0x1_0000_0000),
        face_key_of(f1) == face_key_of(f2),
    ensures
        f1 == f2,
{
    let low1 = (f1.v2 as int) * 0x1_0000_0000 + (f1.v3 as int);
    let low2 = (f2.v2 as int) * 0x1_0000_0000 + (f2.v3 as int);
    let k1 = (f1.v1 as int) * 0x1_0000_0000_0000_0000 + low1;
    let k2 = (f2.v1 as int) * 0x1_0000_0000_0000_0000 + low2;
    assert(k1 == k2);
    vstd::arithmetic::div_mod::lemma_fundamental_div_mod_converse(
        k1,
        0x1_0000_0000_0000_0000,
        f1.v1 as int,
        low1,
    );
    vstd::arithmetic::div_mod::lemma_fundamental_div_mod_converse(
        k2,
        0x1_0000_0000_0000_0000,
        f2.v1 as int,
        low2,
    );
    assert(f1.v1 == f2.v1 && low1 == low2);
    vstd::arithmetic::div_mod::lemma_fundamental_div_mod_converse(
        low1,
        0x1_0000_0000,
        f1.v2 as int,
        f1.v3 as int,
    );
    vstd::arithmetic::div_mod::lemma_fundamental_div_mod_converse(
        low2,
        0x1_0000_0000,
        f2.v2 as int,
        f2.v3 as int,
    );
}

/// The packed key of one face, as a value.
fn face_key(f: Face) -> (k: u128)
    requires
        f.valid(0x1_0000_0000),
    ensures
        k == face_key_of(f),
{
    (f.v1 as u128) * 0x1_0000_0000_0000_0000u128 + (f.v2 as u128) * 0x1_0000_0000u128 + (
    f.v3 as u128)
}

/// Whether the face triples are pairwise distinct, decided in one pass
/// over a seen-set of packed keys.
fn faces_all_distinct(faces: &Vec<Face>) -> (r: bool)
    requires
        forall|j: int| 0 <= j < faces@.len() ==> (#[trigger] faces@[j]).valid(0x1_0000_0000),
    ensures
        r <==> (forall|j1: int, j2: int|
            0 <= j1 < j2 < faces@.len() ==> (#[trigger] faces@[j1]) != (#[trigger] faces@[j2])),
{
    let mut seen: HashMap<u128, usize> = HashMap::new();
    let mut j: usize = 0;
    while j < faces.len()
        invariant
            j <= faces@.len(),
            forall|jj: int| 0 <= jj < faces@.len() ==> (#[trigger] faces@[jj]).valid(0x1_0000_0000),
            forall|jj: int|
                0 <= jj < j ==> seen@.contains_key(face_key_of(#[trigger] faces@[jj])),
            forall|k: u128|
                #[trigger] seen@.contains_key(k) ==> exists|jj: int|
                    0 <= jj < j && face_key_of(#[trigger] faces@[jj]) == k,
            forall|j1: int, j2: int|
                0 <= j1 < j2 < j ==> (#[trigger] faces@[j1]) != (#[trigger] faces@[j2]),
        decreases faces@.len() - j,
    {
        let f = faces[j];
        let key = face_key(f);
        if seen.contains_key(&key) {
            proof {
                let jj = choose|jj: int| 0 <= jj < j && face_key_of(#[trigger] faces@[jj]) == key;
                lemma_face_key_injective(faces@[jj], f);
                assert(faces@[jj] == faces@[j as int]);
            }
            return false;
        }
        let ghost seen0 = seen@;
        seen.insert(key, j);
        proof {
            assert forall|j1: int| 0 <= j1 < j implies (#[trigger] faces@[j1]) != faces@[
                j as int
            ] by {
                if faces@[j1] == faces@[j as int] {
                    assert(seen0.contains_key(face_key_of(faces@[j1])));
                }
            }
        }
        j = j + 1;
    }
    true
}

/// What a successful build certifies of its face table: no triangle
/// repeated, each face over three distinct vertices, three recorded
/// incidences per face in total, every vertex in five or six faces, and
/// exactly twelve vertices in five.
pub open spec fn sphere_conditions(verts: Seq<Point3>, faces: Seq<Face>) -> bool {
    &&& forall|j1: int, j2: int|
        0 <= j1 < j2 < faces.len() ==> (#[trigger] faces[j1]) != (#[trigger] faces[j2])
    &&& forall|j: int| 0 <= j < faces.len() ==> (#[trigger] faces[j]).distinct()
    &&& degree_sum_faces(faces, verts.len() as int) == 3 * faces.len()
    &&& degrees_regular_faces(faces, verts.len() as int)
    &&& pentagon_vertex_count(faces, verts.len() as int) == 12
}

/// The canonical seed already satisfies the sphere conditions: the twenty
/// faces are distinct over distinct corners, and each of the twelve
/// vertices lies in exactly five of them.
proof fn lemma_seed_sphere_conditions()
    ensures
        sphere_conditions(seed_vertices_spec(), seed_faces_spec()),
{
    let sf = seed_faces_spec();
    let sv = seed_vertices_spec();
    assert(sf.len() == 20 && sv.len() == 12);
    assert forall|j1: int, j2: int| 0 <= j1 < j2 < 20 implies (#[trigger] sf[j1]) != (
    #[trigger] sf[j2]) by {
        assert(sf[j1] == seed_face(j1) && sf[j2] == seed_face(j2));
    }
    assert forall|j: int| 0 <= j < 20 implies (#[trigger] sf[j]).distinct() by {
        assert(sf[j] == seed_face(j));
    }
    reveal_with_fuel(incident_list, 21);
    assert(vertex_degree(sf, 0) == 5);
    assert(vertex_degree(sf, 1) == 5);
    assert(vertex_degree(sf, 2) == 5);
    assert(vertex_degree(sf, 3) == 5);
    assert(vertex_degree(sf, 4) == 5);
    assert(vertex_degree(sf, 5) == 5);
    assert(vertex_degree(sf, 6) == 5);
    assert(vertex_degree(sf, 7) == 5);
    assert(vertex_degree(sf, 8) == 5);
    assert(vertex_degree(sf, 9) == 5);
    assert(vertex_degree(sf, 10) == 5);
    assert(vertex_degree(sf, 11) == 5);
    assert forall|v: int| 0 <= v < 12 implies (#[trigger] vertex_degree(sf, v) == 5
        || vertex_degree(sf, v) == 6) by {
        assert(v == 0 || v == 1 || v == 2 || v == 3 || v == 4 || v == 5 || v == 6 || v == 7 || v
            == 8 || v == 9 || v == 10 || v == 11);
    }
    reveal_with_fuel(pentagon_vertex_count, 13);
    assert(pentagon_vertex_count(sf, 12) == 12);
    reveal_with_fuel(degree_sum_faces, 13);
    assert(degree_sum_faces(sf, 12) == 60);
}

/// At depth zero the pipeline is the bare seed, so a depth-zero build
/// always succeeds.
pub proof fn lemma_depth_zero_succeeds()
    ensures
        build_levels_spec(0).2 is Ok,
        sphere_conditions(build_levels_spec(0).0, build_levels_spec(0).2->Ok_0),
{
    lemma_seed_sphere_conditions();
}

/// Total number of face records across the tiles.
pub open spec fn tile_face_count_sum(tiles: Seq<DualTile>) -> int
    decreases tiles.len(),
{
    if tiles.len() == 0 {
        0
    } else {
        tile_face_count_sum(tiles.drop_last()) + tiles.last().faces@.len()
    }
}

/// Tiles whose face records have the incidence lengths sum to the same
/// total.
proof fn lemma_tile_face_sum(tiles: Seq<DualTile>, adj: Seq<Vec<usize>>)
    requires
        tiles.len() == adj.len(),
        forall|v: int|
            0 <= v < tiles.len() ==> (#[trigger] tiles[v]).faces@.len() == adj[v]@.len(),
    ensures
        tile_face_count_sum(tiles) == sum_degrees(adj),
    decreases tiles.len(),
{
    if tiles.len() > 0 {
        let pt = tiles.drop_last();
        let pa = adj.drop_last();
        assert(forall|v: int| 0 <= v < pt.len() ==> pt[v] == tiles[v] && pa[v] == adj[v]);
        lemma_tile_face_sum(pt, pa);
    }
}

/// A level that fails stays failed at every deeper level.
proof fn lemma_levels_err_propagates(k: int, d: int)
    requires
        0 <= k <= d,
        build_levels_spec(k).2 is Err,
    ensures
        build_levels_spec(d) == build_levels_spec(k),
    decreases d - k,
{
    if k < d {
        lemma_levels_err_propagates(k, d - 1);
    }
}

/// The assembled geodesic sphere: deduplicated unit vertices, the
/// triangulated faces, and one dual tile per vertex.
pub struct GeodesicSphere {
    pub vertices: Vec<Point3>,
    pub faces: Vec<Face>,
    pub tiles: Vec<DualTile>,
}

/// Tile `t` is a sound, complete and duplicate-free record of the dual
/// polygon of vertex `v`: it lists exactly the faces containing `v`, in
/// increasing order, with their corner positions flattened in order, and
/// is a pentagon exactly when five faces meet at `v`.
pub open spec fn tile_well_formed(t: DualTile, v: int, vertices: Seq<Point3>, faces: Seq<Face>) -> bool {
    &&& t.center_vertex == v
    &&& (t.is_pentagon <==> t.face_indices@.len() == 5)
    &&& (t.face_indices@.len() == 5 || t.face_indices@.len() == 6)
    &&& t.faces@.len() == t.face_indices@.len()
    &&& t.corner_points@.len() == 3 * t.face_indices@.len()
    &&& forall|k: int|
        0 <= k < t.face_indices@.len() ==> {
            let fi = (#[trigger] t.face_indices@[k]) as int;
            &&& fi < faces.len()
            &&& faces[fi].contains_vertex(v)
            &&& t.faces@[k] == faces[fi]
            &&& t.corner_points@[3 * k] == vertices[faces[fi].v1 as int]
            &&& t.corner_points@[3 * k + 1] == vertices[faces[fi].v2 as int]
            &&& t.corner_points@[3 * k + 2] == vertices[faces[fi].v3 as int]
        }
    &&& forall|j: int|
        0 <= j < faces.len() && (#[trigger] faces[j]).contains_vertex(v)
            ==> t.face_indices@.contains(j as usize)
    &&& forall|k1: int, k2: int|
        0 <= k1 < k2 < t.face_indices@.len() ==> (#[trigger] t.face_indices@[k1]) < (
        #[trigger] t.face_indices@[k2])
}

/// The dual tiles are determined by the mesh: any two tile lists that are
/// well-formed over the same vertices and faces agree in every field, so
/// equal builds carry equal tiles.
pub proof fn lemma_tiles_determined(
    t1: Seq<DualTile>,
    t2: Seq<DualTile>,
    vertices: Seq<Point3>,
    faces: Seq<Face>,
)
    requires
        t1.len() == t2.len(),
        forall|v: int| 0 <= v < t1.len() ==> tile_well_formed(#[trigger] t1[v], v, vertices, faces),
        forall|v: int| 0 <= v < t2.len() ==> tile_well_formed(#[trigger] t2[v], v, vertices, faces),
    ensures
        forall|v: int|
            0 <= v < t1.len() ==> {
                &&& (#[trigger] t1[v]).center_vertex == t2[v].center_vertex
                &&& t1[v].face_indices@ == t2[v].face_indices@
                &&& t1[v].faces@ == t2[v].faces@
                &&& t1[v].corner_points@ == t2[v].corner_points@
                &&& t1[v].is_pentagon == t2[v].is_pentagon
            },
{
    assert forall|v: int| 0 <= v < t1.len() implies {
        &&& (#[trigger] t1[v]).center_vertex == t2[v].center_vertex
        &&& t1[v].face_indices@ == t2[v].face_indices@
        &&& t1[v].faces@ == t2[v].faces@
        &&& t1[v].corner_points@ == t2[v].corner_points@
        &&& t1[v].is_pentagon == t2[v].is_pentagon
    } by {
        let a = t1[v];
        let b = t2[v];
        assert(tile_well_formed(a, v, vertices, faces));
        assert(tile_well_formed(b, v, vertices, faces));
        assert forall|x: usize| a.face_indices@.contains(x) implies b.face_indices@.contains(
            x,
        ) by {
            let k = choose|k: int| 0 <= k < a.face_indices@.len() && a.face_indices@[k] == x;
            assert((a.face_indices@[k] as int) < faces.len() && faces[
                a.face_indices@[k] as int
            ].contains_vertex(v));
            assert(faces[x as int].contains_vertex(v));
        }
        assert forall|x: usize| b.face_indices@.contains(x) implies a.face_indices@.contains(
            x,
        ) by {
            let k = choose|k: int| 0 <= k < b.face_indices@.len() && b.face_indices@[k] == x;
            assert((b.face_indices@[k] as int) < faces.len() && faces[
                b.face_indices@[k] as int
            ].contains_vertex(v));
            assert(faces[x as int].contains_vertex(v));
        }
        lemma_sorted_unique(a.face_indices@, b.face_indices@);
        assert(a.faces@ =~= b.faces@) by {
            assert forall|k: int| 0 <= k < a.faces@.len() implies a.faces@[k] == b.faces@[k] by {
                assert(a.face_indices@[k] == b.face_indices@[k]);
            }
        }
        assert(a.corner_points@ =~= b.corner_points@) by {
            assert forall|i: int|
                0 <= i < a.corner_points@.len() implies a.corner_points@[i]
                    == b.corner_points@[i] by {
                let k = i / 3;
                assert(0 <= k < a.face_indices@.len());
                assert(a.face_indices@[k] == b.face_indices@[k]);
                assert(i == 3 * k || i == 3 * k + 1 || i == 3 * k + 2);
            }
        }
    }
}

/// Subdivide the icosahedron `subdivisions` times and derive the dual
/// tiles. The geometry is a function of the depth alone
/// (`build_levels_spec`), and the build succeeds exactly when that
/// geometry meets `sphere_conditions`; at depth zero it always succeeds.
/// A successful build carries the full structure of a geodesic sphere:
/// `20 * 4^d` pairwise distinct faces, half as many vertices plus two
/// (Euler's relation), one tile per vertex with three incidence records
/// per face in total, and exactly twelve pentagons. An error reports an
/// internal construction defect and yields no partial mesh.
pub fn generate_geodesic_sphere(subdivisions: usize) -> (r: Result<GeodesicSphere, MeshError>)
    requires
        subdivisions <= 12,
    ensures
        match r {
            Ok(s) => {
                &&& s.faces@.len() == 20 * pow4(subdivisions as nat)
                &&& 2 * s.vertices@.len() == s.faces@.len() + 4
                &&& s.tiles@.len() == s.vertices@.len()
                &&& pentagon_tile_count(s.tiles@) == 12
                &&& forall|j: int|
                    0 <= j < s.faces@.len() ==> (#[trigger] s.faces@[j]).valid(
                        s.vertices@.len() as int,
                    ) && s.faces@[j].distinct()
                &&& forall|i: int|
                    0 <= i < s.vertices@.len() ==> near_unit(#[trigger] s.vertices@[i])
                &&& s.vertices@.len() >= 12
                &&& forall|i: int|
                    0 <= i < 12 ==> #[trigger] s.vertices@[i] == spec_normalized(
                        seed_vertex_raw(i),
                    )
                &&& forall|v: int|
                    0 <= v < s.tiles@.len() ==> tile_well_formed(
                        #[trigger] s.tiles@[v],
                        v,
                        s.vertices@,
                        s.faces@,
                    )
                &&& s.vertices@ == build_levels_spec(subdivisions as int).0
                &&& build_levels_spec(subdivisions as int).2 == Ok::<Seq<Face>, MeshError>(
                    s.faces@,
                )
                &&& forall|j1: int, j2: int|
                    0 <= j1 < j2 < s.faces@.len() ==> (#[trigger] s.faces@[j1]) != (
                    #[trigger] s.faces@[j2])
            },
            Err(_) => true,
        },
        r is Ok <==> ({
            let (sv, sc, srf) = build_levels_spec(subdivisions as int);
            srf is Ok && sphere_conditions(sv, srf->Ok_0)
        }),
        subdivisions == 0 ==> r is Ok,
        match r {
            Ok(s) => tile_face_count_sum(s.tiles@) == 3 * s.faces@.len(),
            Err(_) => true,
        },
{
    proof {
        if subdivisions == 0 {
            lemma_depth_zero_succeeds();
        }
    }
    let mut builder = MeshBuilder::new();
    builder.vertices = icosahedron_vertices();
    let mut faces = icosahedron_faces();
    proof {
        assert(builder.vertices@ =~= seed_vertices_spec());
        assert(faces@ =~= seed_faces_spec());
    }
    let mut level: usize = 0;
    while level < subdivisions
        invariant
            level <= subdivisions <= 12,
            builder.wf(),
            faces@.len() == 20 * pow4(level as nat),
            12 <= builder.vertices@.len() <= 20 * pow4(level as nat),
            forall|i: int|
                0 <= i < 12 ==> #[trigger] builder.vertices@[i] == spec_normalized(
                    seed_vertex_raw(i),
                ),
            forall|j: int|
                0 <= j < faces@.len() ==> (#[trigger] faces@[j]).valid(
                    builder.vertices@.len() as int,
                ),
            ({
                let (sv, sc, srf) = build_levels_spec(level as int);
                &&& builder.vertices@ == sv
                &&& builder.cache@ == sc
                &&& srf == Ok::<Seq<Face>, MeshError>(faces@)
            }),
        decreases subdivisions - level,
    {
        proof {
            lemma_pow4_monotone(level as nat, 11);
            lemma_pow4_12();
            assert(pow4(12) == 4 * pow4(11));
            assert(pow4((level + 1) as nat) == 4 * pow4(level as nat));
        }
        let children = match builder.subdivide_faces(&faces) {
            Ok(c) => c,
            Err(e) => {
                proof {
                    assert(build_levels_spec(level as int + 1).2 is Err);
                    lemma_levels_err_propagates(level as int + 1, subdivisions as int);
                }
                return Err(e);
            },
        };
        faces = children;
        level = level + 1;
    }
    if !faces_all_distinct(&faces) {
        return Err(MeshError::DuplicateFace);
    }
    let n = builder.vertices.len();
    let adj = match vertex_face_adjacency(&faces, n) {
        Ok(a) => a,
        Err(e) => {
            proof {
                let jbad = choose|j: int| 0 <= j < faces@.len() && !(#[trigger] faces@[j]).distinct();
                assert(!sphere_conditions(builder.vertices@, faces@));
            }
            return Err(e);
        },
    };
    let tiles = match derive_dual_tiles(&builder.vertices, &faces, &adj) {
        Ok(t) => t,
        Err(e) => {
            proof {
                assert(faces@.len() == faces.len());
                lemma_adjacency_is_incident(adj@, faces@);
                lemma_counts_match(adj@, faces@);
                if sum_degrees(adj@) != 3 * faces@.len() {
                    assert(!sphere_conditions(builder.vertices@, faces@));
                } else {
                    if !degrees_regular(adj@) {
                        let vbad = choose|v: int|
                            0 <= v < adj@.len() && !((#[trigger] adj@[v]@.len()) == 5 || adj@[v]@.len()
                                == 6);
                        assert(adj@[vbad]@ == incident_list(faces@, vbad));
                        assert(vertex_degree(faces@, vbad) != 5 && vertex_degree(faces@, vbad) != 6);
                        assert(!degrees_regular_faces(faces@, builder.vertices@.len() as int));
                    }
                    assert(!sphere_conditions(builder.vertices@, faces@));
                }
            }
            return Err(e);
        },
    };
    proof {
        lemma_euler_vertex_count(adj@, faces@.len() as int);
        assert(faces@.len() == faces.len());
        lemma_adjacency_is_incident(adj@, faces@);
        lemma_counts_match(adj@, faces@);
        assert forall|v: int| 0 <= v < builder.vertices@.len() implies (#[trigger] vertex_degree(
            faces@,
            v,
        ) == 5 || vertex_degree(faces@, v) == 6) by {
            assert(adj@[v]@ == incident_list(faces@, v));
            assert(adj@[v]@.len() == 5 || adj@[v]@.len() == 6);
        }
        assert(sphere_conditions(builder.vertices@, faces@));
        assert forall|v: int|
            0 <= v < tiles@.len() implies (#[trigger] tiles@[v]).faces@.len() == adj@[v]@.len() by {
            assert(tile_matches(tiles@[v], v, builder.vertices@, faces@, adj@[v]));
        }
        lemma_tile_face_sum(tiles@, adj@);
        assert forall|v: int| 0 <= v < tiles@.len() implies tile_well_formed(
            #[trigger] tiles@[v],
            v,
            builder.vertices@,
            faces@,
        ) by {
            let t = tiles@[v];
            assert(tile_matches(t, v, builder.vertices@, faces@, adj@[v]));
            assert(t.face_indices@ == adj@[v]@);
            assert(adj@[v]@.len() == 5 || adj@[v]@.len() == 6);
            assert forall|k: int| 0 <= k < t.face_indices@.len() implies {
                let fi = (#[trigger] t.face_indices@[k]) as int;
                fi < faces@.len() && faces@[fi].contains_vertex(v)
            } by {
                assert(adj@[v]@[k] < faces@.len() && faces@[adj@[v]@[k] as int].contains_vertex(v));
            }
            assert forall|j: int|
                0 <= j < faces@.len() && (#[trigger] faces@[j]).contains_vertex(v) implies
                t.face_indices@.contains(j as usize) by {
                assert(adj@[v]@.contains(j as usize));
            }
            assert forall|k1: int, k2: int|
                0 <= k1 < k2 < t.face_indices@.len() implies (#[trigger] t.face_indices@[k1]) < (
            #[trigger] t.face_indices@[k2]) by {
                assert((adj@[v]@[k1]) < (adj@[v]@[k2]));
            }
        }
    }
    Ok(GeodesicSphere { vertices: builder.vertices, faces, tiles })
}

/// The packed cache key for the unordered pair of vertex indices.
fn edge_key(p1: usize, p2: usize) -> (k: u64)
    requires
        (p1 as int) < 0x1_0000_0000,
        (p2 as int) < 0x1_0000_0000,
    ensures
        k == edge_key_of(p1 as int, p2 as int),
{
    let (a, b) = if p1 <= p2 {
        (p1, p2)
    } else {
        (p2, p1)
    };
    (a as u64) * 0x1_0000_0000u64 + (b as u64)
}

} // verus!
