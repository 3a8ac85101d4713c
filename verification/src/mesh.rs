use vstd::prelude::*;

use crate::color::Color;

verus! {

/// How a mesh is drawn. The lighting direction of `SolidLightDir` is used
/// where face colours are computed, before primitives are assembled.
#[derive(Clone, Copy, Debug, PartialEq, Eq, Structural)]
pub enum RenderMode {
    Points,
    Lines,
    Solid,
    SolidLightDir,
}

/// The index structure of a mesh: how many vertices and normals it has, its
/// triangular faces and its lines as indices into the vertices, and the
/// per-vertex colours, if any.
pub struct Geometry {
    pub vertex_count: usize,
    pub faces: Vec<[usize; 3]>,
    pub colors: Vec<Color>,
    pub lines: Vec<[usize; 2]>,
    pub normal_count: usize,
}

/// Every face index names one of `vertex_count` vertices.
pub open spec fn faces_in_range(vertex_count: nat, faces: Seq<[usize; 3]>) -> bool {
    forall|i: int|
        0 <= i < faces.len() ==> #[trigger] faces[i][0] < vertex_count && faces[i][1]
            < vertex_count && faces[i][2] < vertex_count
}

/// Every line index names one of `vertex_count` vertices.
pub open spec fn lines_in_range(vertex_count: nat, lines: Seq<[usize; 2]>) -> bool {
    forall|i: int|
        0 <= i < lines.len() ==> #[trigger] lines[i][0] < vertex_count && lines[i][1]
            < vertex_count
}

/// A geometry is valid when it has vertices, every face and line index
/// names one of them, and there are either no colours or one per vertex.
pub open spec fn geometry_valid(
    vertex_count: nat,
    faces: Seq<[usize; 3]>,
    colors_len: nat,
    lines: Seq<[usize; 2]>,
) -> bool {
    &&& vertex_count > 0
    &&& faces_in_range(vertex_count, faces)
    &&& lines_in_range(vertex_count, lines)
    &&& (colors_len == 0 || colors_len == vertex_count)
}

/// The first thing wrong with a geometry, in the order in which it is
/// checked.
#[derive(Clone, Copy, Debug, PartialEq, Eq, Structural)]
pub enum GeometryFault {
    /// There are no vertices.
    NoVertices,
    /// A face names a vertex that does not exist.
    FaceOutOfBounds,
    /// A line names a vertex that does not exist.
    LineOutOfBounds,
    /// There are colours, but not one per vertex.
    ColorCountMismatch,
}

/// An edge with its smaller index first.
pub open spec fn ordered_edge(a: usize, b: usize) -> (usize, usize) {
    if a < b {
        (a, b)
    } else {
        (b, a)
    }
}

/// The three edges of a face, each with its smaller index first.
pub open spec fn face_edges(f: [usize; 3]) -> Seq<(usize, usize)> {
    seq![ordered_edge(f[0], f[1]), ordered_edge(f[1], f[2]), ordered_edge(f[2], f[0])]
}

/// The edges of all faces, face after face.
pub open spec fn all_edges(faces: Seq<[usize; 3]>) -> Seq<(usize, usize)>
    decreases faces.len(),
{
    if faces.len() == 0 {
        Seq::empty()
    } else {
        all_edges(faces.drop_last()) + face_edges(faces.last())
    }
}

/// The elements of a sequence without repeats, each where it first occurs.
pub open spec fn dedup<A>(s: Seq<A>) -> Seq<A>
    decreases s.len(),
{
    if s.len() == 0 {
        s
    } else {
        let d = dedup(s.drop_last());
        if d.contains(s.last()) {
            d
        } else {
            d.push(s.last())
        }
    }
}

impl Geometry {
    pub open spec fn valid(&self) -> bool {
        geometry_valid(
            self.vertex_count as nat,
            self.faces@,
            self.colors@.len(),
            self.lines@,
        )
    }

    /// The first fault of the geometry, checking in this order: that it has
    /// vertices, that face indices are in range, that line indices are in
    /// range, and that colours are absent or one per vertex; `None` when it
    /// is valid.
    pub fn fault(&self) -> (f: Option<GeometryFault>)
        ensures
            f == Some(GeometryFault::NoVertices) <==> self.vertex_count == 0,
            f == Some(GeometryFault::FaceOutOfBounds) <==> self.vertex_count > 0
                && !faces_in_range(self.vertex_count as nat, self.faces@),
            f == Some(GeometryFault::LineOutOfBounds) <==> self.vertex_count > 0
                && faces_in_range(self.vertex_count as nat, self.faces@)
                && !lines_in_range(self.vertex_count as nat, self.lines@),
            f == Some(GeometryFault::ColorCountMismatch) <==> self.vertex_count > 0
                && faces_in_range(self.vertex_count as nat, self.faces@)
                && lines_in_range(self.vertex_count as nat, self.lines@)
                && self.colors@.len() != 0 && self.colors@.len() != self.vertex_count,
            f is None <==> self.valid(),
    {
        if self.vertex_count == 0 {
            return Some(GeometryFault::NoVertices);
        }
        let mut i: usize = 0;
        while i < self.faces.len()
            invariant
                0 <= i <= self.faces@.len(),
                self.vertex_count > 0,
                forall|j: int|
                    0 <= j < i ==> #[trigger] self.faces@[j][0] < self.vertex_count
                        && self.faces@[j][1] < self.vertex_count && self.faces@[j][2]
                        < self.vertex_count,
            decreases self.faces@.len() - i,
        {
            let face = self.faces[i];
            if face[0] >= self.vertex_count || face[1] >= self.vertex_count || face[2]
                >= self.vertex_count {
                assert(!faces_in_range(self.vertex_count as nat, self.faces@)) by {
                    assert(self.faces@[i as int] == face);
                }
                return Some(GeometryFault::FaceOutOfBounds);
            }
            i = i + 1;
        }
        let mut i: usize = 0;
        while i < self.lines.len()
            invariant
                0 <= i <= self.lines@.len(),
                self.vertex_count > 0,
                faces_in_range(self.vertex_count as nat, self.faces@),
                forall|j: int|
                    0 <= j < i ==> #[trigger] self.lines@[j][0] < self.vertex_count
                        && self.lines@[j][1] < self.vertex_count,
            decreases self.lines@.len() - i,
        {
            let line = self.lines[i];
            if line[0] >= self.vertex_count || line[1] >= self.vertex_count {
                assert(!lines_in_range(self.vertex_count as nat, self.lines@)) by {
                    assert(self.lines@[i as int] == line);
                }
                return Some(GeometryFault::LineOutOfBounds);
            }
            i = i + 1;
        }
        if self.colors.len() != 0 && self.colors.len() != self.vertex_count {
            return Some(GeometryFault::ColorCountMismatch);
        }
        None
    }

    /// Whether the geometry is valid: it has vertices, all face and line
    /// indices are in range, and colours are absent or one per vertex.
    pub fn check_validity(&self) -> (ok: bool)
        ensures
            ok == self.valid(),
            ok <==> names_existing_vertices(self),
    {
        proof {
            law_valid_names_existing_vertices(self);
        }
        match self.fault() {
            None => true,
            Some(_) => false,
        }
    }

    /// The distinct edges of the faces, each with its smaller index first,
    /// in the order in which they first occur.
    pub fn lines_from_faces(faces: &[[usize; 3]]) -> (lines: Vec<(usize, usize)>)
        ensures
            lines@ == dedup(all_edges(faces@)),
    {
        let mut lines: Vec<(usize, usize)> = Vec::new();
        let mut i: usize = 0;
        while i < faces.len()
            invariant
                0 <= i <= faces@.len(),
                lines@ == dedup(all_edges(faces@.take(i as int))),
            decreases faces@.len() - i,
        {
            let face = faces[i];
            let edges = [(face[0], face[1]), (face[1], face[2]), (face[2], face[0])];
            let mut k: usize = 0;
            while k < 3
                invariant
                    0 <= k <= 3,
                    i < faces@.len(),
                    face == faces@[i as int],
                    edges@ == seq![(face[0], face[1]), (face[1], face[2]), (face[2], face[0])],
                    lines@ == dedup(
                        all_edges(faces@.take(i as int)) + face_edges(face).take(k as int),
                    ),
                decreases 3 - k,
            {
                let line = edges[k];
                let e = if line.0 < line.1 {
                    (line.0, line.1)
                } else {
                    (line.1, line.0)
                };
                let ghost before = all_edges(faces@.take(i as int)) + face_edges(face).take(
                    k as int,
                );
                proof {
                    assert(e == face_edges(face)[k as int]);
                    assert(all_edges(faces@.take(i as int)) + face_edges(face).take(k + 1)
                        == before.push(e));
                    assert(before.push(e).drop_last() == before);
                }
                if !contains_edge(&lines, e) {
                    lines.push(e);
                }
                k = k + 1;
            }
            proof {
                assert(face_edges(face).take(3) == face_edges(face));
                assert(faces@.take(i + 1).drop_last() == faces@.take(i as int));
            }
            i = i + 1;
        }
        proof {
            assert(faces@.take(faces@.len() as int) == faces@);
        }
        lines
    }
}

/// Whether the edge occurs in the list.
fn contains_edge(lines: &Vec<(usize, usize)>, e: (usize, usize)) -> (found: bool)
    ensures
        found == lines@.contains(e),
{
    let mut i: usize = 0;
    while i < lines.len()
        invariant
            0 <= i <= lines@.len(),
            forall|j: int| 0 <= j < i ==> lines@[j] != e,
        decreases lines@.len() - i,
    {
        let l = lines[i];
        if l.0 == e.0 && l.1 == e.1 {
            assert(lines@[i as int] == e);
            return true;
        }
        i = i + 1;
    }
    false
}

/// Removing repeats keeps exactly the elements of the sequence, each once.
pub proof fn lemma_dedup<A>(s: Seq<A>)
    ensures
        dedup(s).no_duplicates(),
        forall|x: A| dedup(s).contains(x) <==> s.contains(x),
    decreases s.len(),
{
    if s.len() > 0 {
        let init = s.drop_last();
        lemma_dedup(init);
        let d = dedup(init);
        assert forall|x: A| dedup(s).contains(x) <==> s.contains(x) by {
            if s.contains(x) {
                let j = choose|j: int| 0 <= j < s.len() && s[j] == x;
                if j < s.len() - 1 {
                    assert(init[j] == x);
                    assert(init.contains(x));
                    assert(d.contains(x));
                    if !d.contains(s.last()) {
                        let k = choose|k: int| 0 <= k < d.len() && d[k] == x;
                        assert(d.push(s.last())[k] == x);
                    }
                } else if !d.contains(x) {
                    assert(d.push(x)[d.len() as int] == x);
                }
            }
            if dedup(s).contains(x) {
                if d.contains(x) {
                    assert(init.contains(x));
                    let j = choose|j: int| 0 <= j < init.len() && init[j] == x;
                    assert(s[j] == x);
                } else {
                    let j = choose|j: int| 0 <= j < dedup(s).len() && dedup(s)[j] == x;
                    assert(j == d.len());
                    assert(s[s.len() - 1] == x);
                }
            }
        }
    }
}

/// The lines derived from faces hold every face edge exactly once, each
/// with its smaller index first, and nothing else.
pub proof fn law_lines_from_faces(faces: Seq<[usize; 3]>)
    ensures
        dedup(all_edges(faces)).no_duplicates(),
        forall|e: (usize, usize)|
            dedup(all_edges(faces)).contains(e) <==> all_edges(faces).contains(e),
        forall|i: int|
            0 <= i < dedup(all_edges(faces)).len() ==> #[trigger] dedup(all_edges(faces))[i].0
                <= dedup(all_edges(faces))[i].1,
{
    let d = dedup(all_edges(faces));
    lemma_dedup(all_edges(faces));
    lemma_all_edges_ordered(faces);
    assert forall|i: int| 0 <= i < d.len() implies #[trigger] d[i].0 <= d[i].1 by {
        assert(d.contains(d[i]));
        assert(all_edges(faces).contains(d[i]));
    }
}

/// Every edge of the faces has its smaller index first.
proof fn lemma_all_edges_ordered(faces: Seq<[usize; 3]>)
    ensures
        forall|e: (usize, usize)| all_edges(faces).contains(e) ==> e.0 <= e.1,
    decreases faces.len(),
{
    if faces.len() > 0 {
        lemma_all_edges_ordered(faces.drop_last());
        let prev = all_edges(faces.drop_last());
        let fe = face_edges(faces.last());
        assert(fe[0].0 <= fe[0].1 && fe[1].0 <= fe[1].1 && fe[2].0 <= fe[2].1);
        assert(all_edges(faces) == prev + fe);
        assert forall|e: (usize, usize)| all_edges(faces).contains(e) implies e.0 <= e.1 by {
            let j = choose|j: int| 0 <= j < (prev + fe).len() && (prev + fe)[j] == e;
            if j < prev.len() {
                assert(prev[j] == e);
                assert(prev.contains(e));
            } else {
                assert(fe[j - prev.len()] == e);
            }
        }
    }
}

/// A geometry has vertices, every corner of every face and both ends of
/// every line name one of them, and its colours are absent or one per
/// vertex.
pub open spec fn names_existing_vertices(g: &Geometry) -> bool {
    &&& g.vertex_count > 0
    &&& forall|i: int, k: int|
        0 <= i < g.faces@.len() && 0 <= k < 3 ==> #[trigger] g.faces@[i][k] < g.vertex_count
    &&& forall|i: int, k: int|
        0 <= i < g.lines@.len() && 0 <= k < 2 ==> #[trigger] g.lines@[i][k] < g.vertex_count
    &&& (g.colors@.len() == 0 || g.colors@.len() == g.vertex_count)
}

/// A geometry is valid exactly when it has vertices, every corner of every
/// face (the first included) and both ends of every line name an existing
/// vertex, and its colours are absent or one per vertex.
pub proof fn law_valid_names_existing_vertices(g: &Geometry)
    ensures
        g.valid() <==> names_existing_vertices(g),
{
    let vc = g.vertex_count;
    if g.valid() {
        assert forall|i: int, k: int| 0 <= i < g.faces@.len() && 0 <= k < 3 implies #[trigger] g.faces@[i][k]
            < vc by {
            assert(g.faces@[i][0] < vc && g.faces@[i][1] < vc && g.faces@[i][2] < vc);
        }
        assert forall|i: int, k: int| 0 <= i < g.lines@.len() && 0 <= k < 2 implies #[trigger] g.lines@[i][k]
            < vc by {
            assert(g.lines@[i][0] < vc && g.lines@[i][1] < vc);
        }
    }
    if names_existing_vertices(g) {
        assert forall|i: int| 0 <= i < g.faces@.len() implies #[trigger] g.faces@[i][0] < vc
            && g.faces@[i][1] < vc && g.faces@[i][2] < vc by {
            assert(g.faces@[i][0] < vc);
            assert(g.faces@[i][1] < vc);
            assert(g.faces@[i][2] < vc);
        }
        assert forall|i: int| 0 <= i < g.lines@.len() implies #[trigger] g.lines@[i][0] < vc
            && g.lines@[i][1] < vc by {
            assert(g.lines@[i][0] < vc);
            assert(g.lines@[i][1] < vc);
        }
    }
}

} // verus!
