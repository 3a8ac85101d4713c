//! A small software rasteriser for DRM framebuffers: pixel storage in
//! DMA-ready framebuffers, double buffering, primitive rasterisation and
//! assembly of the primitives that a mesh produces.

use vstd::prelude::*;

pub mod color;
pub mod doublebuffer;
pub mod draw;
pub mod drm_render_target;
pub mod framebuffer;
pub mod mesh;

use crate::color::Color;
use crate::mesh::{Geometry, RenderMode};

verus! {

/// A point on the screen, in pixels; `y` grows downwards.
#[derive(Clone, Copy, Debug, PartialEq, Eq, Structural)]
pub struct Point {
    pub x: i32,
    pub y: i32,
}

impl Point {
    pub fn new(x: i32, y: i32) -> (p: Point)
        ensures
            p == (Point { x, y }),
    {
        Point { x, y }
    }
}

/// One pixel to draw: where, and in which colour.
#[derive(Clone, Copy, Debug, PartialEq, Eq, Structural)]
pub struct Pixel {
    pub point: Point,
    pub color: Color,
}

/// What the engine hands to the drawing code.
#[derive(Clone, Copy, Debug, PartialEq, Eq)]
pub enum DrawPrimitive {
    ColoredPoint(Point, Color),
    Line([Point; 2], Color),
    ColoredTriangle([Point; 3], Color),
}

/// What the floating-point stage of rendering found for one mesh, handed
/// on as plain values: the screen position of each vertex (`None` when the
/// vertex lies behind the camera or outside the near and far planes), and,
/// for each face that has a normal, whether the back-face test keeps it
/// (`front_facing`) and its lit colour.
pub struct Projection {
    pub points: Vec<Option<Point>>,
    pub front_facing: Vec<bool>,
    pub face_colors: Vec<Color>,
}

/// How many faces, from the first, a mode reads.
pub open spec fn faces_read(mode: RenderMode, g: &Geometry) -> nat {
    match mode {
        RenderMode::Points => 0,
        RenderMode::Lines => if g.lines@.len() > 0 {
            0
        } else {
            g.faces@.len()
        },
        RenderMode::Solid => if g.normal_count == 0 {
            g.faces@.len()
        } else {
            paired_faces(g)
        },
        RenderMode::SolidLightDir => paired_faces(g),
    }
}

/// How many lines, from the first, a mode reads.
pub open spec fn lines_read(mode: RenderMode, g: &Geometry) -> nat {
    match mode {
        RenderMode::Lines => g.lines@.len(),
        _ => 0,
    }
}

/// Whether a mode skips faces that the back-face test drops.
pub open spec fn culls(mode: RenderMode, g: &Geometry) -> bool {
    match mode {
        RenderMode::Solid => g.normal_count != 0,
        RenderMode::SolidLightDir => true,
        _ => false,
    }
}

/// Projecting a face reads its corners one at a time and stops at the first
/// that does not project: the first corner always names a vertex, a later
/// one needs to only when the corners before it projected.
pub open spec fn face_reads_ok(f: [usize; 3], pts: Seq<Option<Point>>) -> bool {
    &&& f[0] < pts.len()
    &&& pts[f[0] as int] is Some ==> f[1] < pts.len()
    &&& (pts[f[0] as int] is Some && pts[f[1] as int] is Some) ==> f[2] < pts.len()
}

/// Projecting a line reads its first end, and its second end only when the
/// first projected.
pub open spec fn line_reads_ok(l: [usize; 2], pts: Seq<Option<Point>>) -> bool {
    &&& l[0] < pts.len()
    &&& pts[l[0] as int] is Some ==> l[1] < pts.len()
}

/// Every vertex index that the mode reads names an existing vertex: the
/// corners of each face it projects (not those of a face the back-face test
/// drops), and the ends of each line. A mesh without vertices reads nothing.
pub open spec fn indices_ok(mode: RenderMode, g: &Geometry, proj: &Projection) -> bool {
    g.vertex_count == 0 || {
        &&& forall|i: int|
            0 <= i < faces_read(mode, g) ==> (culls(mode, g) && !proj.front_facing@[i])
                || face_reads_ok(#[trigger] g.faces@[i], proj.points@)
        &&& forall|i: int|
            0 <= i < lines_read(mode, g) ==> line_reads_ok(#[trigger] g.lines@[i], proj.points@)
    }
}

/// The projected vertices, in order, skipping those that did not project.
pub open spec fn visible_points(pts: Seq<Option<Point>>) -> Seq<Point>
    decreases pts.len(),
{
    if pts.len() == 0 {
        Seq::empty()
    } else {
        let v = visible_points(pts.drop_last());
        match pts.last() {
            Some(p) => v.push(p),
            None => v,
        }
    }
}

/// Whether all the given vertices projected.
pub open spec fn all_projected(pts: Seq<Option<Point>>, a: usize, b: usize, c: usize) -> bool {
    pts[a as int] is Some && pts[b as int] is Some && pts[c as int] is Some
}

/// The line between two vertices, if both projected.
pub open spec fn line_prim(l: [usize; 2], pts: Seq<Option<Point>>, c: Color) -> Seq<DrawPrimitive> {
    if pts[l[0] as int] is Some && pts[l[1] as int] is Some {
        seq![DrawPrimitive::Line([pts[l[0] as int]->0, pts[l[1] as int]->0], c)]
    } else {
        Seq::empty()
    }
}

/// The three edges of a face, if all its vertices projected.
pub open spec fn outline_prim(f: [usize; 3], pts: Seq<Option<Point>>, c: Color) -> Seq<DrawPrimitive> {
    if all_projected(pts, f[0], f[1], f[2]) {
        let (p1, p2, p3) = (pts[f[0] as int]->0, pts[f[1] as int]->0, pts[f[2] as int]->0);
        seq![
            DrawPrimitive::Line([p1, p2], c),
            DrawPrimitive::Line([p2, p3], c),
            DrawPrimitive::Line([p3, p1], c),
        ]
    } else {
        Seq::empty()
    }
}

/// The filled face, if all its vertices projected.
pub open spec fn triangle_prim(f: [usize; 3], pts: Seq<Option<Point>>, c: Color) -> Seq<DrawPrimitive> {
    if all_projected(pts, f[0], f[1], f[2]) {
        seq![
            DrawPrimitive::ColoredTriangle(
                [pts[f[0] as int]->0, pts[f[1] as int]->0, pts[f[2] as int]->0],
                c,
            ),
        ]
    } else {
        Seq::empty()
    }
}

/// The lines of the first `n` line entries.
pub open spec fn line_prims(lines: Seq<[usize; 2]>, pts: Seq<Option<Point>>, c: Color, n: nat) -> Seq<
    DrawPrimitive,
>
    decreases n,
{
    if n == 0 {
        Seq::empty()
    } else {
        line_prims(lines, pts, c, (n - 1) as nat) + line_prim(lines[n - 1], pts, c)
    }
}

/// The outlines of the first `n` faces.
pub open spec fn outline_prims(faces: Seq<[usize; 3]>, pts: Seq<Option<Point>>, c: Color, n: nat) -> Seq<
    DrawPrimitive,
>
    decreases n,
{
    if n == 0 {
        Seq::empty()
    } else {
        outline_prims(faces, pts, c, (n - 1) as nat) + outline_prim(faces[n - 1], pts, c)
    }
}

/// The filled first `n` faces, skipping those that the back-face test
/// drops when `cull` is set, each in colour `colors[i]` when `lit` is set and in
/// `c` otherwise.
pub open spec fn face_prims(
    faces: Seq<[usize; 3]>,
    pts: Seq<Option<Point>>,
    cull: bool,
    front: Seq<bool>,
    lit: bool,
    colors: Seq<Color>,
    c: Color,
    n: nat,
) -> Seq<DrawPrimitive>
    decreases n,
{
    if n == 0 {
        Seq::empty()
    } else {
        let i = n - 1;
        let prev = face_prims(faces, pts, cull, front, lit, colors, c, (n - 1) as nat);
        if cull && !front[i] {
            prev
        } else {
            prev + triangle_prim(faces[i], pts, if lit { colors[i] } else { c })
        }
    }
}

/// The number of faces that have a normal.
pub open spec fn paired_faces(g: &Geometry) -> nat {
    if g.faces@.len() <= g.normal_count {
        g.faces@.len()
    } else {
        g.normal_count as nat
    }
}

/// A projection fits a geometry: one position per vertex, and one facing
/// flag and one colour per face that has a normal.
pub open spec fn projection_fits(g: &Geometry, proj: &Projection) -> bool {
    &&& proj.points@.len() == g.vertex_count
    &&& proj.front_facing@.len() == paired_faces(g)
    &&& proj.face_colors@.len() == paired_faces(g)
}

/// The primitives that a mesh produces, in order:
/// - `Points`: one point per projected vertex, coloured by the per-vertex
///   colours taken in turn when there is one per vertex, by the mesh colour
///   otherwise;
/// - `Lines`: the lines whose ends projected, or, when there are no lines,
///   the edges of each face whose vertices projected;
/// - `Solid`: each face whose vertices projected, in the mesh colour; when
///   there are normals only the faces paired with one, and only those that
///   the back-face test keeps;
/// - `SolidLightDir`: each face paired with a normal that the back-face test
///   keeps and whose vertices projected, in its lit colour.
/// A mesh without vertices produces nothing.
pub open spec fn mesh_primitives_spec(
    mode: RenderMode,
    g: &Geometry,
    color: Color,
    proj: &Projection,
) -> Seq<DrawPrimitive> {
    let pts = proj.points@;
    if g.vertex_count == 0 {
        Seq::empty()
    } else {
        match mode {
            RenderMode::Points => {
                let vis = visible_points(pts);
                let per_vertex = g.colors@.len() == g.vertex_count;
                Seq::new(
                    vis.len(),
                    |j: int|
                        DrawPrimitive::ColoredPoint(
                            vis[j],
                            if per_vertex { g.colors@[j] } else { color },
                        ),
                )
            },
            RenderMode::Lines => {
                if g.lines@.len() > 0 {
                    line_prims(g.lines@, pts, color, g.lines@.len())
                } else {
                    outline_prims(g.faces@, pts, color, g.faces@.len())
                }
            },
            RenderMode::Solid => {
                if g.normal_count == 0 {
                    face_prims(g.faces@, pts, false, proj.front_facing@, false, proj.face_colors@, color, g.faces@.len())
                } else {
                    face_prims(g.faces@, pts, true, proj.front_facing@, false, proj.face_colors@, color, paired_faces(g))
                }
            },
            RenderMode::SolidLightDir => face_prims(
                g.faces@,
                pts,
                true,
                proj.front_facing@,
                true,
                proj.face_colors@,
                color,
                paired_faces(g),
            ),
        }
    }
}

/// The projected point of a vertex, which must exist.
fn point_of(pts: &Vec<Option<Point>>, i: usize) -> (p: Point)
    requires
        i < pts@.len(),
        pts@[i as int] is Some,
    ensures
        p == pts@[i as int]->0,
{
    match pts[i] {
        Some(p) => p,
        None => Point { x: 0, y: 0 },
    }
}

/// Whether a vertex projected.
fn projected(pts: &Vec<Option<Point>>, i: usize) -> (b: bool)
    requires
        i < pts@.len(),
    ensures
        b == pts@[i as int] is Some,
{
    pts[i].is_some()
}

/// The primitives that one mesh produces, given what the floating-point
/// stage found for its vertices and faces.
pub fn mesh_primitives(mode: RenderMode, geometry: &Geometry, color: Color, projection: &Projection) -> (prims: Vec<DrawPrimitive>)
    requires
        indices_ok(mode, geometry, projection),
        projection_fits(geometry, projection),
    ensures
        prims@ == mesh_primitives_spec(mode, geometry, color, projection),
{
    let pts = &projection.points;
    let mut out: Vec<DrawPrimitive> = Vec::new();
    if geometry.vertex_count == 0 {
        return out;
    }
    let faces = &geometry.faces;
    let m: usize = if faces.len() <= geometry.normal_count { faces.len() } else { geometry.normal_count };
    match mode {
        RenderMode::Points => {
            let per_vertex = geometry.colors.len() == geometry.vertex_count;
            let ghost colors = geometry.colors@;
            let mut i: usize = 0;
            let mut k: usize = 0;
            while i < pts.len()
                invariant
                    0 <= i <= pts@.len(),
                    pts@.len() == geometry.vertex_count,
                    per_vertex == (geometry.colors@.len() == geometry.vertex_count),
                    k == visible_points(pts@.take(i as int)).len(),
                    k <= i,
                    out@ == Seq::new(
                        k as nat,
                        |j: int|
                            DrawPrimitive::ColoredPoint(
                                visible_points(pts@.take(i as int))[j],
                                if per_vertex { geometry.colors@[j] } else { color },
                            ),
                    ),
                decreases pts@.len() - i,
            {
                proof {
                    assert(pts@.take(i + 1).drop_last() == pts@.take(i as int));
                    assert(pts@.take(i + 1).last() == pts@[i as int]);
                }
                if projected(pts, i) {
                    let p = point_of(pts, i);
                    let c = if per_vertex { geometry.colors[k] } else { color };
                    out.push(DrawPrimitive::ColoredPoint(p, c));
                    k = k + 1;
                }
                i = i + 1;
                proof {
                    assert(out@ =~= Seq::new(
                        k as nat,
                        |j: int|
                            DrawPrimitive::ColoredPoint(
                                visible_points(pts@.take(i as int))[j],
                                if per_vertex { geometry.colors@[j] } else { color },
                            ),
                    ));
                }
            }
            proof {
                assert(pts@.take(pts@.len() as int) == pts@);
            }
        },
        RenderMode::Lines => {
            let lines = &geometry.lines;
            if lines.len() > 0 {
                let mut i: usize = 0;
                while i < lines.len()
                    invariant
                        0 <= i <= lines@.len(),
                        indices_ok(mode, geometry, projection),
                        mode == RenderMode::Lines,
                        geometry.vertex_count > 0,
                        pts == &projection.points,
                        pts@.len() == geometry.vertex_count,
                        lines == &geometry.lines,
                        out@ == line_prims(lines@, pts@, color, i as nat),
                    decreases lines@.len() - i,
                {
                    let l = lines[i];
                    assert(line_reads_ok(geometry.lines@[i as int], pts@));
                    if projected(pts, l[0]) && projected(pts, l[1]) {
                        let a = point_of(pts, l[0]);
                        let b = point_of(pts, l[1]);
                        out.push(DrawPrimitive::Line([a, b], color));
                    }
                    i = i + 1;
                }
            } else {
                let mut i: usize = 0;
                while i < faces.len()
                    invariant
                        0 <= i <= faces@.len(),
                        indices_ok(mode, geometry, projection),
                        mode == RenderMode::Lines,
                        pts == &projection.points,
                        geometry.lines@.len() == 0,
                        geometry.vertex_count > 0,
                        pts@.len() == geometry.vertex_count,
                        faces == &geometry.faces,
                        out@ == outline_prims(faces@, pts@, color, i as nat),
                    decreases faces@.len() - i,
                {
                    let f = faces[i];
                    assert(face_reads_ok(geometry.faces@[i as int], pts@));
                    if projected(pts, f[0]) && projected(pts, f[1]) && projected(pts, f[2]) {
                        let p1 = point_of(pts, f[0]);
                        let p2 = point_of(pts, f[1]);
                        let p3 = point_of(pts, f[2]);
                        out.push(DrawPrimitive::Line([p1, p2], color));
                        out.push(DrawPrimitive::Line([p2, p3], color));
                        out.push(DrawPrimitive::Line([p3, p1], color));
                    }
                    i = i + 1;
                }
            }
        },
        RenderMode::Solid => {
            let cull = geometry.normal_count != 0;
            let n = if cull { m } else { faces.len() };
            out = face_primitives(faces, pts, cull, &projection.front_facing, false, &projection.face_colors, color, n, geometry.vertex_count);
        },
        RenderMode::SolidLightDir => {
            out = face_primitives(faces, pts, true, &projection.front_facing, true, &projection.face_colors, color, m, geometry.vertex_count);
        },
    }
    out
}

/// Whether a face's corners, read one at a time until one does not
/// project, all name existing vertices.
fn face_reads_in_range(f: [usize; 3], pts: &Vec<Option<Point>>) -> (ok: bool)
    ensures
        ok == face_reads_ok(f, pts@),
{
    let n = pts.len();
    if f[0] >= n {
        return false;
    }
    if !projected(pts, f[0]) {
        return true;
    }
    if f[1] >= n {
        return false;
    }
    if !projected(pts, f[1]) {
        return true;
    }
    f[2] < n
}

/// Whether a line's ends, read until one does not project, name existing
/// vertices.
fn line_reads_in_range(l: [usize; 2], pts: &Vec<Option<Point>>) -> (ok: bool)
    ensures
        ok == line_reads_ok(l, pts@),
{
    let n = pts.len();
    if l[0] >= n {
        return false;
    }
    if !projected(pts, l[0]) {
        return true;
    }
    l[1] < n
}

/// Whether every vertex index that the mode reads names an existing vertex.
pub fn indices_in_range(mode: RenderMode, geometry: &Geometry, projection: &Projection) -> (ok: bool)
    requires
        projection_fits(geometry, projection),
    ensures
        ok == indices_ok(mode, geometry, projection),
{
    if geometry.vertex_count == 0 {
        return true;
    }
    let pts = &projection.points;
    let front = &projection.front_facing;
    let faces = &geometry.faces;
    let m: usize = if faces.len() <= geometry.normal_count { faces.len() } else { geometry.normal_count };
    let nf: usize = match mode {
        RenderMode::Points => 0,
        RenderMode::Lines => if geometry.lines.len() > 0 { 0 } else { faces.len() },
        RenderMode::Solid => if geometry.normal_count == 0 { faces.len() } else { m },
        RenderMode::SolidLightDir => m,
    };
    let cull: bool = match mode {
        RenderMode::Solid => geometry.normal_count != 0,
        RenderMode::SolidLightDir => true,
        _ => false,
    };
    let nl: usize = match mode {
        RenderMode::Lines => geometry.lines.len(),
        _ => 0,
    };
    let mut i: usize = 0;
    while i < nf
        invariant
            0 <= i <= nf,
            nf == faces_read(mode, geometry),
            cull == culls(mode, geometry),
            cull ==> nf <= front@.len(),
            geometry.vertex_count > 0,
            faces == &geometry.faces,
            pts == &projection.points,
            front == &projection.front_facing,
            forall|j: int|
                0 <= j < i ==> (cull && !front@[j]) || face_reads_ok(#[trigger] faces@[j], pts@),
        decreases nf - i,
    {
        let f = faces[i];
        let skip = cull && !front[i];
        if !skip && !face_reads_in_range(f, pts) {
            assert(faces@[i as int] == f);
            return false;
        }
        i = i + 1;
    }
    let lines = &geometry.lines;
    let mut i: usize = 0;
    while i < nl
        invariant
            0 <= i <= nl,
            nl == lines_read(mode, geometry),
            nf == faces_read(mode, geometry),
            cull == culls(mode, geometry),
            geometry.vertex_count > 0,
            lines == &geometry.lines,
            faces == &geometry.faces,
            pts == &projection.points,
            front == &projection.front_facing,
            forall|j: int|
                0 <= j < nf ==> (cull && !front@[j]) || face_reads_ok(#[trigger] faces@[j], pts@),
            forall|j: int| 0 <= j < i ==> line_reads_ok(#[trigger] lines@[j], pts@),
        decreases nl - i,
    {
        let l = lines[i];
        if !line_reads_in_range(l, pts) {
            assert(lines@[i as int] == l);
            return false;
        }
        i = i + 1;
    }
    true
}

/// The filled first `n` faces, as `face_prims` describes them.
fn face_primitives(
    faces: &Vec<[usize; 3]>,
    pts: &Vec<Option<Point>>,
    cull: bool,
    front: &Vec<bool>,
    lit: bool,
    colors: &Vec<Color>,
    color: Color,
    n: usize,
    vertex_count: usize,
) -> (out: Vec<DrawPrimitive>)
    requires
        n <= faces@.len(),
        pts@.len() == vertex_count,
        cull ==> n <= front@.len(),
        lit ==> n <= colors@.len(),
        forall|i: int| 0 <= i < n ==> (cull && !front@[i]) || face_reads_ok(#[trigger] faces@[i], pts@),
    ensures
        out@ == face_prims(faces@, pts@, cull, front@, lit, colors@, color, n as nat),
{
    let mut out: Vec<DrawPrimitive> = Vec::new();
    let mut i: usize = 0;
    while i < n
        invariant
            0 <= i <= n,
            n <= faces@.len(),
            pts@.len() == vertex_count,
            cull ==> n <= front@.len(),
            lit ==> n <= colors@.len(),
            forall|j: int| 0 <= j < n ==> (cull && !front@[j]) || face_reads_ok(#[trigger] faces@[j], pts@),
            out@ == face_prims(faces@, pts@, cull, front@, lit, colors@, color, i as nat),
        decreases n - i,
    {
        let f = faces[i];
        assert((cull && !front@[i as int]) || face_reads_ok(faces@[i as int], pts@));
        let skip = cull && !front[i];
        if !skip {
            if projected(pts, f[0]) && projected(pts, f[1]) && projected(pts, f[2]) {
                let p1 = point_of(pts, f[0]);
                let p2 = point_of(pts, f[1]);
                let p3 = point_of(pts, f[2]);
                let c = if lit { colors[i] } else { color };
                out.push(DrawPrimitive::ColoredTriangle([p1, p2, p3], c));
            }
        }
        i = i + 1;
    }
    out
}

/// The wireframe of a mesh draws three lines for every face that the
/// solid rendering (without culling) fills.
pub proof fn law_outline_three_lines_per_face(
    faces: Seq<[usize; 3]>,
    pts: Seq<Option<Point>>,
    front: Seq<bool>,
    colors: Seq<Color>,
    c: Color,
    n: nat,
)
    ensures
        outline_prims(faces, pts, c, n).len() == 3 * face_prims(faces, pts, false, front, false, colors, c, n).len(),
    decreases n,
{
    if n > 0 {
        law_outline_three_lines_per_face(faces, pts, front, colors, c, (n - 1) as nat);
    }
}

/// Culling only removes faces: with culling no more triangles are drawn
/// than without, and every triangle drawn without lighting carries the
/// mesh colour.
pub proof fn law_culling_only_removes(
    faces: Seq<[usize; 3]>,
    pts: Seq<Option<Point>>,
    front: Seq<bool>,
    colors: Seq<Color>,
    c: Color,
    n: nat,
)
    ensures
        face_prims(faces, pts, true, front, false, colors, c, n).len() <= face_prims(
            faces,
            pts,
            false,
            front,
            false,
            colors,
            c,
            n,
        ).len(),
        forall|j: int|
            0 <= j < face_prims(faces, pts, true, front, false, colors, c, n).len() ==> (
            #[trigger] face_prims(faces, pts, true, front, false, colors, c, n)[j] matches DrawPrimitive::ColoredTriangle(
                _,
                col,
            ) && col == c),
    decreases n,
{
    if n > 0 {
        law_culling_only_removes(faces, pts, front, colors, c, (n - 1) as nat);
        let prev = face_prims(faces, pts, true, front, false, colors, c, (n - 1) as nat);
        let cur = face_prims(faces, pts, true, front, false, colors, c, n);
        assert forall|j: int| 0 <= j < cur.len() implies (#[trigger] cur[j] matches DrawPrimitive::ColoredTriangle(
            _,
            col,
        ) && col == c) by {
            if j < prev.len() {
                assert(cur[j] == prev[j]);
            }
        }
    }
}

/// The filled triangle of face `f` in colour `c`, its corners being the
/// projected positions of the face's three vertices in order.
pub open spec fn face_triangle(f: [usize; 3], pts: Seq<Option<Point>>, c: Color) -> DrawPrimitive {
    DrawPrimitive::ColoredTriangle([pts[f[0] as int]->0, pts[f[1] as int]->0, pts[f[2] as int]->0], c)
}

/// Whether `prim` is the triangle of lit face `i` (one of the first `n`): a
/// face that faces the camera, whose three vertices projected, drawn in its
/// own colour `colors[i]`.
pub open spec fn is_lit_face_triangle(
    faces: Seq<[usize; 3]>,
    pts: Seq<Option<Point>>,
    front: Seq<bool>,
    colors: Seq<Color>,
    n: nat,
    i: int,
    prim: DrawPrimitive,
) -> bool {
    &&& 0 <= i < n
    &&& front[i]
    &&& pts[faces[i][0] as int] is Some
    &&& pts[faces[i][1] as int] is Some
    &&& pts[faces[i][2] as int] is Some
    &&& prim == face_triangle(faces[i], pts, colors[i])
}

/// Whether `prim` is the triangle of some lit face among the first `n`.
pub open spec fn from_lit_face(
    faces: Seq<[usize; 3]>,
    pts: Seq<Option<Point>>,
    front: Seq<bool>,
    colors: Seq<Color>,
    n: nat,
    prim: DrawPrimitive,
) -> bool {
    exists|i: int| #[trigger] is_lit_face_triangle(faces, pts, front, colors, n, i, prim)
}

/// Whether `a` and `b` are the triangles of two lit faces among the first
/// `n`, the face of `a` coming before the face of `b`.
pub open spec fn lit_faces_in_order(
    faces: Seq<[usize; 3]>,
    pts: Seq<Option<Point>>,
    front: Seq<bool>,
    colors: Seq<Color>,
    n: nat,
    a: DrawPrimitive,
    b: DrawPrimitive,
) -> bool {
    exists|i1: int, i2: int|
        i1 < i2 && #[trigger] is_lit_face_triangle(faces, pts, front, colors, n, i1, a)
            && #[trigger] is_lit_face_triangle(faces, pts, front, colors, n, i2, b)
}

/// With lighting, every triangle drawn is the triangle of one face that
/// faces the camera, in that face's own colour, every such face whose
/// vertices projected is drawn in its own colour, and the triangles come
/// out in the order of their faces.
pub proof fn lemma_lit_faces(
    faces: Seq<[usize; 3]>,
    pts: Seq<Option<Point>>,
    front: Seq<bool>,
    colors: Seq<Color>,
    c: Color,
    n: nat,
)
    ensures
        forall|j: int|
            0 <= j < face_prims(faces, pts, true, front, true, colors, c, n).len() ==> from_lit_face(
                faces,
                pts,
                front,
                colors,
                n,
                #[trigger] face_prims(faces, pts, true, front, true, colors, c, n)[j],
            ),
        forall|i: int|
            0 <= i < n && front[i] && #[trigger] all_projected(pts, faces[i][0], faces[i][1], faces[i][2])
                ==> face_prims(faces, pts, true, front, true, colors, c, n).contains(
                face_triangle(faces[i], pts, colors[i]),
            ),
        forall|j1: int, j2: int|
            0 <= j1 < j2 < face_prims(faces, pts, true, front, true, colors, c, n).len() ==> lit_faces_in_order(
                faces,
                pts,
                front,
                colors,
                n,
                #[trigger] face_prims(faces, pts, true, front, true, colors, c, n)[j1],
                #[trigger] face_prims(faces, pts, true, front, true, colors, c, n)[j2],
            ),
    decreases n,
{
    if n > 0 {
        lemma_lit_faces(faces, pts, front, colors, c, (n - 1) as nat);
        let prev = face_prims(faces, pts, true, front, true, colors, c, (n - 1) as nat);
        let out = face_prims(faces, pts, true, front, true, colors, c, n);
        let last = n - 1;
        assert forall|j: int| 0 <= j < out.len() implies from_lit_face(faces, pts, front, colors, n, #[trigger] out[j]) by {
            if j < prev.len() {
                assert(out[j] == prev[j]);
                assert(from_lit_face(faces, pts, front, colors, (n - 1) as nat, prev[j]));
                let i = choose|i: int| #[trigger] is_lit_face_triangle(faces, pts, front, colors, (n - 1) as nat, i, prev[j]);
                assert(is_lit_face_triangle(faces, pts, front, colors, n, i, out[j]));
            } else {
                assert(is_lit_face_triangle(faces, pts, front, colors, n, last, out[j]));
            }
        }
        assert forall|i: int|
            0 <= i < n && front[i] && #[trigger] all_projected(pts, faces[i][0], faces[i][1], faces[i][2])
                implies out.contains(face_triangle(faces[i], pts, colors[i])) by {
            if i < last {
                assert(prev.contains(face_triangle(faces[i], pts, colors[i])));
                let k = choose|k: int| 0 <= k < prev.len() && prev[k] == face_triangle(faces[i], pts, colors[i]);
                assert(out[k] == prev[k]);
            } else {
                assert(out[prev.len() as int] == face_triangle(faces[i], pts, colors[i]));
            }
        }
        let m = (n - 1) as nat;
        assert forall|j1: int, j2: int| 0 <= j1 < j2 < out.len() implies lit_faces_in_order(
            faces,
            pts,
            front,
            colors,
            n,
            #[trigger] out[j1],
            #[trigger] out[j2],
        ) by {
            assert(out[j1] == prev[j1]);
            if j2 < prev.len() {
                assert(out[j2] == prev[j2]);
                assert(lit_faces_in_order(faces, pts, front, colors, m, prev[j1], prev[j2]));
                let (i1, i2) = choose|i1: int, i2: int|
                    i1 < i2 && #[trigger] is_lit_face_triangle(faces, pts, front, colors, m, i1, prev[j1])
                        && #[trigger] is_lit_face_triangle(faces, pts, front, colors, m, i2, prev[j2]);
                assert(is_lit_face_triangle(faces, pts, front, colors, n, i1, out[j1]));
                assert(is_lit_face_triangle(faces, pts, front, colors, n, i2, out[j2]));
            } else {
                assert(from_lit_face(faces, pts, front, colors, m, prev[j1]));
                let i1 = choose|i: int| #[trigger] is_lit_face_triangle(faces, pts, front, colors, m, i, prev[j1]);
                assert(is_lit_face_triangle(faces, pts, front, colors, n, i1, out[j1]));
                assert(is_lit_face_triangle(faces, pts, front, colors, n, last, out[j2]));
            }
        }
    }
}

/// In the lit solid mode every triangle drawn belongs to one face paired
/// with a normal, faces the camera, and carries that face's own lit colour
/// `face_colors[i]`; every such face whose vertices projected is drawn in
/// its own colour; and the triangles come out in the order of their faces.
pub proof fn law_lit_faces_keep_their_colours(g: &Geometry, color: Color, proj: &Projection)
    requires
        g.vertex_count > 0,
    ensures
        forall|j: int|
            0 <= j < mesh_primitives_spec(RenderMode::SolidLightDir, g, color, proj).len() ==> from_lit_face(
                g.faces@,
                proj.points@,
                proj.front_facing@,
                proj.face_colors@,
                paired_faces(g),
                #[trigger] mesh_primitives_spec(RenderMode::SolidLightDir, g, color, proj)[j],
            ),
        forall|i: int|
            0 <= i < paired_faces(g) && proj.front_facing@[i] && #[trigger] all_projected(
                proj.points@,
                g.faces@[i][0],
                g.faces@[i][1],
                g.faces@[i][2],
            ) ==> mesh_primitives_spec(RenderMode::SolidLightDir, g, color, proj).contains(
                face_triangle(g.faces@[i], proj.points@, proj.face_colors@[i]),
            ),
        forall|j1: int, j2: int|
            0 <= j1 < j2 < mesh_primitives_spec(RenderMode::SolidLightDir, g, color, proj).len()
                ==> lit_faces_in_order(
                g.faces@,
                proj.points@,
                proj.front_facing@,
                proj.face_colors@,
                paired_faces(g),
                #[trigger] mesh_primitives_spec(RenderMode::SolidLightDir, g, color, proj)[j1],
                #[trigger] mesh_primitives_spec(RenderMode::SolidLightDir, g, color, proj)[j2],
            ),
{
    lemma_lit_faces(g.faces@, proj.points@, proj.front_facing@, proj.face_colors@, color, paired_faces(g));
}

/// Whether `p` is the projected position of vertex `v`.
pub open spec fn is_vertex_at(pts: Seq<Option<Point>>, v: int, p: Point) -> bool {
    0 <= v < pts.len() && pts[v] == Some(p)
}

/// Whether `p` is the projected position of some vertex.
pub open spec fn is_projected_vertex(pts: Seq<Option<Point>>, p: Point) -> bool {
    exists|v: int| #[trigger] is_vertex_at(pts, v, p)
}

/// Whether `p` and `q` are the projected positions of two vertices, the
/// vertex of `p` coming first.
pub open spec fn vertices_in_order(pts: Seq<Option<Point>>, p: Point, q: Point) -> bool {
    exists|v1: int, v2: int| v1 < v2 && #[trigger] is_vertex_at(pts, v1, p) && #[trigger] is_vertex_at(pts, v2, q)
}

/// The visible points are exactly the positions of the vertices that
/// projected, each vertex once, in vertex order.
pub proof fn lemma_visible_points(pts: Seq<Option<Point>>)
    ensures
        forall|j: int|
            0 <= j < visible_points(pts).len() ==> is_projected_vertex(pts, #[trigger] visible_points(pts)[j]),
        forall|v: int| 0 <= v < pts.len() && #[trigger] pts[v] is Some ==> visible_points(pts).contains(pts[v]->0),
        forall|j1: int, j2: int|
            0 <= j1 < j2 < visible_points(pts).len() ==> vertices_in_order(
                pts,
                #[trigger] visible_points(pts)[j1],
                #[trigger] visible_points(pts)[j2],
            ),
    decreases pts.len(),
{
    if pts.len() > 0 {
        let init = pts.drop_last();
        lemma_visible_points(init);
        let prev = visible_points(init);
        let vis = visible_points(pts);
        let last = pts.len() - 1;
        assert forall|v: int| 0 <= v < init.len() && #[trigger] init[v] is Some implies pts[v] == init[v] by {}
        assert forall|j: int| 0 <= j < vis.len() implies is_projected_vertex(pts, #[trigger] vis[j]) by {
            if j < prev.len() {
                assert(vis[j] == prev[j]);
                assert(is_projected_vertex(init, prev[j]));
                let v = choose|v: int| #[trigger] is_vertex_at(init, v, prev[j]);
                assert(is_vertex_at(pts, v, vis[j]));
            } else {
                assert(is_vertex_at(pts, last, vis[j]));
            }
        }
        assert forall|v: int| 0 <= v < pts.len() && #[trigger] pts[v] is Some implies vis.contains(pts[v]->0) by {
            if v < last {
                assert(init[v] == pts[v]);
                assert(prev.contains(init[v]->0));
                let k = choose|k: int| 0 <= k < prev.len() && prev[k] == init[v]->0;
                assert(vis[k] == prev[k]);
            } else {
                assert(vis[prev.len() as int] == pts[v]->0);
            }
        }
        assert forall|j1: int, j2: int| 0 <= j1 < j2 < vis.len() implies vertices_in_order(
            pts,
            #[trigger] vis[j1],
            #[trigger] vis[j2],
        ) by {
            assert(vis[j1] == prev[j1]);
            if j2 < prev.len() {
                assert(vis[j2] == prev[j2]);
                assert(vertices_in_order(init, prev[j1], prev[j2]));
                let (v1, v2) = choose|v1: int, v2: int|
                    v1 < v2 && #[trigger] is_vertex_at(init, v1, prev[j1]) && #[trigger] is_vertex_at(init, v2, prev[j2]);
                assert(is_vertex_at(pts, v1, vis[j1]));
                assert(is_vertex_at(pts, v2, vis[j2]));
            } else {
                let v1 = choose|v: int| #[trigger] is_vertex_at(init, v, prev[j1]);
                assert(is_vertex_at(pts, v1, vis[j1]));
                assert(is_vertex_at(pts, last, vis[j2]));
            }
        }
    }
}

/// In point mode a mesh draws one point for every vertex that projected,
/// at its position, in vertex order, and no other point; the `j`-th point
/// takes the `j`-th per-vertex colour when there is one colour per vertex,
/// and the mesh colour otherwise.
pub proof fn law_points_are_the_projected_vertices(g: &Geometry, color: Color, proj: &Projection)
    requires
        g.vertex_count > 0,
    ensures
        forall|j: int|
            0 <= j < mesh_primitives_spec(RenderMode::Points, g, color, proj).len() ==> (#[trigger] mesh_primitives_spec(
                RenderMode::Points,
                g,
                color,
                proj,
            )[j] matches DrawPrimitive::ColoredPoint(p, c) && is_projected_vertex(proj.points@, p) && c == (if g.colors@.len()
                == g.vertex_count {
                g.colors@[j]
            } else {
                color
            })),
        forall|v: int|
            0 <= v < proj.points@.len() && #[trigger] proj.points@[v] is Some ==> exists|j: int|
                0 <= j < mesh_primitives_spec(RenderMode::Points, g, color, proj).len()
                    && (#[trigger] mesh_primitives_spec(RenderMode::Points, g, color, proj)[j]
                    matches DrawPrimitive::ColoredPoint(p, _) && p == proj.points@[v]->0),
        forall|j1: int, j2: int|
            0 <= j1 < j2 < mesh_primitives_spec(RenderMode::Points, g, color, proj).len() ==> (#[trigger] mesh_primitives_spec(
                RenderMode::Points,
                g,
                color,
                proj,
            )[j1] matches DrawPrimitive::ColoredPoint(p, _) && #[trigger] mesh_primitives_spec(
                RenderMode::Points,
                g,
                color,
                proj,
            )[j2] matches DrawPrimitive::ColoredPoint(q, _) && vertices_in_order(proj.points@, p, q)),
{
    let pts = proj.points@;
    lemma_visible_points(pts);
    let vis = visible_points(pts);
    let out = mesh_primitives_spec(RenderMode::Points, g, color, proj);
    let per_vertex = g.colors@.len() == g.vertex_count;
    assert(out.len() == vis.len());
    assert forall|j: int| 0 <= j < out.len() implies (#[trigger] out[j] matches DrawPrimitive::ColoredPoint(p, c)
        && is_projected_vertex(pts, p) && c == (if per_vertex { g.colors@[j] } else { color })) by {
        assert(is_projected_vertex(pts, vis[j]));
    }
    assert forall|v: int| 0 <= v < pts.len() && #[trigger] pts[v] is Some implies exists|j: int|
        0 <= j < out.len() && (#[trigger] out[j] matches DrawPrimitive::ColoredPoint(p, _) && p == pts[v]->0) by {
        assert(vis.contains(pts[v]->0));
        let j = choose|j: int| 0 <= j < vis.len() && vis[j] == pts[v]->0;
        assert(out[j] matches DrawPrimitive::ColoredPoint(p, _) && p == pts[v]->0);
    }
    assert forall|j1: int, j2: int| 0 <= j1 < j2 < out.len() implies (#[trigger] out[j1] matches DrawPrimitive::ColoredPoint(
        p,
        _,
    ) && #[trigger] out[j2] matches DrawPrimitive::ColoredPoint(q, _) && vertices_in_order(pts, p, q)) by {
        assert(vertices_in_order(pts, vis[j1], vis[j2]));
    }
}

/// Whether `prim` is the line of line entry `i` (one of the first `n`):
/// both of its vertices projected, and it joins their positions, first to
/// second, in colour `c`.
pub open spec fn is_entry_line(
    lines: Seq<[usize; 2]>,
    pts: Seq<Option<Point>>,
    c: Color,
    n: nat,
    i: int,
    prim: DrawPrimitive,
) -> bool {
    &&& 0 <= i < n
    &&& pts[lines[i][0] as int] is Some
    &&& pts[lines[i][1] as int] is Some
    &&& prim == DrawPrimitive::Line([pts[lines[i][0] as int]->0, pts[lines[i][1] as int]->0], c)
}

/// Whether `prim` is the line of some line entry among the first `n`.
pub open spec fn from_line_entry(
    lines: Seq<[usize; 2]>,
    pts: Seq<Option<Point>>,
    c: Color,
    n: nat,
    prim: DrawPrimitive,
) -> bool {
    exists|i: int| #[trigger] is_entry_line(lines, pts, c, n, i, prim)
}

/// Whether `a` and `b` are the lines of two line entries among the first
/// `n`, the entry of `a` coming first.
pub open spec fn entries_in_order(
    lines: Seq<[usize; 2]>,
    pts: Seq<Option<Point>>,
    c: Color,
    n: nat,
    a: DrawPrimitive,
    b: DrawPrimitive,
) -> bool {
    exists|i1: int, i2: int|
        i1 < i2 && #[trigger] is_entry_line(lines, pts, c, n, i1, a) && #[trigger] is_entry_line(lines, pts, c, n, i2, b)
}

/// Every line drawn is the line of one entry whose ends projected, every
/// such entry is drawn, and the lines come out in entry order.
pub proof fn lemma_line_entries(lines: Seq<[usize; 2]>, pts: Seq<Option<Point>>, c: Color, n: nat)
    ensures
        forall|j: int|
            0 <= j < line_prims(lines, pts, c, n).len() ==> from_line_entry(
                lines,
                pts,
                c,
                n,
                #[trigger] line_prims(lines, pts, c, n)[j],
            ),
        forall|i: int|
            0 <= i < n && #[trigger] pts[lines[i][0] as int] is Some && pts[lines[i][1] as int] is Some
                ==> line_prims(lines, pts, c, n).contains(
                DrawPrimitive::Line([pts[lines[i][0] as int]->0, pts[lines[i][1] as int]->0], c),
            ),
        forall|j1: int, j2: int|
            0 <= j1 < j2 < line_prims(lines, pts, c, n).len() ==> entries_in_order(
                lines,
                pts,
                c,
                n,
                #[trigger] line_prims(lines, pts, c, n)[j1],
                #[trigger] line_prims(lines, pts, c, n)[j2],
            ),
    decreases n,
{
    if n > 0 {
        let m = (n - 1) as nat;
        lemma_line_entries(lines, pts, c, m);
        let prev = line_prims(lines, pts, c, m);
        let out = line_prims(lines, pts, c, n);
        let last = n - 1;
        assert forall|j: int| 0 <= j < out.len() implies from_line_entry(lines, pts, c, n, #[trigger] out[j]) by {
            if j < prev.len() {
                assert(out[j] == prev[j]);
                assert(from_line_entry(lines, pts, c, m, prev[j]));
                let i = choose|i: int| #[trigger] is_entry_line(lines, pts, c, m, i, prev[j]);
                assert(is_entry_line(lines, pts, c, n, i, out[j]));
            } else {
                assert(is_entry_line(lines, pts, c, n, last, out[j]));
            }
        }
        assert forall|i: int|
            0 <= i < n && #[trigger] pts[lines[i][0] as int] is Some && pts[lines[i][1] as int] is Some
                implies out.contains(DrawPrimitive::Line([pts[lines[i][0] as int]->0, pts[lines[i][1] as int]->0], c)) by {
            let l = DrawPrimitive::Line([pts[lines[i][0] as int]->0, pts[lines[i][1] as int]->0], c);
            if i < last {
                assert(prev.contains(l));
                let k = choose|k: int| 0 <= k < prev.len() && prev[k] == l;
                assert(out[k] == prev[k]);
            } else {
                assert(out[prev.len() as int] == l);
            }
        }
        assert forall|j1: int, j2: int| 0 <= j1 < j2 < out.len() implies entries_in_order(
            lines,
            pts,
            c,
            n,
            #[trigger] out[j1],
            #[trigger] out[j2],
        ) by {
            assert(out[j1] == prev[j1]);
            if j2 < prev.len() {
                assert(out[j2] == prev[j2]);
                assert(entries_in_order(lines, pts, c, m, prev[j1], prev[j2]));
                let (i1, i2) = choose|i1: int, i2: int|
                    i1 < i2 && #[trigger] is_entry_line(lines, pts, c, m, i1, prev[j1])
                        && #[trigger] is_entry_line(lines, pts, c, m, i2, prev[j2]);
                assert(is_entry_line(lines, pts, c, n, i1, out[j1]));
                assert(is_entry_line(lines, pts, c, n, i2, out[j2]));
            } else {
                assert(from_line_entry(lines, pts, c, m, prev[j1]));
                let i1 = choose|i: int| #[trigger] is_entry_line(lines, pts, c, m, i, prev[j1]);
                assert(is_entry_line(lines, pts, c, n, i1, out[j1]));
                assert(is_entry_line(lines, pts, c, n, last, out[j2]));
            }
        }
    }
}

/// Edge `e` (0 to 2) of face `f`: the line from its corner `e` to the next
/// corner round the face, `(e + 1) % 3`, in colour `c`.
pub open spec fn edge_line(f: [usize; 3], pts: Seq<Option<Point>>, e: int, c: Color) -> DrawPrimitive {
    DrawPrimitive::Line([pts[f[e] as int]->0, pts[f[(e + 1) % 3] as int]->0], c)
}

/// The lines `3 * m` to `3 * m + 2` of a sequence of lines.
pub open spec fn line_triple(s: Seq<DrawPrimitive>, m: int) -> (DrawPrimitive, DrawPrimitive, DrawPrimitive) {
    (s[3 * m], s[3 * m + 1], s[3 * m + 2])
}

/// Whether `t` is the outline of face `i` (one of the first `n`): all its
/// vertices projected, and `t` holds its edges 0, 1 and 2 in turn.
pub open spec fn is_face_outline(
    faces: Seq<[usize; 3]>,
    pts: Seq<Option<Point>>,
    c: Color,
    n: nat,
    i: int,
    t: (DrawPrimitive, DrawPrimitive, DrawPrimitive),
) -> bool {
    &&& 0 <= i < n
    &&& all_projected(pts, faces[i][0], faces[i][1], faces[i][2])
    &&& t == (edge_line(faces[i], pts, 0, c), edge_line(faces[i], pts, 1, c), edge_line(faces[i], pts, 2, c))
}

/// Whether `t` is the outline of some face among the first `n`.
pub open spec fn from_face_outline(
    faces: Seq<[usize; 3]>,
    pts: Seq<Option<Point>>,
    c: Color,
    n: nat,
    t: (DrawPrimitive, DrawPrimitive, DrawPrimitive),
) -> bool {
    exists|i: int| #[trigger] is_face_outline(faces, pts, c, n, i, t)
}

/// The wireframe of faces is made of whole outlines: three lines at a time,
/// each group the three edges of one face whose vertices projected, taken
/// round the face; and every such face has its outline drawn.
pub proof fn lemma_outlines(faces: Seq<[usize; 3]>, pts: Seq<Option<Point>>, c: Color, n: nat)
    ensures
        outline_prims(faces, pts, c, n).len() % 3 == 0,
        forall|m: int|
            0 <= m < outline_prims(faces, pts, c, n).len() / 3 ==> from_face_outline(
                faces,
                pts,
                c,
                n,
                #[trigger] line_triple(outline_prims(faces, pts, c, n), m),
            ),
        forall|i: int|
            0 <= i < n && #[trigger] all_projected(pts, faces[i][0], faces[i][1], faces[i][2]) ==> exists|m: int|
                0 <= m < outline_prims(faces, pts, c, n).len() / 3 && #[trigger] line_triple(
                    outline_prims(faces, pts, c, n),
                    m,
                ) == (edge_line(faces[i], pts, 0, c), edge_line(faces[i], pts, 1, c), edge_line(faces[i], pts, 2, c)),
    decreases n,
{
    if n > 0 {
        let k = (n - 1) as nat;
        lemma_outlines(faces, pts, c, k);
        let prev = outline_prims(faces, pts, c, k);
        let out = outline_prims(faces, pts, c, n);
        let last = n - 1;
        let q: int = (prev.len() / 3) as int;
        assert forall|m: int| 0 <= m < q implies #[trigger] line_triple(out, m) == line_triple(prev, m) by {
            assert(out[3 * m] == prev[3 * m]);
            assert(out[3 * m + 1] == prev[3 * m + 1]);
            assert(out[3 * m + 2] == prev[3 * m + 2]);
        }
        let f = faces[last];
        if all_projected(pts, f[0], f[1], f[2]) {
            assert(line_triple(out, q) == (edge_line(f, pts, 0, c), edge_line(f, pts, 1, c), edge_line(f, pts, 2, c)));
            assert(is_face_outline(faces, pts, c, n, last, line_triple(out, q)));
        }
        assert forall|m: int| 0 <= m < out.len() / 3 implies from_face_outline(
            faces,
            pts,
            c,
            n,
            #[trigger] line_triple(out, m),
        ) by {
            if m < q {
                assert(from_face_outline(faces, pts, c, k, line_triple(prev, m)));
                let i = choose|i: int| #[trigger] is_face_outline(faces, pts, c, k, i, line_triple(prev, m));
                assert(is_face_outline(faces, pts, c, n, i, line_triple(out, m)));
            }
        }
        assert forall|i: int| 0 <= i < n && #[trigger] all_projected(pts, faces[i][0], faces[i][1], faces[i][2])
            implies exists|m: int|
            0 <= m < out.len() / 3 && #[trigger] line_triple(out, m) == (
                edge_line(faces[i], pts, 0, c),
                edge_line(faces[i], pts, 1, c),
                edge_line(faces[i], pts, 2, c),
            ) by {
            if i < last {
                let m = choose|m: int|
                    0 <= m < prev.len() / 3 && #[trigger] line_triple(prev, m) == (
                        edge_line(faces[i], pts, 0, c),
                        edge_line(faces[i], pts, 1, c),
                        edge_line(faces[i], pts, 2, c),
                    );
                assert(line_triple(out, m) == line_triple(prev, m));
            } else {
                assert(line_triple(out, q) == (edge_line(f, pts, 0, c), edge_line(f, pts, 1, c), edge_line(f, pts, 2, c)));
            }
        }
    }
}

/// In line mode a mesh with line entries draws, in entry order, exactly the
/// lines of the entries whose ends projected, each joining its two vertices
/// in the mesh colour; a mesh without line entries draws the outline of
/// every face whose vertices projected, three edges per face taken round
/// the face, and nothing else.
pub proof fn law_lines_mode(g: &Geometry, color: Color, proj: &Projection)
    requires
        g.vertex_count > 0,
    ensures
        g.lines@.len() > 0 ==> {
            &&& forall|j: int|
                0 <= j < mesh_primitives_spec(RenderMode::Lines, g, color, proj).len() ==> from_line_entry(
                    g.lines@,
                    proj.points@,
                    color,
                    g.lines@.len(),
                    #[trigger] mesh_primitives_spec(RenderMode::Lines, g, color, proj)[j],
                )
            &&& forall|i: int|
                0 <= i < g.lines@.len() && #[trigger] proj.points@[g.lines@[i][0] as int] is Some
                    && proj.points@[g.lines@[i][1] as int] is Some
                    ==> mesh_primitives_spec(RenderMode::Lines, g, color, proj).contains(
                    DrawPrimitive::Line(
                        [proj.points@[g.lines@[i][0] as int]->0, proj.points@[g.lines@[i][1] as int]->0],
                        color,
                    ),
                )
            &&& forall|j1: int, j2: int|
                0 <= j1 < j2 < mesh_primitives_spec(RenderMode::Lines, g, color, proj).len() ==> entries_in_order(
                    g.lines@,
                    proj.points@,
                    color,
                    g.lines@.len(),
                    #[trigger] mesh_primitives_spec(RenderMode::Lines, g, color, proj)[j1],
                    #[trigger] mesh_primitives_spec(RenderMode::Lines, g, color, proj)[j2],
                )
        },
        g.lines@.len() == 0 ==> {
            &&& mesh_primitives_spec(RenderMode::Lines, g, color, proj).len() % 3 == 0
            &&& forall|m: int|
                0 <= m < mesh_primitives_spec(RenderMode::Lines, g, color, proj).len() / 3 ==> from_face_outline(
                    g.faces@,
                    proj.points@,
                    color,
                    g.faces@.len(),
                    #[trigger] line_triple(mesh_primitives_spec(RenderMode::Lines, g, color, proj), m),
                )
            &&& forall|i: int|
                0 <= i < g.faces@.len() && #[trigger] all_projected(
                    proj.points@,
                    g.faces@[i][0],
                    g.faces@[i][1],
                    g.faces@[i][2],
                ) ==> exists|m: int|
                    0 <= m < mesh_primitives_spec(RenderMode::Lines, g, color, proj).len() / 3
                        && #[trigger] line_triple(mesh_primitives_spec(RenderMode::Lines, g, color, proj), m) == (
                        edge_line(g.faces@[i], proj.points@, 0, color),
                        edge_line(g.faces@[i], proj.points@, 1, color),
                        edge_line(g.faces@[i], proj.points@, 2, color),
                    )
        },
{
    if g.lines@.len() > 0 {
        lemma_line_entries(g.lines@, proj.points@, color, g.lines@.len());
    } else {
        lemma_outlines(g.faces@, proj.points@, color, g.faces@.len());
        assert(mesh_primitives_spec(RenderMode::Lines, g, color, proj) == outline_prims(
            g.faces@,
            proj.points@,
            color,
            g.faces@.len(),
        ));
    }
}

/// Whether `prim` is the triangle of face `i` (one of the first `n`) in
/// colour `c`: a face that the back-face test keeps when `cull` is set,
/// whose three vertices projected.
pub open spec fn is_solid_face_triangle(
    faces: Seq<[usize; 3]>,
    pts: Seq<Option<Point>>,
    cull: bool,
    front: Seq<bool>,
    c: Color,
    n: nat,
    i: int,
    prim: DrawPrimitive,
) -> bool {
    &&& 0 <= i < n
    &&& (cull ==> front[i])
    &&& all_projected(pts, faces[i][0], faces[i][1], faces[i][2])
    &&& prim == face_triangle(faces[i], pts, c)
}

/// Whether `prim` is the triangle of some face among the first `n` in
/// colour `c`.
pub open spec fn from_solid_face(
    faces: Seq<[usize; 3]>,
    pts: Seq<Option<Point>>,
    cull: bool,
    front: Seq<bool>,
    c: Color,
    n: nat,
    prim: DrawPrimitive,
) -> bool {
    exists|i: int| #[trigger] is_solid_face_triangle(faces, pts, cull, front, c, n, i, prim)
}

/// Whether `a` and `b` are triangles of two faces among the first `n`, the
/// face of `a` coming first.
pub open spec fn solid_faces_in_order(
    faces: Seq<[usize; 3]>,
    pts: Seq<Option<Point>>,
    cull: bool,
    front: Seq<bool>,
    c: Color,
    n: nat,
    a: DrawPrimitive,
    b: DrawPrimitive,
) -> bool {
    exists|i1: int, i2: int|
        i1 < i2 && #[trigger] is_solid_face_triangle(faces, pts, cull, front, c, n, i1, a)
            && #[trigger] is_solid_face_triangle(faces, pts, cull, front, c, n, i2, b)
}

/// Without lighting, every triangle drawn is the triangle of one kept face
/// in colour `c`, every kept face whose vertices projected is drawn, and the
/// triangles come out in face order.
pub proof fn lemma_solid_faces(
    faces: Seq<[usize; 3]>,
    pts: Seq<Option<Point>>,
    cull: bool,
    front: Seq<bool>,
    colors: Seq<Color>,
    c: Color,
    n: nat,
)
    ensures
        forall|j: int|
            0 <= j < face_prims(faces, pts, cull, front, false, colors, c, n).len() ==> from_solid_face(
                faces,
                pts,
                cull,
                front,
                c,
                n,
                #[trigger] face_prims(faces, pts, cull, front, false, colors, c, n)[j],
            ),
        forall|i: int|
            0 <= i < n && (cull ==> front[i]) && #[trigger] all_projected(pts, faces[i][0], faces[i][1], faces[i][2])
                ==> face_prims(faces, pts, cull, front, false, colors, c, n).contains(face_triangle(faces[i], pts, c)),
        forall|j1: int, j2: int|
            0 <= j1 < j2 < face_prims(faces, pts, cull, front, false, colors, c, n).len() ==> solid_faces_in_order(
                faces,
                pts,
                cull,
                front,
                c,
                n,
                #[trigger] face_prims(faces, pts, cull, front, false, colors, c, n)[j1],
                #[trigger] face_prims(faces, pts, cull, front, false, colors, c, n)[j2],
            ),
    decreases n,
{
    if n > 0 {
        let m = (n - 1) as nat;
        lemma_solid_faces(faces, pts, cull, front, colors, c, m);
        let prev = face_prims(faces, pts, cull, front, false, colors, c, m);
        let out = face_prims(faces, pts, cull, front, false, colors, c, n);
        let last = n - 1;
        assert forall|j: int| 0 <= j < out.len() implies from_solid_face(faces, pts, cull, front, c, n, #[trigger] out[j]) by {
            if j < prev.len() {
                assert(out[j] == prev[j]);
                assert(from_solid_face(faces, pts, cull, front, c, m, prev[j]));
                let i = choose|i: int| #[trigger] is_solid_face_triangle(faces, pts, cull, front, c, m, i, prev[j]);
                assert(is_solid_face_triangle(faces, pts, cull, front, c, n, i, out[j]));
            } else {
                assert(is_solid_face_triangle(faces, pts, cull, front, c, n, last, out[j]));
            }
        }
        assert forall|i: int|
            0 <= i < n && (cull ==> front[i]) && #[trigger] all_projected(pts, faces[i][0], faces[i][1], faces[i][2])
                implies out.contains(face_triangle(faces[i], pts, c)) by {
            if i < last {
                assert(prev.contains(face_triangle(faces[i], pts, c)));
                let k = choose|k: int| 0 <= k < prev.len() && prev[k] == face_triangle(faces[i], pts, c);
                assert(out[k] == prev[k]);
            } else {
                assert(out[prev.len() as int] == face_triangle(faces[i], pts, c));
            }
        }
        assert forall|j1: int, j2: int| 0 <= j1 < j2 < out.len() implies solid_faces_in_order(
            faces,
            pts,
            cull,
            front,
            c,
            n,
            #[trigger] out[j1],
            #[trigger] out[j2],
        ) by {
            assert(out[j1] == prev[j1]);
            if j2 < prev.len() {
                assert(out[j2] == prev[j2]);
                assert(solid_faces_in_order(faces, pts, cull, front, c, m, prev[j1], prev[j2]));
                let (i1, i2) = choose|i1: int, i2: int|
                    i1 < i2 && #[trigger] is_solid_face_triangle(faces, pts, cull, front, c, m, i1, prev[j1])
                        && #[trigger] is_solid_face_triangle(faces, pts, cull, front, c, m, i2, prev[j2]);
                assert(is_solid_face_triangle(faces, pts, cull, front, c, n, i1, out[j1]));
                assert(is_solid_face_triangle(faces, pts, cull, front, c, n, i2, out[j2]));
            } else {
                assert(from_solid_face(faces, pts, cull, front, c, m, prev[j1]));
                let i1 = choose|i: int| #[trigger] is_solid_face_triangle(faces, pts, cull, front, c, m, i, prev[j1]);
                assert(is_solid_face_triangle(faces, pts, cull, front, c, n, i1, out[j1]));
                assert(is_solid_face_triangle(faces, pts, cull, front, c, n, last, out[j2]));
            }
        }
    }
}

/// In solid mode every triangle drawn is the filled triangle of one face in
/// the mesh colour, faces come out in order, and every face whose vertices
/// projected is drawn, except that a mesh with normals draws only the
/// faces paired with a normal and, of those, only the ones that face the
/// camera.
pub proof fn law_solid_mode(g: &Geometry, color: Color, proj: &Projection)
    requires
        g.vertex_count > 0,
    ensures
        ({
            let cull = g.normal_count != 0;
            let n = if cull { paired_faces(g) } else { g.faces@.len() };
            &&& forall|j: int|
                0 <= j < mesh_primitives_spec(RenderMode::Solid, g, color, proj).len() ==> from_solid_face(
                    g.faces@,
                    proj.points@,
                    cull,
                    proj.front_facing@,
                    color,
                    n,
                    #[trigger] mesh_primitives_spec(RenderMode::Solid, g, color, proj)[j],
                )
            &&& forall|i: int|
                0 <= i < n && (cull ==> proj.front_facing@[i]) && #[trigger] all_projected(
                    proj.points@,
                    g.faces@[i][0],
                    g.faces@[i][1],
                    g.faces@[i][2],
                ) ==> mesh_primitives_spec(RenderMode::Solid, g, color, proj).contains(
                    face_triangle(g.faces@[i], proj.points@, color),
                )
            &&& forall|j1: int, j2: int|
                0 <= j1 < j2 < mesh_primitives_spec(RenderMode::Solid, g, color, proj).len() ==> solid_faces_in_order(
                    g.faces@,
                    proj.points@,
                    cull,
                    proj.front_facing@,
                    color,
                    n,
                    #[trigger] mesh_primitives_spec(RenderMode::Solid, g, color, proj)[j1],
                    #[trigger] mesh_primitives_spec(RenderMode::Solid, g, color, proj)[j2],
                )
        }),
{
    let cull = g.normal_count != 0;
    let n = if cull { paired_faces(g) } else { g.faces@.len() };
    lemma_solid_faces(g.faces@, proj.points@, cull, proj.front_facing@, proj.face_colors@, color, n);
}

} // verus!
