use drm_gfx::color::Color;
use drm_gfx::mesh::{Geometry, RenderMode};
use drm_gfx::{indices_in_range, mesh_primitives, DrawPrimitive, Point, Projection};

fn white() -> Color {
    Color::new(255, 255, 255)
}

fn triangle_geometry(normals: usize) -> Geometry {
    Geometry {
        vertex_count: 3,
        faces: vec![[0, 1, 2]],
        colors: vec![],
        lines: vec![[0, 1], [1, 2], [2, 0]],
        normal_count: normals,
    }
}

fn all_visible(front: bool) -> Projection {
    Projection {
        points: vec![Some(Point::new(400, 300)), Some(Point::new(500, 300)), Some(Point::new(400, 200))],
        front_facing: vec![front],
        face_colors: vec![Color::new(10, 20, 30)],
    }
}

#[test]
fn points_mode_emits_one_point_per_projected_vertex() {
    let g = triangle_geometry(1);
    let prims = mesh_primitives(RenderMode::Points, &g, white(), &all_visible(true));
    assert_eq!(prims.len(), 3);
    for p in &prims {
        match p {
            DrawPrimitive::ColoredPoint(_, c) => assert_eq!(*c, white()),
            _ => panic!("expected a point"),
        }
    }
}

#[test]
fn points_mode_skips_unprojected_vertices_and_shifts_colors() {
    let red = Color::new(255, 0, 0);
    let green = Color::new(0, 255, 0);
    let blue = Color::new(0, 0, 255);
    let g = Geometry { vertex_count: 3, faces: vec![], colors: vec![red, green, blue], lines: vec![], normal_count: 0 };
    let proj = Projection {
        points: vec![None, Some(Point::new(1, 1)), Some(Point::new(2, 2))],
        front_facing: vec![],
        face_colors: vec![],
    };
    let prims = mesh_primitives(RenderMode::Points, &g, white(), &proj);
    assert_eq!(
        prims,
        vec![DrawPrimitive::ColoredPoint(Point::new(1, 1), red), DrawPrimitive::ColoredPoint(Point::new(2, 2), green)]
    );
}

#[test]
fn lines_mode_uses_lines_when_present() {
    let g = triangle_geometry(1);
    let prims = mesh_primitives(RenderMode::Lines, &g, white(), &all_visible(true));
    assert_eq!(prims.len(), 3);
    assert_eq!(prims[0], DrawPrimitive::Line([Point::new(400, 300), Point::new(500, 300)], white()));
}

#[test]
fn lines_mode_outlines_faces_without_lines() {
    let mut g = triangle_geometry(1);
    g.lines = vec![];
    let prims = mesh_primitives(RenderMode::Lines, &g, white(), &all_visible(true));
    assert_eq!(
        prims,
        vec![
            DrawPrimitive::Line([Point::new(400, 300), Point::new(500, 300)], white()),
            DrawPrimitive::Line([Point::new(500, 300), Point::new(400, 200)], white()),
            DrawPrimitive::Line([Point::new(400, 200), Point::new(400, 300)], white()),
        ]
    );
}

#[test]
fn solid_mode_fills_front_faces_in_mesh_color() {
    let g = triangle_geometry(1);
    let prims = mesh_primitives(RenderMode::Solid, &g, white(), &all_visible(true));
    assert_eq!(
        prims,
        vec![DrawPrimitive::ColoredTriangle(
            [Point::new(400, 300), Point::new(500, 300), Point::new(400, 200)],
            white()
        )]
    );
    let culled = mesh_primitives(RenderMode::Solid, &g, white(), &all_visible(false));
    assert!(culled.is_empty());
}

#[test]
fn solid_mode_without_normals_does_not_cull() {
    let g = triangle_geometry(0);
    let proj = Projection { front_facing: vec![], face_colors: vec![], ..all_visible(false) };
    let prims = mesh_primitives(RenderMode::Solid, &g, white(), &proj);
    assert_eq!(prims.len(), 1);
}

#[test]
fn lit_mode_uses_face_colors() {
    let g = triangle_geometry(1);
    let prims = mesh_primitives(RenderMode::SolidLightDir, &g, white(), &all_visible(true));
    assert_eq!(
        prims,
        vec![DrawPrimitive::ColoredTriangle(
            [Point::new(400, 300), Point::new(500, 300), Point::new(400, 200)],
            Color::new(10, 20, 30)
        )]
    );
}

#[test]
fn faces_with_an_unprojected_vertex_are_dropped() {
    let g = triangle_geometry(1);
    let mut proj = all_visible(true);
    proj.points[2] = None;
    assert!(mesh_primitives(RenderMode::Solid, &g, white(), &proj).is_empty());
    assert_eq!(mesh_primitives(RenderMode::Lines, &g, white(), &proj).len(), 1);
}

#[test]
fn corners_after_an_unprojected_one_are_not_read() {
    let g = Geometry { vertex_count: 2, faces: vec![[0, 7, 9]], colors: vec![], lines: vec![[1, 8]], normal_count: 0 };
    let proj = Projection { points: vec![None, None], front_facing: vec![], face_colors: vec![] };
    assert!(indices_in_range(RenderMode::Solid, &g, &proj));
    assert!(indices_in_range(RenderMode::Lines, &g, &proj));
    assert!(mesh_primitives(RenderMode::Solid, &g, white(), &proj).is_empty());
    let seen = Projection { points: vec![Some(Point::new(0, 0)), Some(Point::new(1, 1))], ..proj };
    assert!(!indices_in_range(RenderMode::Solid, &g, &seen));
    assert!(!indices_in_range(RenderMode::Lines, &g, &seen));
    assert!(indices_in_range(RenderMode::Points, &g, &seen));
}

#[test]
fn faces_dropped_by_the_back_face_test_are_not_read() {
    let g = Geometry { vertex_count: 1, faces: vec![[0, 5, 6]], colors: vec![], lines: vec![], normal_count: 1 };
    let proj = Projection { points: vec![Some(Point::new(0, 0))], front_facing: vec![false], face_colors: vec![white()] };
    assert!(indices_in_range(RenderMode::SolidLightDir, &g, &proj));
    assert!(mesh_primitives(RenderMode::SolidLightDir, &g, white(), &proj).is_empty());
}
