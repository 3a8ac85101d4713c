use drm_gfx::color::Color;
use drm_gfx::mesh::{Geometry, GeometryFault};

fn red() -> Color {
    Color::new(255, 0, 0)
}
fn green() -> Color {
    Color::new(0, 128, 0)
}
fn blue() -> Color {
    Color::new(0, 0, 255)
}

#[test]
fn test_geometry_check_validity_valid_data() {
    let geometry = Geometry {
        vertex_count: 3,
        faces: vec![[0, 1, 2]],
        colors: vec![red(), green(), blue()],
        lines: vec![[0, 1]],
        normal_count: 1,
    };

    assert!(geometry.check_validity());
}

#[test]
fn test_geometry_check_validity_empty_vertices() {
    let geometry = Geometry {
        vertex_count: 0,
        faces: vec![],
        colors: vec![],
        lines: vec![],
        normal_count: 0,
    };

    assert!(!geometry.check_validity());
}

#[test]
fn test_geometry_check_validity_invalid_face_indices() {
    let geometry = Geometry {
        vertex_count: 2,
        faces: vec![[0, 1, 2]],
        colors: vec![],
        lines: vec![],
        normal_count: 0,
    };

    assert!(!geometry.check_validity());
}

#[test]
fn test_geometry_check_validity_invalid_line_indices() {
    let geometry = Geometry {
        vertex_count: 2,
        faces: vec![],
        colors: vec![],
        lines: vec![[0, 2]],
        normal_count: 0,
    };

    assert!(!geometry.check_validity());
}

#[test]
fn test_geometry_check_validity_mismatched_colors() {
    let geometry = Geometry {
        vertex_count: 3,
        faces: vec![],
        colors: vec![red(), green()],
        lines: vec![],
        normal_count: 0,
    };

    assert!(!geometry.check_validity());
}

#[test]
fn test_lines_from_faces() {
    let faces = &[[0, 1, 2], [2, 1, 3]];

    let lines = Geometry::lines_from_faces(faces);

    assert_eq!(lines.len(), 5);
    assert!(lines.contains(&(0, 1)));
    assert!(lines.contains(&(0, 2)));
    assert!(lines.contains(&(1, 2)));
    assert!(lines.contains(&(1, 3)));
    assert!(lines.contains(&(2, 3)));
}

#[test]
fn lines_from_faces_keeps_first_occurrence_order() {
    let lines = Geometry::lines_from_faces(&[[0, 1, 2], [2, 1, 3]]);
    assert_eq!(lines, vec![(0, 1), (1, 2), (0, 2), (1, 3), (2, 3)]);
}

#[test]
fn lines_from_faces_of_nothing_is_empty() {
    assert!(Geometry::lines_from_faces(&[]).is_empty());
}

#[test]
fn degenerate_face_edge_is_kept_once() {
    let lines = Geometry::lines_from_faces(&[[4, 4, 1]]);
    assert_eq!(lines, vec![(4, 4), (1, 4)]);
}

#[test]
fn geometry_without_colors_is_valid() {
    let geometry = Geometry {
        vertex_count: 1,
        faces: vec![],
        colors: vec![],
        lines: vec![],
        normal_count: 0,
    };
    assert!(geometry.check_validity());
}

fn geometry_with(
    vertex_count: usize,
    faces: Vec<[usize; 3]>,
    colors: Vec<Color>,
    lines: Vec<[usize; 2]>,
) -> Geometry {
    Geometry { vertex_count, faces, colors, lines, normal_count: 0 }
}

#[test]
fn fault_names_the_first_check_that_fails() {
    assert_eq!(geometry_with(3, vec![[0, 1, 2]], vec![], vec![[0, 1]]).fault(), None);
    assert_eq!(
        geometry_with(0, vec![[0, 1, 2]], vec![red()], vec![[0, 5]]).fault(),
        Some(GeometryFault::NoVertices)
    );
    assert_eq!(
        geometry_with(3, vec![[0, 1, 3]], vec![red()], vec![[0, 5]]).fault(),
        Some(GeometryFault::FaceOutOfBounds)
    );
    assert_eq!(
        geometry_with(3, vec![[0, 1, 2]], vec![red()], vec![[0, 3]]).fault(),
        Some(GeometryFault::LineOutOfBounds)
    );
    assert_eq!(
        geometry_with(3, vec![[0, 1, 2]], vec![red(), green()], vec![[0, 2]]).fault(),
        Some(GeometryFault::ColorCountMismatch)
    );
    assert_eq!(
        geometry_with(3, vec![[0, 1, 2]], vec![red(), green(), blue()], vec![[0, 2]]).fault(),
        None
    );
}
