use scenegraph::error::SceneError;
use scenegraph::shape::{Shape, Topology};

type Point = [f32; 3];

fn points(n: usize) -> Vec<Point> {
    (0..n).map(|i| [i as f32, 0.0, 0.0]).collect()
}

#[test]
fn triangle_indices() {
    let s: Shape<Point> = Shape::Triangle([0.0; 3], [1.0, 0.0, 0.0], [0.0, 1.0, 0.0]);
    assert_eq!(s.vertex_count(), 3);
    assert_eq!(s.tessellate(), Ok(vec![0, 1, 2]));
}

#[test]
fn square_indices() {
    let s: Shape<Point> = Shape::Square;
    assert_eq!(s.vertex_count(), 4);
    assert_eq!(s.tessellate(), Ok(vec![0, 1, 2, 1, 2, 3]));
}

#[test]
fn polygon_fan() {
    let s: Shape<Point> = Shape::Polygon(5);
    assert_eq!(s.vertex_count(), 5);
    assert_eq!(s.tessellate(), Ok(vec![0, 1, 2, 0, 2, 3, 0, 3, 4]));
}

#[test]
fn polygon_counts() {
    for n in [3u32, 4, 7, 80, 512] {
        let s: Shape<Point> = Shape::Polygon(n);
        assert_eq!(s.vertex_count(), n as usize);
        let ix = s.tessellate().unwrap();
        assert_eq!(ix.len(), 3 * (n as usize - 2));
        assert!(ix.iter().all(|&i| i < n));
    }
}

#[test]
fn polygon_three_is_a_triangle() {
    let p: Shape<Point> = Shape::Polygon(3);
    let t: Shape<Point> = Shape::Triangle([5.0; 3], [6.0; 3], [7.0; 3]);
    assert_eq!(p.tessellate(), t.tessellate());
    assert_eq!(p.vertex_count(), t.vertex_count());
}

#[test]
fn polygon_too_few_sides() {
    for n in [0u32, 1, 2] {
        let s: Shape<Point> = Shape::Polygon(n);
        assert_eq!(s.tessellate(), Err(SceneError::InvalidShape));
    }
}

#[test]
fn polygon_too_many_sides() {
    let s: Shape<Point> = Shape::Polygon(u32::MAX);
    assert_eq!(s.tessellate(), Err(SceneError::TooLarge));
}

#[test]
fn mesh_strip_indices() {
    let s = Shape::Mesh(points(4), Topology::TriangleStrip);
    assert_eq!(s.vertex_count(), 4);
    assert_eq!(s.tessellate(), Ok(vec![0, 1, 2, 1, 2, 3]));
}

#[test]
fn mesh_list_indices() {
    let s = Shape::Mesh(points(6), Topology::TriangleList);
    assert_eq!(s.vertex_count(), 6);
    assert_eq!(s.tessellate(), Ok(vec![0, 1, 2, 3, 4, 5]));
}

#[test]
fn mesh_strip_of_five() {
    let s = Shape::Mesh(points(5), Topology::TriangleStrip);
    assert_eq!(s.tessellate(), Ok(vec![0, 1, 2, 1, 2, 3, 2, 3, 4]));
}

#[test]
fn mesh_empty_list() {
    let s = Shape::Mesh(points(0), Topology::TriangleList);
    assert_eq!(s.tessellate(), Ok(vec![]));
}

#[test]
fn mesh_malformed_counts() {
    let list = Shape::Mesh(points(4), Topology::TriangleList);
    assert_eq!(list.tessellate(), Err(SceneError::InvalidShape));
    let strip = Shape::Mesh(points(2), Topology::TriangleStrip);
    assert_eq!(strip.tessellate(), Err(SceneError::InvalidShape));
}

#[test]
fn validity_check() {
    assert!(Shape::<Point>::Polygon(3).is_valid_exec());
    assert!(!Shape::<Point>::Polygon(2).is_valid_exec());
    assert!(Shape::Mesh(points(3), Topology::TriangleList).is_valid_exec());
    assert!(!Shape::Mesh(points(5), Topology::TriangleList).is_valid_exec());
}
