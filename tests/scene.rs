use scenegraph::builder::{App, Mesh, Size, CIRCLE_SIDES};
use scenegraph::error::SceneError;
use scenegraph::render::{DrawDescriptor, Instance, VertexRef};
use scenegraph::shape::{Shape, Topology};

type Vec3 = [f32; 3];
type Rgba = [f64; 4];

fn app() -> App<Vec3, Rgba, Vec3> {
    App::new(640, 480)
}

#[test]
fn translated_square() {
    let mut a = app();
    a.push(Some([10.0, 0.0, 0.0]), None);
    a.square();
    a.pop();
    let st = a.state();
    let out = st.serialize().unwrap();
    assert_eq!(out.instances.len(), 2);
    assert_eq!(out.instances[1], Instance { parent: Some(0), color_source: None });
    assert_eq!(st.node(1).transform, Some([10.0, 0.0, 0.0]));
    assert_eq!(
        out.draws,
        vec![DrawDescriptor {
            vertex_offset: 0,
            base_index: 0,
            base_instance: 1,
            vertex_count: 6,
            instance_count: 1,
        }]
    );
    assert_eq!(out.indexes, vec![0, 1, 2, 1, 2, 3]);
    assert_eq!(out.vertexes.len(), 4);
    assert_eq!(a.current_node(), 0);
}

#[test]
fn empty_tree() {
    let a = app();
    let out = a.state().serialize().unwrap();
    assert_eq!(out.instances, vec![Instance { parent: None, color_source: None }]);
    assert!(out.draws.is_empty());
    assert!(out.vertexes.is_empty());
    assert!(out.indexes.is_empty());
}

#[test]
fn one_instance_per_node() {
    let mut a = app();
    a.push(None, None);
    a.push(None, None);
    a.pop();
    a.push(None, None);
    a.pop();
    a.pop();
    a.push(None, None);
    let st = a.state();
    assert_eq!(st.node_count(), 5);
    let out = st.serialize().unwrap();
    assert_eq!(out.instances.len(), 5);
    let parents: Vec<Option<usize>> = out.instances.iter().map(|i| i.parent).collect();
    assert_eq!(parents, vec![None, Some(0), Some(1), Some(1), Some(0)]);
    assert_eq!(st.node(0).children, vec![1, 4]);
    assert_eq!(st.node(1).children, vec![2, 3]);
}

#[test]
fn color_inheritance() {
    let red: Rgba = [1.0, 0.0, 0.0, 1.0];
    let blue: Rgba = [0.0, 0.0, 1.0, 1.0];
    let mut a = app();
    a.push(None, None); // 1: default
    a.push(None, Some(red)); // 2: red
    a.push(None, None); // 3: inherits red
    a.push(None, None); // 4: inherits red through 3
    a.pop();
    a.push(None, Some(blue)); // 5: blue
    a.pop();
    a.pop();
    a.pop();
    a.push(None, None); // 6: child of 1, default
    let out = a.state().serialize().unwrap();
    let sources: Vec<Option<usize>> = out.instances.iter().map(|i| i.color_source).collect();
    assert_eq!(sources, vec![None, None, Some(2), Some(2), Some(2), Some(5), None]);
}

#[test]
fn transform_chain() {
    let mut a = app();
    a.push(Some([1.0, 0.0, 0.0]), None);
    a.push(Some([0.0, 2.0, 0.0]), None);
    a.push(Some([0.0, 0.0, 3.0]), None);
    a.square();
    let out = a.state().serialize().unwrap();
    // follow the parent links from the deepest instance back to the root
    let mut chain = vec![3usize];
    while let Some(p) = out.instances[*chain.last().unwrap()].parent {
        chain.push(p);
    }
    chain.reverse();
    assert_eq!(chain, vec![0, 1, 2, 3]);
    assert_eq!(out.draws[0].base_instance, 3);
}

#[test]
fn draws_partition_buffers() {
    let mut a = app();
    a.triangle([0.0; 3], [1.0, 0.0, 0.0], [0.0, 1.0, 0.0]);
    a.push(None, None);
    a.polygon(5);
    a.square();
    a.pop();
    a.circle();
    let out = a.state().serialize().unwrap();
    let expected = vec![
        DrawDescriptor { vertex_offset: 0, base_index: 0, base_instance: 0, vertex_count: 3, instance_count: 1 },
        DrawDescriptor { vertex_offset: 3, base_index: 3, base_instance: 0, vertex_count: 234, instance_count: 1 },
        DrawDescriptor { vertex_offset: 83, base_index: 237, base_instance: 1, vertex_count: 9, instance_count: 1 },
        DrawDescriptor { vertex_offset: 88, base_index: 246, base_instance: 1, vertex_count: 6, instance_count: 1 },
    ];
    assert_eq!(out.draws, expected);
    let total: u32 = out.draws.iter().map(|d| d.vertex_count).sum();
    assert_eq!(total as usize, out.indexes.len());
    assert_eq!(out.indexes.len(), 252);
    assert_eq!(out.vertexes.len(), 92);
    assert_eq!(out.vertexes[3], VertexRef { shape: 3, corner: 0 });
    assert_eq!(out.vertexes[82], VertexRef { shape: 3, corner: 79 });
    assert_eq!(out.vertexes[83], VertexRef { shape: 1, corner: 0 });
    assert_eq!(&out.indexes[237..246], &[0, 1, 2, 0, 2, 3, 0, 3, 4]);
}

#[test]
fn shared_shape_reference() {
    let mut a = app();
    let i = a.add_shape(Shape::Square);
    a.push(None, None);
    a.attach(i);
    let st = a.state();
    assert_eq!(st.shape_count(), 1);
    let out = st.serialize().unwrap();
    assert_eq!(out.draws.len(), 2);
    assert_eq!(out.draws[1].vertex_offset, 4);
    assert_eq!(out.draws[1].base_index, 6);
    assert_eq!(out.draws[1].base_instance, 1);
    assert_eq!(out.vertexes[4], VertexRef { shape: 0, corner: 0 });
}

#[test]
fn dangling_shape_reference() {
    let mut a = app();
    a.polygon(2);
    a.attach(7);
    assert_eq!(a.state().serialize().unwrap_err(), SceneError::DanglingShapeReference);
}

#[test]
fn invalid_shape_fails_frame() {
    let mut a = app();
    a.square();
    a.push(None, None);
    a.polygon(2);
    assert_eq!(a.state().serialize().unwrap_err(), SceneError::InvalidShape);
}

#[test]
fn oversized_frame() {
    let mut a = app();
    a.polygon(u32::MAX);
    assert_eq!(a.state().serialize().unwrap_err(), SceneError::TooLarge);
}

#[test]
fn mesh_from_builder() {
    let mut a = app();
    let mut m = Mesh::new();
    for i in 0..4 {
        m.vertex([i as f32, 0.0, 0.0]);
    }
    a.mesh(Topology::TriangleStrip, m);
    let st = a.state();
    match st.shape(0) {
        Shape::Mesh(v, t) => {
            assert_eq!(v.len(), 4);
            assert_eq!(*t, Topology::TriangleStrip);
        }
        _ => panic!("expected a mesh"),
    }
    let out = st.serialize().unwrap();
    assert_eq!(out.indexes, vec![0, 1, 2, 1, 2, 3]);
}

#[test]
fn pop_at_root_stays() {
    let mut a = app();
    a.pop();
    assert_eq!(a.current_node(), 0);
    let h = a.push(None, None);
    assert_eq!(h, 1);
    assert_eq!(a.current_node(), 1);
    a.pop();
    a.pop();
    assert_eq!(a.current_node(), 0);
}

#[test]
fn builder_bookkeeping() {
    let mut a = app();
    assert_eq!(a.size(), Size { width: 640, height: 480 });
    assert_eq!(a.frame(), 0);
    a.set_frame(9);
    assert_eq!(a.frame(), 9);
    a.circle();
    match a.state().shape(0) {
        Shape::Polygon(n) => assert_eq!(*n, CIRCLE_SIDES),
        _ => panic!("expected a polygon"),
    }
    assert_eq!(a.state().node(0).shapes, vec![0]);
}
