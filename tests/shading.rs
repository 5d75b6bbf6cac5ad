use rainier::compose::build_batch;
use rainier::mesh::{Mesh, MeshError};
use rainier::shader::Shader;
use rainier::uniforms::UniformBuffer;

fn names(u: &UniformBuffer<i32>) -> Vec<(String, i32)> {
    (0..u.len()).map(|i| {
        let (n, v) = u.binding(i);
        (n.clone(), *v)
    }).collect()
}

#[test]
fn push_keeps_order_and_duplicates() {
    let mut u = UniformBuffer::new();
    u.push(String::from("a"), 1);
    u.push(String::from("b"), 2);
    u.push(String::from("a"), 3);
    assert_eq!(u.len(), 3);
    assert_eq!(
        names(&u),
        vec![(String::from("a"), 1), (String::from("b"), 2), (String::from("a"), 3)]
    );
}

#[test]
fn lookup_sees_last_binding() {
    let mut u = UniformBuffer::new();
    u.push(String::from("a"), 1);
    u.push(String::from("b"), 2);
    u.push(String::from("a"), 3);
    assert_eq!(u.lookup(&String::from("a")), Some(&3));
    assert_eq!(u.lookup(&String::from("b")), Some(&2));
    assert_eq!(u.lookup(&String::from("c")), None);
}

#[test]
fn dimensions_override_caller_bindings() {
    let mut u = UniformBuffer::new();
    u.push(String::from("width"), 10);
    u.push_dimensions(4, 5);
    assert_eq!(u.len(), 3);
    assert_eq!(u.lookup(&String::from("width")), Some(&4));
    assert_eq!(u.lookup(&String::from("height")), Some(&5));
}

#[test]
fn with_id_keeps_parts() {
    let mut u = UniformBuffer::new();
    u.push(String::from("k"), 9);
    let s = Shader::with_id(42, "prog", u);
    assert_eq!(s.id(), 42);
    assert_eq!(*s.program(), "prog");
    assert_eq!(s.uniforms().lookup(&String::from("k")), Some(&9));
}

#[test]
fn fresh_shaders_are_distinct() {
    let a: Shader<&str, i32> = Shader::new("prog", UniformBuffer::new());
    let b: Shader<&str, i32> = Shader::new("prog", UniformBuffer::new());
    assert_ne!(a.id(), b.id());
}

#[test]
fn for_target_appends_dimensions() {
    let s = Shader::with_id(1, "prog", UniformBuffer::new()).for_target(4, 4);
    assert_eq!(s.id(), 1);
    assert_eq!(
        names(s.uniforms()),
        vec![(String::from("width"), 4), (String::from("height"), 4)]
    );
}

#[test]
fn build_batch_merges_meshes_and_sets_dimensions() {
    let first = Shader::with_id(3, "prog", UniformBuffer::new());
    let meshes = vec![
        Mesh::from_parts(vec!['a', 'b', 'c'], vec![0, 1, 2]).unwrap(),
        Mesh::from_parts(vec!['d', 'e', 'f'], vec![0, 1, 2]).unwrap(),
    ];
    let batch = build_batch(first, meshes, 2, 1).unwrap();
    assert!(batch.is_drawable());
    assert_eq!(batch.shader().id(), 3);
    assert_eq!(batch.shader().uniforms().lookup(&String::from("height")), Some(&1));
    assert_eq!(batch.mesh().indices(), &vec![0, 1, 2, 3, 4, 5]);
}

#[test]
fn build_batch_of_empty_meshes_is_not_drawable() {
    let first: Shader<&str, i32> = Shader::with_id(3, "prog", UniformBuffer::new());
    let meshes: Vec<Mesh<char>> = vec![Mesh::empty(), Mesh::empty()];
    let batch = build_batch(first, meshes, 2, 1).unwrap();
    assert!(!batch.is_drawable());
}

#[test]
fn mesh_error_kinds_are_distinct() {
    assert_ne!(MeshError::IndexOutOfRange, MeshError::TooManyVertices);
}
