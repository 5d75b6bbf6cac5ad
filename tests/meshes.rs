use rainier::mesh::{Mesh, MeshError};

fn mesh(vertices: Vec<char>, indices: Vec<u32>) -> Mesh<char> {
    Mesh::from_parts(vertices, indices).unwrap()
}

#[test]
fn from_parts_rejects_out_of_range_index() {
    assert_eq!(
        Mesh::from_parts(vec!['a', 'b'], vec![0, 2]).err(),
        Some(MeshError::IndexOutOfRange)
    );
}

#[test]
fn from_parts_accepts_valid_mesh() {
    let m = mesh(vec!['a', 'b', 'c'], vec![0, 1, 2]);
    assert_eq!(m.vertices(), &vec!['a', 'b', 'c']);
    assert_eq!(m.indices(), &vec![0, 1, 2]);
    assert!(!m.is_empty());
}

#[test]
fn append_rebases_indices() {
    let mut a = mesh(vec!['a', 'b', 'c'], vec![0, 1, 2]);
    let b = mesh(vec!['x', 'y', 'z', 'w'], vec![0, 1, 2, 2, 3, 0]);
    a.append(b).unwrap();
    assert_eq!(a.vertices(), &vec!['a', 'b', 'c', 'x', 'y', 'z', 'w']);
    assert_eq!(a.indices(), &vec![0, 1, 2, 3, 4, 5, 5, 6, 3]);
}

#[test]
fn rebased_indices_name_the_same_vertices() {
    let mut a = mesh(vec!['a', 'b'], vec![1, 0, 1]);
    let b = mesh(vec!['x', 'y', 'z'], vec![2, 0, 1]);
    a.append(b).unwrap();
    let named: Vec<char> = a.indices().iter().map(|i| a.vertices()[*i as usize]).collect();
    assert_eq!(named, vec!['b', 'a', 'b', 'z', 'x', 'y']);
    assert!(a.indices().iter().all(|i| (*i as usize) < 5));
}

#[test]
fn merge_of_nothing_is_empty() {
    let m: Mesh<char> = Mesh::merge(vec![]).unwrap();
    assert!(m.is_empty());
    assert!(m.vertices().is_empty());
}

#[test]
fn merge_concatenates_in_order() {
    let m = Mesh::merge(vec![
        mesh(vec!['a', 'b', 'c'], vec![0, 1, 2]),
        mesh(vec![], vec![]),
        mesh(vec!['d', 'e', 'f'], vec![2, 1, 0]),
        mesh(vec!['g', 'h', 'i'], vec![0, 2, 1]),
    ])
    .unwrap();
    assert_eq!(m.indices(), &vec![0, 1, 2, 5, 4, 3, 6, 8, 7]);
    let (vertices, indices) = m.into_parts();
    assert_eq!(vertices.len(), 9);
    assert_eq!(indices.len(), 9);
}

#[test]
fn empty_mesh_has_nothing_to_draw() {
    let m: Mesh<char> = Mesh::empty();
    assert!(m.is_empty());
    let only_vertices = mesh(vec!['a'], vec![]);
    assert!(only_vertices.is_empty());
}
