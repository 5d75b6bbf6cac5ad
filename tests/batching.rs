use rainier::batch::{batch_runs, Run};
use rainier::compose::build_batch;
use rainier::mesh::Mesh;
use rainier::shader::Shader;
use rainier::uniforms::UniformBuffer;

fn run(id: u64, start: usize, len: usize) -> Run {
    Run { id, start, len }
}

#[test]
fn empty_stream_has_no_batches() {
    assert_eq!(batch_runs(&vec![]), vec![]);
}

#[test]
fn shared_id_coalesces_into_one_batch() {
    assert_eq!(batch_runs(&vec![7, 7]), vec![run(7, 0, 2)]);
}

#[test]
fn distinct_ids_give_two_batches() {
    assert_eq!(batch_runs(&vec![7, 8]), vec![run(7, 0, 1), run(8, 1, 1)]);
}

#[test]
fn separated_runs_are_not_merged() {
    assert_eq!(
        batch_runs(&vec![1, 1, 2, 1, 1, 1]),
        vec![run(1, 0, 2), run(2, 2, 1), run(1, 3, 3)]
    );
}

#[test]
fn single_element_is_one_batch() {
    assert_eq!(batch_runs(&vec![u64::MAX]), vec![run(u64::MAX, 0, 1)]);
}

#[test]
fn batches_draw_every_triangle_once_in_order() {
    let ids: Vec<u64> = vec![5, 5, 6, 5];
    let parts: Vec<(Vec<char>, Vec<u32>)> = vec![
        (vec!['a', 'b', 'c'], vec![0, 1, 2]),
        (vec!['d', 'e', 'f'], vec![2, 0, 1]),
        (vec!['g', 'h', 'i'], vec![1, 2, 0]),
        (vec!['j', 'k', 'l', 'm'], vec![0, 1, 2, 3, 2, 1]),
    ];
    let expected: Vec<char> = parts
        .iter()
        .flat_map(|(v, i)| i.iter().map(move |k| v[*k as usize]))
        .collect();
    let runs = batch_runs(&ids);
    assert_eq!(runs.len(), 3);
    let mut drawn = Vec::new();
    for r in runs {
        let meshes: Vec<Mesh<char>> = parts[r.start..r.start + r.len]
            .iter()
            .map(|(v, i)| Mesh::from_parts(v.clone(), i.clone()).unwrap())
            .collect();
        let first: Shader<&str, i32> = Shader::with_id(r.id, "prog", UniformBuffer::new());
        let batch = build_batch(first, meshes, 1, 1).unwrap();
        let m = batch.mesh();
        drawn.extend(m.indices().iter().map(|k| m.vertices()[*k as usize]));
    }
    assert_eq!(drawn, expected);
}
