use dd_terrain::mesh::Mesh;

fn mesh(vertices: Vec<char>, indices: Vec<u32>) -> Mesh<char> {
    Mesh { vertices, indices }
}

fn index_safe(mesh: &Mesh<char>) -> bool {
    mesh.indices.iter().all(|index| (*index as usize) < mesh.vertices.len())
}

#[test]
fn the_empty_mesh_has_nothing() {
    let empty: Mesh<char> = Mesh::empty();
    assert!(empty.vertices.is_empty());
    assert!(empty.indices.is_empty());
}

#[test]
fn copy_into_raises_the_copied_indices() {
    let source = mesh(vec!['a', 'b', 'c'], vec![0, 1, 2, 2, 1, 0]);
    let mut target = mesh(vec!['x', 'y'], vec![1, 0, 1]);
    source.copy_into(&mut target);
    assert_eq!(target.vertices, vec!['x', 'y', 'a', 'b', 'c']);
    assert_eq!(target.indices, vec![1, 0, 1, 2, 3, 4, 4, 3, 2]);
    assert_eq!(source.vertices, vec!['a', 'b', 'c']);
    assert_eq!(source.indices, vec![0, 1, 2, 2, 1, 0]);
    assert!(index_safe(&target));
}

#[test]
fn copy_into_an_empty_mesh_is_a_copy() {
    let source = mesh(vec!['a', 'b', 'c'], vec![2, 0, 1]);
    let mut target = Mesh::empty();
    source.copy_into(&mut target);
    assert_eq!(target.vertices, source.vertices);
    assert_eq!(target.indices, source.indices);
}

#[test]
fn copy_merge_puts_the_meshes_one_after_another() {
    let first = mesh(vec!['a', 'b', 'c'], vec![0, 1, 2]);
    let second = mesh(vec![], vec![]);
    let third = mesh(vec!['d', 'e', 'f', 'g'], vec![3, 2, 1, 1, 2, 0]);
    let merged = Mesh::copy_merge(&vec![&first, &second, &third]);
    assert_eq!(merged.vertices, vec!['a', 'b', 'c', 'd', 'e', 'f', 'g']);
    assert_eq!(merged.indices, vec![0, 1, 2, 6, 5, 4, 4, 5, 3]);
    assert_eq!(merged.vertices.len(), 3 + 0 + 4);
    assert!(index_safe(&merged));
}

#[test]
fn copy_merge_of_nothing_is_empty() {
    let merged: Mesh<char> = Mesh::copy_merge(&vec![]);
    assert!(merged.vertices.is_empty());
    assert!(merged.indices.is_empty());
}

#[test]
fn merge_moves_the_vertices_out() {
    let mut meshes = vec![
        mesh(vec!['a', 'b', 'c'], vec![0, 1, 2]),
        mesh(vec!['d', 'e', 'f'], vec![2, 1, 0, 0, 1, 2]),
        mesh(vec!['g', 'h', 'i'], vec![1, 1, 1]),
    ];
    let merged = Mesh::merge(&mut meshes);
    assert_eq!(merged.vertices, vec!['a', 'b', 'c', 'd', 'e', 'f', 'g', 'h', 'i']);
    assert_eq!(merged.indices, vec![0, 1, 2, 5, 4, 3, 3, 4, 5, 7, 7, 7]);
    assert!(index_safe(&merged));
    assert_eq!(meshes.len(), 3);
    for (emptied, indices) in meshes.iter().zip([vec![0, 1, 2], vec![2, 1, 0, 0, 1, 2], vec![1, 1, 1]]) {
        assert!(emptied.vertices.is_empty());
        assert_eq!(emptied.indices, indices);
    }
}

#[test]
fn merging_many_meshes_keeps_every_index_in_range() {
    let mut meshes = Vec::new();
    let mut total = 0;
    for n in 1..40usize {
        let vertices = vec!['v'; n];
        let indices = (0..3 * n).map(|i| ((i * 7) % n) as u32).collect();
        total += n;
        meshes.push(mesh(vertices, indices));
    }
    let copies = Mesh::copy_merge(&meshes.iter().collect());
    assert_eq!(copies.vertices.len(), total);
    assert!(index_safe(&copies));
    let merged = Mesh::merge(&mut meshes);
    assert_eq!(merged.vertices.len(), total);
    assert_eq!(merged.indices, copies.indices);
    assert!(index_safe(&merged));
}
