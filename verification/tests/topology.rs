use vleue_navigator::topology::{
    is_navmesh_topology, outline_indices, shown_color, triangle_fan_indices,
    triangles_from_indices, wireframe_indices, MeshTopology,
};

fn widen(indices: &[u32]) -> Vec<usize> {
    indices.iter().map(|i| *i as usize).collect()
}

#[test]
fn mesh_of_navmesh_reads_back_as_same_triangles() {
    // The triangles of a navigation mesh, turned into a triangle list and read
    // back, come back with their winding reversed.
    let polygons = vec![
        vec![0, 1, 4],
        vec![1, 2, 5],
        vec![5, 2, 3],
        vec![1, 5, 3],
        vec![0, 4, 3],
    ];
    let indices = triangle_fan_indices(&polygons);
    assert_eq!(indices, vec![0, 1, 4, 1, 2, 5, 5, 2, 3, 1, 5, 3, 0, 4, 3]);
    let triangles = triangles_from_indices(&widen(&indices));
    assert_eq!(
        triangles,
        vec![[4, 1, 0], [5, 2, 1], [3, 2, 5], [3, 5, 1], [3, 4, 0]]
    );
}

#[test]
fn rotated_mesh_triangles_are_reversed() {
    let triangles = triangles_from_indices(&vec![0, 1, 3, 0, 3, 2]);
    assert_eq!(triangles, vec![[3, 1, 0], [2, 3, 0]]);
}

#[test]
fn trailing_indices_are_ignored() {
    assert_eq!(triangles_from_indices(&vec![0, 1, 2, 3, 4]), vec![[2, 1, 0]]);
    assert_eq!(triangles_from_indices(&vec![7, 8]), Vec::<[usize; 3]>::new());
}

#[test]
fn fan_of_larger_polygons() {
    assert_eq!(
        triangle_fan_indices(&vec![vec![0, 1, 2, 3]]),
        vec![0, 1, 2, 0, 2, 3]
    );
    let pentagon = triangle_fan_indices(&vec![vec![9, 8, 7, 6, 5]]);
    assert_eq!(pentagon, vec![9, 8, 7, 9, 7, 6, 9, 6, 5]);
    let tris = triangles_from_indices(&widen(&pentagon));
    assert_eq!(tris, vec![[7, 8, 9], [6, 7, 9], [5, 6, 9]]);
}

#[test]
fn degenerate_polygons_have_no_triangles() {
    assert_eq!(
        triangle_fan_indices(&vec![vec![], vec![1], vec![1, 2]]),
        Vec::<u32>::new()
    );
}

#[test]
fn wireframe_draws_shared_edge_once() {
    let polygons = vec![vec![0, 1, 2], vec![2, 1, 3]];
    assert_eq!(
        wireframe_indices(&polygons),
        vec![0, 1, 1, 2, 2, 0, 1, 3, 3, 2]
    );
}

#[test]
fn wireframe_keeps_first_direction() {
    let polygons = vec![vec![5, 3], vec![3, 5, 4]];
    // Edges: (5,3), (3,5) [dup], (3,5) [dup], (5,4), (4,3)
    assert_eq!(wireframe_indices(&polygons), vec![5, 3, 5, 4, 4, 3]);
}

#[test]
fn wireframe_of_nothing_is_empty() {
    assert_eq!(wireframe_indices(&vec![]), Vec::<u32>::new());
    assert_eq!(wireframe_indices(&vec![vec![]]), Vec::<u32>::new());
}

#[test]
fn outline_skips_missing_vertices_and_closes() {
    assert_eq!(outline_indices(&vec![1, u32::MAX, 2, 3]), vec![1, 2, 3, 1]);
    assert_eq!(outline_indices(&vec![4, 5, 6]), vec![4, 5, 6, 4]);
    assert_eq!(outline_indices(&vec![u32::MAX, u32::MAX]), Vec::<u32>::new());
    assert_eq!(outline_indices(&vec![]), Vec::<u32>::new());
}

#[test]
fn only_triangle_lists_make_navigation_meshes() {
    assert!(is_navmesh_topology(MeshTopology::TriangleList));
    assert!(!is_navmesh_topology(MeshTopology::TriangleStrip));
    assert!(!is_navmesh_topology(MeshTopology::LineList));
    assert!(!is_navmesh_topology(MeshTopology::LineStrip));
    assert!(!is_navmesh_topology(MeshTopology::PointList));
}

#[test]
fn own_debug_colour_wins_over_the_shared_one() {
    assert_eq!(shown_color(Some(1u8), Some(2u8)), Some(1));
    assert_eq!(shown_color(None, Some(2u8)), Some(2));
    assert_eq!(shown_color(Some(1u8), None), Some(1));
    assert_eq!(shown_color::<u8>(None, None), None);
}
