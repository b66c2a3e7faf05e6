use furry_render::mesh::{plane_indices, sphere_uv_indices, subdivide_indices};

#[test]
fn plane_is_two_triangles() {
    assert_eq!(plane_indices(), vec![0, 1, 2, 2, 3, 0]);
}

#[test]
fn sphere_with_three_slices_and_two_stacks() {
    let expected: Vec<u32> = vec![
        0, 1, 2, 0, 2, 3, 0, 3, 1, // top fan
        1, 2, 5, 5, 4, 1, 2, 3, 6, 6, 5, 2, 3, 1, 4, 4, 6, 3, // band
        7, 6, 5, 7, 5, 4, 7, 4, 6, // bottom fan
    ];
    assert_eq!(sphere_uv_indices(3, 2), expected);
}

#[test]
fn sphere_with_one_stack_has_only_fans() {
    assert_eq!(sphere_uv_indices(2, 1), vec![0, 1, 2, 0, 2, 1, 3, 2, 1, 3, 1, 2]);
}

#[test]
fn sphere_without_slices_is_empty() {
    assert!(sphere_uv_indices(0, 4).is_empty());
}

#[test]
fn sphere_index_count() {
    assert_eq!(sphere_uv_indices(16, 8).len(), 6 * 16 * 8);
}

#[test]
fn one_triangle_splits_into_four() {
    assert_eq!(subdivide_indices(&vec![0, 1, 2], 3), vec![0, 3, 5, 1, 4, 3, 2, 5, 4, 3, 4, 5]);
}

#[test]
fn midpoints_are_numbered_per_triangle() {
    assert_eq!(
        subdivide_indices(&vec![0, 1, 2, 2, 1, 3], 4),
        vec![0, 4, 6, 1, 5, 4, 2, 6, 5, 4, 5, 6, 2, 7, 9, 1, 8, 7, 3, 9, 8, 7, 8, 9]
    );
}

#[test]
fn trailing_partial_triangle_is_dropped() {
    assert_eq!(
        subdivide_indices(&vec![0, 1, 2, 5], 3),
        vec![0, 3, 5, 1, 4, 3, 2, 5, 4, 3, 4, 5]
    );
    assert!(subdivide_indices(&vec![], 0).is_empty());
}
