use seedroad::mesh::{
    clump_indices, cone_indices, cube_indices, cylinder_indices, quad_grid_indices, water_quad_indices,
};

#[test]
fn cube_indices_fan_each_face() {
    let idx = cube_indices();
    assert_eq!(idx.len(), 36);
    assert_eq!(&idx[..6], &[0, 1, 2, 0, 2, 3]);
    assert_eq!(&idx[30..], &[20, 21, 22, 20, 22, 23]);
    assert!(idx.iter().all(|&i| i < 24));
}

#[test]
fn cylinder_three_sides() {
    let idx = cylinder_indices(3);
    assert_eq!(idx.len(), 36);
    assert_eq!(&idx[..9], &[0, 1, 2, 0, 2, 3, 0, 3, 1]);
    assert_eq!(&idx[9..18], &[4, 6, 5, 4, 7, 6, 4, 5, 7]);
    assert_eq!(&idx[18..24], &[8, 9, 10, 8, 10, 11]);
    assert_eq!(&idx[30..], &[16, 17, 18, 16, 18, 19]);
    assert!(idx.iter().all(|&i| i < 20));
}

#[test]
fn cylinder_twenty_sides_in_range() {
    let idx = cylinder_indices(20);
    assert_eq!(idx.len(), 240);
    assert!(idx.iter().all(|&i| (i as u32) < 6 * 20 + 2));
}

#[test]
fn cone_four_sides() {
    let idx = cone_indices(4);
    assert_eq!(idx.len(), 24);
    assert_eq!(&idx[..12], &[0, 1, 2, 0, 2, 3, 0, 3, 4, 0, 4, 1]);
    assert_eq!(&idx[12..18], &[5, 7, 6, 8, 10, 9]);
    assert!(idx.iter().all(|&i| i < 17));
}

#[test]
fn sphere_grid_winding() {
    let idx = quad_grid_indices(8, 12, false);
    assert_eq!(idx.len(), 8 * 12 * 6);
    assert_eq!(&idx[..6], &[0, 1, 13, 1, 14, 13]);
    assert!(idx.iter().all(|&i| i < 9 * 13));
}

#[test]
fn terrain_grid_is_flipped() {
    let idx = quad_grid_indices(64, 64, true);
    assert_eq!(idx.len(), 64 * 64 * 6);
    assert_eq!(&idx[..6], &[0, 65, 1, 1, 65, 66]);
    let last = idx.len() - 6;
    assert_eq!(&idx[last..], &[4158, 4223, 4159, 4159, 4223, 4224]);
    assert!(idx.iter().all(|&i| (i as usize) < 65 * 65));
}

#[test]
fn road_strip_grid() {
    let idx = quad_grid_indices(2499, 8, false);
    assert_eq!(idx.len(), 2499 * 8 * 6);
    assert_eq!(&idx[..6], &[0, 1, 9, 1, 10, 9]);
    assert!(idx.iter().all(|&i| (i as usize) < 2500 * 9));
}

#[test]
fn empty_grid() {
    assert!(quad_grid_indices(0, 5, false).is_empty());
}

#[test]
fn water_quad() {
    assert_eq!(water_quad_indices(8), vec![8, 10, 9, 9, 10, 11]);
}

#[test]
fn grass_clump_strip() {
    let idx = clump_indices();
    assert_eq!(idx.len(), 81);
    assert_eq!(
        &idx[..27],
        &[0, 2, 1, 1, 2, 3, 2, 4, 3, 3, 4, 5, 4, 6, 5, 5, 6, 7, 6, 8, 7, 7, 8, 9, 8, 10, 9]
    );
    assert_eq!(&idx[27..30], &[11, 13, 12]);
    assert!(idx.iter().all(|&i| i < 33));
}
