use seedroad::render::{
    initial_extent, plan_batches, resized_extent, resolve_mesh, uniform_offset, BatchPlan, MeshRef,
    MAX_INSTANCES, MESH_CUBE, MESH_SPHERE, MESH_TERRAIN_BASE, MESH_WATER_BASE,
};

#[test]
fn mesh_ids_resolve_to_pools() {
    assert_eq!(resolve_mesh(MESH_CUBE), MeshRef::Static(0));
    assert_eq!(resolve_mesh(MESH_SPHERE), MeshRef::Static(6));
    assert_eq!(resolve_mesh(9), MeshRef::Static(9));
    assert_eq!(resolve_mesh(MESH_TERRAIN_BASE), MeshRef::Terrain(0));
    assert_eq!(resolve_mesh(MESH_TERRAIN_BASE + 24), MeshRef::Terrain(24));
    assert_eq!(MESH_WATER_BASE, 35);
    assert_eq!(resolve_mesh(MESH_WATER_BASE), MeshRef::Water(0));
    assert_eq!(resolve_mesh(MESH_WATER_BASE + 7), MeshRef::Water(7));
}

#[test]
fn batches_share_the_pool_in_order() {
    assert_eq!(plan_batches(1, 500, 30), BatchPlan { sky: 1, opaque: 500, water: 30 });
    assert_eq!(plan_batches(1, 9000, 30), BatchPlan { sky: 1, opaque: MAX_INSTANCES - 1, water: 0 });
    assert_eq!(plan_batches(1, 8000, 300), BatchPlan { sky: 1, opaque: 8000, water: 191 });
    assert_eq!(plan_batches(10000, 5, 5), BatchPlan { sky: MAX_INSTANCES, opaque: 0, water: 0 });
    assert_eq!(plan_batches(0, 0, 0), BatchPlan { sky: 0, opaque: 0, water: 0 });
}

#[test]
fn uniform_offsets() {
    assert_eq!(uniform_offset(0), 0);
    assert_eq!(uniform_offset(3), 768);
    assert_eq!(uniform_offset(MAX_INSTANCES - 1), 8191 * 256);
}

#[test]
fn resize_extent() {
    assert_eq!(resized_extent(0, 720, 8192), None);
    assert_eq!(resized_extent(1280, 0, 8192), None);
    assert_eq!(resized_extent(1280, 720, 8192), Some((1280, 720)));
    assert_eq!(resized_extent(10000, 720, 8192), Some((8192, 720)));
}

#[test]
fn startup_extent() {
    assert_eq!(initial_extent(0, 0, 2048), (1, 1));
    assert_eq!(initial_extent(4000, 600, 2048), (2048, 600));
}
