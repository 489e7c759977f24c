use std::collections::HashSet;

use seedroad::terrain::road::{road_segments, search_window, segment_index, smoothing_window, N_SPLINE};
use seedroad::terrain::erosion::{flow_target, grid_index, neighbour_index, Flow};
use seedroad::terrain::{TerrainManager, MAX_CHUNKS, VIEW_RADIUS};

fn window(cx: i32, cz: i32) -> HashSet<(i32, i32)> {
    let mut s = HashSet::new();
    for dz in -VIEW_RADIUS..=VIEW_RADIUS {
        for dx in -VIEW_RADIUS..=VIEW_RADIUS {
            s.insert((cx + dx, cz + dz));
        }
    }
    s
}

fn loaded(t: &TerrainManager) -> HashSet<(i32, i32)> {
    t.chunks().iter().map(|e| e.key).collect()
}

fn assert_slots_unique(t: &TerrainManager) {
    let mut mesh = HashSet::new();
    let mut water = HashSet::new();
    for e in t.chunks() {
        assert!(e.data.mesh_slot < MAX_CHUNKS);
        assert!(mesh.insert(e.data.mesh_slot));
        if let Some(w) = e.data.water_slot {
            assert!(w < MAX_CHUNKS);
            assert!(water.insert(w));
        }
    }
}

#[test]
fn new_loads_window_around_origin() {
    let t = TerrainManager::new();
    assert_eq!(t.chunks().len(), MAX_CHUNKS);
    assert_eq!(loaded(&t), window(0, 0));
    assert_slots_unique(&t);
    let slots: HashSet<usize> = t.chunks().iter().map(|e| e.data.mesh_slot).collect();
    assert_eq!(slots, (0..MAX_CHUNKS).collect());
    assert!(t.chunks().iter().all(|e| e.data.water_slot.is_none()));
    // rows along z first: the first chunk loaded is the (-2, -2) corner on slot 0
    assert_eq!(t.chunk(&(-2, -2)).unwrap().mesh_slot, 0);
    assert_eq!(t.chunk(&(-1, -2)).unwrap().mesh_slot, 1);
    assert_eq!(t.chunk(&(2, 2)).unwrap().mesh_slot, 24);
}

#[test]
fn new_noise_is_seed_42() {
    let t = TerrainManager::new();
    let p = seedroad::terrain::Perlin::new(42);
    for i in 0..512 {
        assert_eq!(t.noise.entry(i), p.entry(i));
    }
}

#[test]
fn update_same_chunk_changes_nothing() {
    let mut t = TerrainManager::new();
    let before: Vec<_> = t.chunks().clone();
    let (added, removed) = t.update(0, 0);
    assert!(added.is_empty());
    assert!(removed.is_empty());
    assert_eq!(t.chunks(), &before);
}

#[test]
fn update_one_step_east_swaps_a_column() {
    let mut t = TerrainManager::new();
    let old_slot_kept = t.chunk(&(0, 0)).unwrap().mesh_slot;
    let freed: HashSet<usize> = (-2..=2).map(|z| t.chunk(&(-2, z)).unwrap().mesh_slot).collect();
    let (added, removed) = t.update(1, 0);
    let added: HashSet<_> = added.into_iter().collect();
    let removed: HashSet<_> = removed.into_iter().collect();
    assert_eq!(added, (-2..=2).map(|z| (3, z)).collect());
    assert_eq!(removed, (-2..=2).map(|z| (-2, z)).collect());
    assert_eq!(loaded(&t), window(1, 0));
    assert_slots_unique(&t);
    assert_eq!(t.chunk(&(0, 0)).unwrap().mesh_slot, old_slot_kept);
    let reused: HashSet<usize> = (-2..=2).map(|z| t.chunk(&(3, z)).unwrap().mesh_slot).collect();
    assert_eq!(reused, freed);
    assert!(t.chunk(&(-2, 0)).is_none());
}

#[test]
fn update_far_jump_reloads_everything() {
    let mut t = TerrainManager::new();
    let (added, removed) = t.update(100, -100);
    assert_eq!(added.len(), MAX_CHUNKS);
    assert_eq!(removed.len(), MAX_CHUNKS);
    assert_eq!(loaded(&t), window(100, -100));
    assert_slots_unique(&t);
}

#[test]
fn long_drive_keeps_slots_unique() {
    let mut t = TerrainManager::new();
    let path = [(1, 0), (1, 1), (2, 3), (2, 2), (-5, 4), (-5, 5), (0, 0), (0, 1)];
    for (i, &(cx, cz)) in path.iter().enumerate() {
        let (added, _) = t.update(cx, cz);
        for (n, k) in added.iter().enumerate() {
            if (n + i) % 2 == 0 {
                assert!(t.assign_water_slot(*k).is_some());
            }
        }
        assert_eq!(loaded(&t), window(cx, cz));
        assert_slots_unique(&t);
    }
}

#[test]
fn water_slots_assigned_once_and_released() {
    let mut t = TerrainManager::new();
    let w = t.assign_water_slot((0, 0)).unwrap();
    assert_eq!(w, 0);
    assert_eq!(t.assign_water_slot((0, 0)), Some(w));
    assert_eq!(t.chunk(&(0, 0)).unwrap().water_slot, Some(w));
    assert_eq!(t.assign_water_slot((50, 50)), None);
    let w2 = t.assign_water_slot((1, 1)).unwrap();
    assert_ne!(w, w2);
    // move away so (0, 0) unloads; its water slot goes back to the pool
    t.update(10, 10);
    let w3 = t.assign_water_slot((10, 10)).unwrap();
    assert!(w3 == w || w3 == w2);
}

#[test]
fn every_chunk_can_get_water() {
    let mut t = TerrainManager::new();
    let keys: Vec<_> = t.chunks().iter().map(|e| e.key).collect();
    for k in keys {
        assert!(t.assign_water_slot(k).is_some());
    }
    assert_slots_unique(&t);
}

#[test]
fn road_windows_stay_in_bounds() {
    assert_eq!(smoothing_window(0, N_SPLINE), (0, 40));
    assert_eq!(smoothing_window(1000, N_SPLINE), (960, 1040));
    assert_eq!(smoothing_window(2490, N_SPLINE), (2450, 2500));
    assert_eq!(search_window(5, 100), (0, 21));
    assert_eq!(search_window(90, 100), (74, 99));
    assert_eq!(segment_index(10, 2501), 10);
    assert_eq!(segment_index(5000, 2501), 2499);
    assert_eq!(road_segments(2501), 2499);
    assert_eq!(road_segments(100), 98);
    assert_eq!(road_segments(1), 0);
}

#[test]
fn erosion_grid_steps() {
    assert_eq!(grid_index(3, 2), 2 * 65 + 3);
    assert_eq!(flow_target(0, 5, Flow::West), None);
    assert_eq!(flow_target(64, 5, Flow::East), None);
    assert_eq!(flow_target(10, 0, Flow::South), None);
    assert_eq!(flow_target(10, 64, Flow::North), None);
    assert_eq!(flow_target(10, 20, Flow::East), Some((11, 20)));
    assert_eq!(flow_target(10, 20, Flow::South), Some((10, 19)));
    assert_eq!(neighbour_index(10, 20, Flow::North), Some(21 * 65 + 10));
    assert_eq!(neighbour_index(0, 20, Flow::West), None);
}
