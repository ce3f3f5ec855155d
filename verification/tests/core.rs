use grass::diagnostics::{patch_label, publish_diagnostics, tally_patch, ChunkRecord, PatchRecord};
use grass::materials::pack_interaction_zones;
use grass::mesh::{build_chunk_indices, BladeShape};
use grass::rng::DeterministicRng;
use grass::scatter::{
    channel_byte, chunk_seed, density_texel, mesh_sample_attempts, planar_grid_rows,
    GrassTextureChannel,
};
use grass::surface::{sequential_indices, triangle_corners, ChunkCoord, ChunkLayout, SurfaceBake};
use grass::systems::{asset_change_needs_rebuild, GrassPatchState, GrassRuntimeState};
use grass::wind::zone_priority_order;

#[test]
fn rng_steps_xorshift_and_maps_zero_seed_to_one() {
    let mut zero = DeterministicRng::new(0);
    let mut one = DeterministicRng::new(1);
    assert_eq!(zero.next_u64(), 1_082_269_761);
    assert_eq!(one.next_u64(), 1_082_269_761);
    assert_eq!(zero.next_u64(), 1_152_992_998_833_853_505);
    assert_eq!(one.next_u64(), 1_152_992_998_833_853_505);
}

#[test]
fn rng_is_deterministic_for_seed() {
    let mut a = DeterministicRng::new(42);
    let mut b = DeterministicRng::new(42);
    let first = a.next_u64();
    assert_eq!(first, 45_454_805_674);
    assert_eq!(first, b.next_u64());
    for _ in 0..100 {
        let x = a.next_u64();
        assert_ne!(x, 0);
        assert_eq!(x, b.next_u64());
    }
}

#[test]
fn chunk_seed_mixes_coordinates_lod_and_archetype() {
    let s = chunk_seed(7, ChunkCoord { x: 1, y: -1 }, 2, 1);
    assert_eq!(s, 18_446_744_069_414_584_315);
    assert_eq!(chunk_seed(7, ChunkCoord { x: 0, y: 0 }, 0, 0), 7);
    assert_eq!(chunk_seed(7, ChunkCoord { x: 0, y: 3 }, 0, 0), 4);
}

#[test]
fn planar_grid_rows_round_up() {
    assert_eq!(planar_grid_rows(10, 3), 4);
    assert_eq!(planar_grid_rows(9, 3), 3);
    assert_eq!(planar_grid_rows(0, 5), 1);
    assert_eq!(planar_grid_rows(1, 1), 1);
    assert_eq!(mesh_sample_attempts(0), 16);
    assert_eq!(mesh_sample_attempts(4), 16);
    assert_eq!(mesh_sample_attempts(5), 20);
}

#[test]
fn layout_contains_and_enumerates_coords() {
    let layout = ChunkLayout { dims_x: 3, dims_y: 2 };
    assert!(layout.contains_coord(ChunkCoord { x: 2, y: 1 }));
    assert!(!layout.contains_coord(ChunkCoord { x: 3, y: 0 }));
    assert!(!layout.contains_coord(ChunkCoord { x: 0, y: -1 }));
    let coords: Vec<(i32, i32)> = layout.coords().iter().map(|c| (c.x, c.y)).collect();
    assert_eq!(coords, vec![(0, 0), (1, 0), (2, 0), (0, 1), (1, 1), (2, 1)]);
    assert!(ChunkLayout { dims_x: 0, dims_y: 4 }.coords().is_empty());
}

#[test]
fn surface_bake_lists_triangles_per_chunk() {
    let mut bake = SurfaceBake::new(ChunkLayout { dims_x: 2, dims_y: 2 });
    let first = bake.push_triangle(ChunkCoord { x: -1, y: -1 }, ChunkCoord { x: 0, y: 0 });
    let second = bake.push_triangle(ChunkCoord { x: 0, y: 0 }, ChunkCoord { x: 5, y: 1 });
    let third = bake.push_triangle(ChunkCoord { x: 4, y: 4 }, ChunkCoord { x: 6, y: 6 });
    assert_eq!((first, second, third), (0, 1, 2));
    assert_eq!(bake.triangle_count(), 3);
    assert_eq!(bake.triangle_indices(ChunkCoord { x: 0, y: 0 }), &[0, 1]);
    assert_eq!(bake.triangle_indices(ChunkCoord { x: 1, y: 0 }), &[1]);
    assert_eq!(bake.triangle_indices(ChunkCoord { x: 1, y: 1 }), &[1]);
    assert!(bake.triangle_indices(ChunkCoord { x: 2, y: 0 }).is_empty());
    assert!(bake.triangle_indices(ChunkCoord { x: -1, y: 0 }).is_empty());
}

#[test]
fn index_buffers_split_into_triangles() {
    assert_eq!(
        triangle_corners(&[0, 1, 2, 2, 1, 3, 9]),
        vec![(0, 1, 2), (2, 1, 3)]
    );
    assert_eq!(sequential_indices(4), vec![0, 1, 2, 3]);
    assert!(sequential_indices(0).is_empty());
}

#[test]
fn strip_blade_indices() {
    let buffer = build_chunk_indices(BladeShape::Strip, 2, 1).unwrap();
    assert_eq!(buffer.vertex_count, 6);
    assert_eq!(buffer.indices, vec![0, 1, 2, 1, 3, 2, 2, 3, 4, 3, 5, 4]);
    let two = build_chunk_indices(BladeShape::Strip, 1, 2).unwrap();
    assert_eq!(two.vertex_count, 8);
    assert_eq!(two.indices, vec![0, 1, 2, 1, 3, 2, 4, 5, 6, 5, 7, 6]);
}

#[test]
fn other_blade_shapes_indices() {
    let cross = build_chunk_indices(BladeShape::CrossBillboard, 1, 1).unwrap();
    assert_eq!(cross.vertex_count, 8);
    assert_eq!(cross.indices, vec![0, 1, 2, 1, 3, 2, 4, 5, 6, 5, 7, 6]);
    let card = build_chunk_indices(BladeShape::FlatCard, 6, 2).unwrap();
    assert_eq!(card.vertex_count, 8);
    assert_eq!(card.indices, vec![0, 1, 2, 1, 3, 2, 4, 5, 6, 5, 7, 6]);
    let tri = build_chunk_indices(BladeShape::SingleTriangle, 3, 3).unwrap();
    assert_eq!(tri.vertex_count, 9);
    assert_eq!(tri.indices, vec![0, 1, 2, 3, 4, 5, 6, 7, 8]);
}

#[test]
fn no_chunk_mesh_without_blades_or_segments() {
    assert!(build_chunk_indices(BladeShape::Strip, 6, 0).is_none());
    assert!(build_chunk_indices(BladeShape::FlatCard, 0, 5).is_none());
}

#[test]
fn chunk_indices_stay_in_range() {
    for shape in [
        BladeShape::Strip,
        BladeShape::CrossBillboard,
        BladeShape::FlatCard,
        BladeShape::SingleTriangle,
    ] {
        let buffer = build_chunk_indices(shape, 4, 7).unwrap();
        assert_eq!(buffer.indices.len() % 3, 0);
        assert!(buffer.indices.iter().all(|&i| i < buffer.vertex_count));
        for tri in buffer.indices.chunks(3) {
            assert!(tri[0] != tri[1] && tri[1] != tri[2] && tri[0] != tri[2]);
        }
    }
}

#[test]
fn density_texel_reads_bytes_and_checks_bounds() {
    let data = [
        255, 0, 0, 255, 0, 255, 0, 255, 0, 0, 255, 255, 255, 255, 255, 255,
    ];
    assert_eq!(density_texel(&data, 2, 2, 1, 0), Some((0, 255, 0, 255)));
    assert_eq!(density_texel(&data, 2, 2, 0, 1), Some((0, 0, 255, 255)));
    assert_eq!(density_texel(&data, 0, 2, 0, 0), None);
    assert_eq!(density_texel(&data[..12], 2, 2, 1, 1), None);
    let t = density_texel(&data, 2, 2, 0, 0).unwrap();
    assert_eq!(channel_byte(t, GrassTextureChannel::Red), Some(255));
    assert_eq!(channel_byte(t, GrassTextureChannel::Green), Some(0));
    assert_eq!(channel_byte(t, GrassTextureChannel::Alpha), Some(255));
    assert_eq!(channel_byte(t, GrassTextureChannel::Luminance), None);
}

#[test]
fn patch_labels_use_the_entity_index() {
    assert_eq!(patch_label(0), "Patch 0");
    assert_eq!(patch_label(7), "Patch 7");
    assert_eq!(patch_label(1234), "Patch 1234");
    assert_eq!(patch_label(u32::MAX), "Patch 4294967295");
}

fn chunk(patch: u64, lod_index: usize, blade_count: u32, visible: bool) -> ChunkRecord {
    ChunkRecord { patch, lod_index, blade_count, visible }
}

#[test]
fn patch_tally_counts_per_lod() {
    let chunks = vec![
        chunk(1, 0, 10, true),
        chunk(2, 0, 99, true),
        chunk(1, 1, 5, false),
        chunk(1, 4, 3, true),
        chunk(1, 0, 2, false),
    ];
    let d = tally_patch(
        PatchRecord { entity: 1, entity_index: 9, name: None, dirty: true },
        &chunks,
    );
    assert_eq!(d.entity, 1);
    assert_eq!(d.name, "Patch 9");
    assert!(d.dirty);
    assert_eq!(d.chunk_count, 4);
    assert_eq!(d.blade_count, 20);
    assert_eq!(d.visible_chunk_count, 2);
    assert_eq!(d.visible_blade_count, 13);
    assert_eq!(d.lod_chunk_counts, vec![2, 1, 0, 0, 1]);
    assert_eq!(d.lod_blade_counts, vec![12, 5, 0, 0, 3]);
    assert_eq!(d.visible_lod_chunk_counts, vec![1, 0, 0, 0, 1]);
    assert_eq!(d.visible_lod_blade_counts, vec![10, 0, 0, 0, 3]);
    assert_eq!(d.lod_chunk_counts.iter().sum::<u32>(), d.chunk_count);
    assert_eq!(d.lod_blade_counts.iter().sum::<u32>(), d.blade_count);
}

#[test]
fn patch_without_chunks_has_three_empty_lod_slots() {
    let d = tally_patch(
        PatchRecord { entity: 3, entity_index: 3, name: Some("Meadow".to_string()), dirty: false },
        &[],
    );
    assert_eq!(d.name, "Meadow");
    assert_eq!(d.chunk_count, 0);
    assert_eq!(d.lod_chunk_counts, vec![0, 0, 0]);
    assert_eq!(d.visible_lod_blade_counts, vec![0, 0, 0]);
}

#[test]
fn publish_diagnostics_totals() {
    let chunks = vec![chunk(1, 0, 10, true), chunk(2, 2, 7, false), chunk(1, 1, 4, true)];
    let patches = vec![
        PatchRecord { entity: 1, entity_index: 1, name: Some("A".to_string()), dirty: false },
        PatchRecord { entity: 2, entity_index: 2, name: None, dirty: true },
    ];
    let d = publish_diagnostics(true, &patches, &chunks, 3, true, false, 2);
    assert!(d.runtime_active);
    assert_eq!(d.active_patches, 2);
    assert_eq!(d.active_chunks, 3);
    assert_eq!(d.active_blades, 21);
    assert_eq!(d.visible_chunks, 2);
    assert_eq!(d.visible_blades, 14);
    assert_eq!(d.interaction_zones, 3);
    assert!(!d.using_world_wind);
    assert_eq!(d.wind_zone_count, 2);
    assert_eq!(d.patches.len(), 2);
    assert_eq!(d.patches[0].name, "A");
    assert_eq!(d.patches[0].blade_count, 14);
    assert_eq!(d.patches[1].name, "Patch 2");
    assert_eq!(d.patches[1].lod_blade_counts, vec![0, 0, 7]);
    let with_wind = publish_diagnostics(false, &[], &[], 0, true, true, 0);
    assert!(with_wind.using_world_wind);
    assert_eq!(with_wind.active_chunks, 0);
}

#[test]
fn wind_zones_blend_by_descending_priority_stably() {
    assert_eq!(zone_priority_order(&[1, 5, 1, 5, 0]), vec![1, 3, 0, 2, 4]);
    assert_eq!(zone_priority_order(&[]), Vec::<usize>::new());
    assert_eq!(zone_priority_order(&[-3, -1, -2]), vec![1, 2, 0]);
}

#[test]
fn only_four_interaction_zones_are_packed() {
    let (slots, count) = pack_interaction_zones(&[1, 2, 3, 4, 5, 6], 0);
    assert_eq!((slots, count), ([1, 2, 3, 4], 4));
    let (slots, count) = pack_interaction_zones(&[9, 8], -1);
    assert_eq!((slots, count), ([9, 8, -1, -1], 2));
}

#[test]
fn patch_state_rebuild_cycle() {
    let mut runtime = GrassRuntimeState::new();
    assert!(!runtime.runtime_is_active());
    runtime.activate();
    assert!(runtime.runtime_is_active());

    let mut state: GrassPatchState<u64, u32> = GrassPatchState::new();
    assert!(!state.dirty());
    assert!(state.begin_rebuild().is_none());

    state.on_activate();
    assert!(state.dirty());
    let (old_chunks, old_materials) = state.begin_rebuild().unwrap();
    assert!(old_chunks.is_empty() && old_materials.is_empty());
    state.record_chunk(10, 100);
    state.record_chunk(11, 101);
    state.finish_rebuild();
    assert!(!state.dirty());
    assert_eq!(state.generated_chunks(), &vec![10, 11]);
    assert!(state.begin_rebuild().is_none());

    state.mark_dirty();
    let (old_chunks, old_materials) = state.begin_rebuild().unwrap();
    assert_eq!(old_chunks, vec![10, 11]);
    assert_eq!(old_materials, vec![100, 101]);
    state.record_chunk(12, 102);
    state.finish_rebuild();

    assert!(state.surface_change_needs_rebuild(false, true));
    assert!(!state.surface_change_needs_rebuild(false, false));
    let materials = state.on_deactivate();
    assert_eq!(materials, vec![102]);
    assert!(state.dirty());
    assert!(state.generated_chunks().is_empty());
    assert!(!state.surface_change_needs_rebuild(false, true));
    assert!(state.surface_change_needs_rebuild(true, false));
}

#[test]
fn runtime_deactivates_after_activation() {
    let mut runtime = GrassRuntimeState::new();
    runtime.activate();
    assert!(runtime.runtime_is_active());
    runtime.deactivate();
    assert!(!runtime.runtime_is_active());
}

#[test]
fn asset_changes_rebuild_only_when_a_watched_asset_changed() {
    assert!(!asset_change_needs_rebuild(false, &[]));
    assert!(!asset_change_needs_rebuild(false, &[false, false]));
    assert!(asset_change_needs_rebuild(true, &[]));
    assert!(asset_change_needs_rebuild(false, &[false, true]));
}

#[test]
fn surface_bake_lists_stay_sorted_and_in_layout() {
    let mut bake = SurfaceBake::new(ChunkLayout { dims_x: 2, dims_y: 2 });
    bake.push_triangle(ChunkCoord { x: -3, y: -3 }, ChunkCoord { x: 5, y: 5 });
    bake.push_triangle(ChunkCoord { x: 1, y: 0 }, ChunkCoord { x: 1, y: 1 });
    bake.push_triangle(ChunkCoord { x: 0, y: 1 }, ChunkCoord { x: 3, y: 1 });
    assert_eq!(bake.triangle_indices(ChunkCoord { x: 1, y: 1 }), &[0, 1, 2]);
    assert_eq!(bake.triangle_indices(ChunkCoord { x: 0, y: 0 }), &[0]);
    assert!(bake.triangle_indices(ChunkCoord { x: 2, y: 1 }).is_empty());
    assert!(bake.triangle_indices(ChunkCoord { x: -1, y: 0 }).is_empty());
}
