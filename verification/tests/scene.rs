use wgpu_voxels::scene::{
    advance_chunk_loading, build_scene_world, collect_active_render_objects,
    collect_all_render_objects, load_max_active_chunks, ActiveSceneSnapshot, RenderObject,
    MAX_ACTIVE_CHUNKS, SCENE_CHUNK_COUNT,
};
use wgpu_voxels::scene::VoxelGenerationKind;

fn terrain_chunk(grid_position: [u32; 3], object_index: u32) -> RenderObject {
    RenderObject { grid_position, object_index, generation_kind: VoxelGenerationKind::Terrain }
}

#[test]
fn world_starts_with_one_loaded_chunk() {
    let world = build_scene_world();
    let active_objects = collect_active_render_objects(&world);

    assert_eq!(active_objects.len(), 1);
    assert_eq!(active_objects[0].object_index, 0);
}

#[test]
fn loading_advances_one_chunk_at_a_time() {
    let mut world = build_scene_world();

    let first = advance_chunk_loading(&mut world);
    let second = advance_chunk_loading(&mut world);

    assert_eq!(first, ActiveSceneSnapshot { active_count: 2 });
    assert_eq!(second, ActiveSceneSnapshot { active_count: 3 });
    assert_eq!(collect_active_render_objects(&world).len(), 3);
}

#[test]
fn scene_is_a_grid_in_layer_row_column_order() {
    let world = build_scene_world();
    let all = collect_all_render_objects(&world);
    assert_eq!(all.len(), SCENE_CHUNK_COUNT);
    assert_eq!(SCENE_CHUNK_COUNT, 26 * 26 * 3);
    assert_eq!(all[0], terrain_chunk([0, 0, 0], 0));
    assert_eq!(all[1], terrain_chunk([1, 0, 0], 1));
    assert_eq!(all[26], terrain_chunk([0, 0, 1], 26));
    assert_eq!(all[676], terrain_chunk([0, 1, 0], 676));
    assert_eq!(all[2027], terrain_chunk([25, 2, 25], 2027));
}

#[test]
fn active_objects_are_a_prefix_of_the_scene_order() {
    let mut world = build_scene_world();
    for _ in 0..9 {
        advance_chunk_loading(&mut world);
    }
    let active = collect_active_render_objects(&world);
    let all = collect_all_render_objects(&world);
    assert_eq!(active.len(), 10);
    assert_eq!(active[..], all[..10]);
}

#[test]
fn loading_stops_at_the_chunk_limit() {
    let mut world = build_scene_world();
    let loaded = load_max_active_chunks(&mut world);
    assert_eq!(loaded, ActiveSceneSnapshot { active_count: MAX_ACTIVE_CHUNKS });
    assert_eq!(advance_chunk_loading(&mut world), ActiveSceneSnapshot { active_count: 128 });
    assert_eq!(collect_active_render_objects(&world).len(), 128);
    assert_eq!(load_max_active_chunks(&mut world), ActiveSceneSnapshot { active_count: 128 });
}
