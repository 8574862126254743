use wgpu_voxels::gpu_sizes::{
    align_to, clear_leaf_dispatch, clear_mask_dispatch, coarse_depth_dimensions,
    generation_word_totals, grown_vertex_capacity, max_object_count, populate_dispatch,
    readback_row_bytes, shade_command_buffer_bytes, strip_row_padding, tile_dispatch,
    partition_generation_objects, voxel_mask_buffer_size,
};
use wgpu_voxels::scene::{RenderObject, VoxelGenerationKind};

fn object(object_index: u32) -> RenderObject {
    RenderObject {
        grid_position: [0, 0, 0],
        object_index,
        generation_kind: VoxelGenerationKind::Terrain,
    }
}

#[test]
fn partitions_generation_objects_by_kind() {
    let objects = vec![
        RenderObject {
            grid_position: [0, 0, 0],
            object_index: 0,
            generation_kind: VoxelGenerationKind::Terrain,
        },
        RenderObject {
            grid_position: [1, 0, 0],
            object_index: 1,
            generation_kind: VoxelGenerationKind::Cornell,
        },
        RenderObject {
            grid_position: [2, 0, 0],
            object_index: 2,
            generation_kind: VoxelGenerationKind::Terrain,
        },
    ];

    let (terrain, cornell) = partition_generation_objects(&objects);

    assert_eq!(terrain.len(), 2);
    assert_eq!(cornell.len(), 1);
    assert_eq!(terrain[0].object_index, 0);
    assert_eq!(cornell[0].object_index, 1);
    assert_eq!(terrain[1].object_index, 2);
}

#[test]
fn partition_of_scene_objects_puts_every_chunk_in_terrain() {
    let objects = vec![object(4), object(7)];
    let (terrain, cornell) = partition_generation_objects(&objects);
    assert_eq!(terrain, objects);
    assert!(cornell.is_empty());
    let (terrain, cornell) = partition_generation_objects(&[]);
    assert!(terrain.is_empty());
    assert!(cornell.is_empty());
}

#[test]
fn coarse_depth_dimensions_round_up_by_divisor() {
    assert_eq!(coarse_depth_dimensions(1920, 1080), (960, 540));
    assert_eq!(coarse_depth_dimensions(1919, 1079), (960, 540));
    assert_eq!(coarse_depth_dimensions(1, 1), (1, 1));
    assert_eq!(coarse_depth_dimensions(0, 0), (1, 1));
}

#[test]
fn align_to_matches_documented_examples() {
    assert_eq!(align_to(253, 16), 256);
    assert_eq!(align_to(256, 16), 256);
    assert_eq!(align_to(0, 16), 0);
    assert_eq!(align_to(5120, 256), 5120);
    assert_eq!(align_to(5121, 256), 5376);
}

#[test]
fn readback_rows_are_padded_to_the_copy_alignment() {
    assert_eq!(readback_row_bytes(1280), (5120, 5120));
    assert_eq!(readback_row_bytes(100), (400, 512));
    assert_eq!(readback_row_bytes(1), (4, 256));
}

#[test]
fn row_padding_is_stripped() {
    let mapped: Vec<u8> = (0..12).collect();
    assert_eq!(strip_row_padding(&mapped, 4, 3), vec![0, 1, 2, 4, 5, 6, 8, 9, 10]);
    let short_last: Vec<u8> = (0..7).collect();
    assert_eq!(strip_row_padding(&short_last, 4, 2), vec![0, 1, 4, 5]);
    assert_eq!(strip_row_padding(&[], 4, 2), Vec::<u8>::new());
}

#[test]
fn tile_dispatch_covers_the_target() {
    assert_eq!(tile_dispatch(1280, 720), [160, 90, 1]);
    assert_eq!(tile_dispatch(1281, 721), [161, 91, 1]);
    assert_eq!(tile_dispatch(0, 0), [0, 0, 1]);
}

#[test]
fn shade_command_buffer_has_one_command_per_pixel() {
    assert_eq!(shade_command_buffer_bytes(1280, 720), 1280 * 720 * 8);
    assert_eq!(shade_command_buffer_bytes(0, 0), 8);
}

#[test]
fn object_count_is_one_past_the_largest_index() {
    assert_eq!(max_object_count(&[]), 0);
    assert_eq!(max_object_count(&[object(3), object(0), object(7), object(2)]), 8);
    assert_eq!(voxel_mask_buffer_size(&[object(1)]), 2 * 8_210 * 4);
    assert_eq!(voxel_mask_buffer_size(&[]), 0);
    assert_eq!(
        voxel_mask_buffer_size(&[object(u32::MAX)]),
        (u32::MAX as u64 + 1) * 8_210 * 4
    );
}

#[test]
fn generation_totals_scale_with_object_slots() {
    assert_eq!(generation_word_totals(&[object(0), object(2)]), (3 * 8_210, 3 * 262_144));
}

#[test]
fn clear_dispatches_cover_every_word() {
    assert_eq!(clear_mask_dispatch(8_210), [33, 1, 1]);
    assert_eq!(clear_leaf_dispatch(262_144), [1024, 1, 1]);
    assert_eq!(clear_leaf_dispatch(0), [1, 0, 1]);
    // 2028 chunks: 2028 * 262144 words need 2_076_672 workgroups, more than one axis holds.
    let words = 2028 * 262_144;
    let dispatch = clear_leaf_dispatch(words);
    assert_eq!(dispatch[0], 65_535);
    assert_eq!(dispatch[1], 32);
    assert!(dispatch[0] as u64 * dispatch[1] as u64 * 256 >= words as u64);
}

#[test]
fn populate_dispatch_covers_every_slice() {
    assert_eq!(populate_dispatch(1), [8, 8, 32]);
    assert_eq!(populate_dispatch(3), [8, 8, 96]);
}

#[test]
fn vertex_capacity_grows_to_a_power_of_two() {
    assert_eq!(grown_vertex_capacity(200, 256), 256);
    assert_eq!(grown_vertex_capacity(257, 256), 512);
    assert_eq!(grown_vertex_capacity(1000, 256), 1024);
    assert_eq!(grown_vertex_capacity(1, 0), 1);
}
