use wgpu_voxels::voxel_mask::{
    build_coarse_mask_from_regions, coarse_mask_bit_is_set, flatten_coarse_index,
    flatten_leaf_index, flatten_region_index, occupancy_bit_is_set, occupancy_word_and_mask,
    region_leaf_word_offset, region_mask_bit_is_set, set_occupancy_bit, COARSE_MASK_WORD_COUNT,
    COARSE_MASK_WORD_OFFSET, COARSE_REGION_AXIS, COARSE_REGION_COUNT, LEAF_MASK_WORD_OFFSET,
    LEAF_VOXEL_WORD_COUNT, MASK_WORD_COUNT, OCCUPANCY_WORD_COUNT, REGION_AXIS, REGION_COUNT,
    VOXEL_GRID_DIM,
};

fn nonzero_words(words: &[u32]) -> usize {
    words.iter().filter(|word| **word != 0).count()
}

#[test]
fn occupancy_layout_matches_ash_voxels() {
    assert_eq!(VOXEL_GRID_DIM, 64);
    assert_eq!(REGION_AXIS, 8);
    assert_eq!(REGION_COUNT, 512);
    assert_eq!(COARSE_REGION_AXIS, 4);
    assert_eq!(COARSE_REGION_COUNT, 64);
    assert_eq!(MASK_WORD_COUNT, 16);
    assert_eq!(COARSE_MASK_WORD_COUNT, 2);
    assert_eq!(COARSE_MASK_WORD_OFFSET, 16);
    assert_eq!(LEAF_MASK_WORD_OFFSET, 18);
    assert_eq!(OCCUPANCY_WORD_COUNT, 8_210);
    assert_eq!(OCCUPANCY_WORD_COUNT * core::mem::size_of::<u32>(), 32_840);
}

#[test]
fn occupancy_word_and_mask_maps_indices() {
    assert_eq!(occupancy_word_and_mask(0), (0, 1));
    assert_eq!(occupancy_word_and_mask(31), (0, 1u32 << 31));
    assert_eq!(occupancy_word_and_mask(32), (1, 1));
}

#[test]
fn setting_one_voxel_marks_one_region_and_one_leaf_bit() {
    let mut occupancy = vec![0u32; OCCUPANCY_WORD_COUNT];
    let voxel = [9, 2, 17];

    set_occupancy_bit(&mut occupancy, voxel);
    build_coarse_mask_from_regions(&mut occupancy);

    let region_index = flatten_region_index([1, 0, 2]);
    assert!(region_mask_bit_is_set(&occupancy, region_index));
    assert!(coarse_mask_bit_is_set(
        &occupancy,
        flatten_coarse_index([0, 0, 1])
    ));
    assert_eq!(nonzero_words(&occupancy[..MASK_WORD_COUNT]), 1);
    assert!(occupancy_bit_is_set(&occupancy, voxel));
    assert_eq!(
        nonzero_words(
            &occupancy[region_leaf_word_offset(region_index)
                ..region_leaf_word_offset(region_index) + MASK_WORD_COUNT]
        ),
        1
    );
}

#[test]
fn voxels_in_same_region_share_region_mask_but_use_distinct_leaf_bits() {
    let mut occupancy = vec![0u32; OCCUPANCY_WORD_COUNT];
    let first = [8, 8, 8];
    let second = [15, 15, 15];

    set_occupancy_bit(&mut occupancy, first);
    set_occupancy_bit(&mut occupancy, second);
    build_coarse_mask_from_regions(&mut occupancy);

    let region_index = flatten_region_index([1, 1, 1]);
    assert!(region_mask_bit_is_set(&occupancy, region_index));
    assert!(coarse_mask_bit_is_set(
        &occupancy,
        flatten_coarse_index([0, 0, 0])
    ));
    assert!(occupancy_bit_is_set(&occupancy, first));
    assert!(occupancy_bit_is_set(&occupancy, second));
    assert_eq!(nonzero_words(&occupancy[..MASK_WORD_COUNT]), 1);
    assert_ne!(
        flatten_leaf_index([first[0] & 7, first[1] & 7, first[2] & 7]),
        flatten_leaf_index([second[0] & 7, second[1] & 7, second[2] & 7]),
    );
}

#[test]
fn voxels_in_different_regions_use_distinct_region_and_leaf_offsets() {
    let mut occupancy = vec![0u32; OCCUPANCY_WORD_COUNT];
    let first = [0, 0, 0];
    let second = [63, 63, 63];

    set_occupancy_bit(&mut occupancy, first);
    set_occupancy_bit(&mut occupancy, second);
    build_coarse_mask_from_regions(&mut occupancy);

    let first_region = flatten_region_index([0, 0, 0]);
    let second_region = flatten_region_index([7, 7, 7]);
    assert_ne!(first_region, second_region);
    assert!(coarse_mask_bit_is_set(
        &occupancy,
        flatten_coarse_index([0, 0, 0])
    ));
    assert!(coarse_mask_bit_is_set(
        &occupancy,
        flatten_coarse_index([3, 3, 3])
    ));
    assert_ne!(
        region_leaf_word_offset(first_region),
        region_leaf_word_offset(second_region)
    );
    assert!(occupancy_bit_is_set(&occupancy, first));
    assert!(occupancy_bit_is_set(&occupancy, second));
    assert_eq!(nonzero_words(&occupancy[..MASK_WORD_COUNT]), 2);
}

#[test]
fn coarse_mask_is_derived_from_region_mask_after_population() {
    let mut occupancy = vec![0u32; OCCUPANCY_WORD_COUNT];

    set_occupancy_bit(&mut occupancy, [0, 0, 0]);
    set_occupancy_bit(&mut occupancy, [16, 16, 16]);
    build_coarse_mask_from_regions(&mut occupancy);

    assert!(coarse_mask_bit_is_set(
        &occupancy,
        flatten_coarse_index([0, 0, 0])
    ));
    assert!(coarse_mask_bit_is_set(
        &occupancy,
        flatten_coarse_index([1, 1, 1])
    ));
    assert!(!coarse_mask_bit_is_set(
        &occupancy,
        flatten_coarse_index([3, 3, 3]),
    ));
}

#[test]
fn layout_constants_pack_the_buffer_exactly() {
    assert_eq!(LEAF_VOXEL_WORD_COUNT, 262_144);
    assert_eq!(
        LEAF_MASK_WORD_OFFSET + REGION_COUNT * MASK_WORD_COUNT,
        OCCUPANCY_WORD_COUNT
    );
}

#[test]
fn flatten_indices_put_x_fastest() {
    assert_eq!(flatten_region_index([0, 0, 0]), 0);
    assert_eq!(flatten_region_index([1, 0, 2]), 129);
    assert_eq!(flatten_region_index([7, 7, 7]), 511);
    assert_eq!(flatten_coarse_index([1, 2, 3]), 57);
    assert_eq!(flatten_leaf_index([3, 1, 0]), 11);
}

#[test]
fn region_leaf_offsets_follow_the_coarse_mask() {
    assert_eq!(region_leaf_word_offset(0), 18);
    assert_eq!(region_leaf_word_offset(1), 34);
    assert_eq!(region_leaf_word_offset(511), 8_194);
}

#[test]
fn set_occupancy_bit_touches_exactly_two_words() {
    let mut occupancy = vec![0u32; OCCUPANCY_WORD_COUNT];
    set_occupancy_bit(&mut occupancy, [9, 2, 17]);
    // Region (1, 0, 2) is region 129: word 4, bit 1.
    assert_eq!(occupancy[4], 1 << 1);
    // Leaf (1, 2, 1) is leaf 81: word 2 of the region's leaf mask, bit 17.
    let leaf_word = 18 + 129 * 16 + 2;
    assert_eq!(occupancy[leaf_word], 1 << 17);
    assert_eq!(nonzero_words(&occupancy), 2);
}

#[test]
fn setting_a_voxel_twice_changes_nothing_more() {
    let mut once = vec![0u32; OCCUPANCY_WORD_COUNT];
    set_occupancy_bit(&mut once, [40, 5, 33]);
    let mut twice = once.clone();
    set_occupancy_bit(&mut twice, [40, 5, 33]);
    assert_eq!(once, twice);
}

#[test]
fn setting_voxels_in_either_order_gives_the_same_buffer() {
    let mut first = vec![0u32; OCCUPANCY_WORD_COUNT];
    set_occupancy_bit(&mut first, [1, 2, 3]);
    set_occupancy_bit(&mut first, [2, 2, 3]);
    let mut second = vec![0u32; OCCUPANCY_WORD_COUNT];
    set_occupancy_bit(&mut second, [2, 2, 3]);
    set_occupancy_bit(&mut second, [1, 2, 3]);
    assert_eq!(first, second);
}

#[test]
fn marking_a_voxel_leaves_its_neighbours_empty() {
    let mut occupancy = vec![0u32; OCCUPANCY_WORD_COUNT];
    set_occupancy_bit(&mut occupancy, [10, 10, 10]);
    assert!(occupancy_bit_is_set(&occupancy, [10, 10, 10]));
    assert!(!occupancy_bit_is_set(&occupancy, [11, 10, 10]));
    assert!(!occupancy_bit_is_set(&occupancy, [10, 11, 10]));
    assert!(!occupancy_bit_is_set(&occupancy, [10, 10, 9]));
    assert!(!occupancy_bit_is_set(&occupancy, [50, 50, 50]));
}

#[test]
fn empty_buffer_has_no_voxel_and_no_coarse_bit() {
    let mut occupancy = vec![0u32; OCCUPANCY_WORD_COUNT];
    build_coarse_mask_from_regions(&mut occupancy);
    assert!(occupancy.iter().all(|word| *word == 0));
    assert!(!occupancy_bit_is_set(&occupancy, [0, 0, 0]));
    assert!(!occupancy_bit_is_set(&occupancy, [63, 63, 63]));
}

#[test]
fn coarse_mask_keeps_bits_already_set() {
    let mut occupancy = vec![0u32; OCCUPANCY_WORD_COUNT];
    occupancy[COARSE_MASK_WORD_OFFSET + 1] = 1 << 31;
    build_coarse_mask_from_regions(&mut occupancy);
    assert!(coarse_mask_bit_is_set(&occupancy, 63));
    assert!(!coarse_mask_bit_is_set(&occupancy, 0));
}

#[test]
fn reading_a_voxel_of_an_empty_region_needs_only_the_region_mask() {
    let occupancy = vec![0u32; MASK_WORD_COUNT];
    assert!(!occupancy_bit_is_set(&occupancy, [63, 63, 63]));
}

#[test]
fn word_and_mask_have_one_bit_and_give_back_the_index() {
    for index in [0usize, 1, 17, 31, 32, 33, 511, 513, 8191] {
        let (word, mask) = occupancy_word_and_mask(index);
        assert_eq!(mask.count_ones(), 1);
        assert_eq!(32 * word + mask.trailing_zeros() as usize, index);
    }
}
