use vstd::prelude::*;

verus! {

//  Layout of one chunk's occupancy buffer, in `u32` words:
//
//  | words                     | content                                         |
//  |---------------------------|-------------------------------------------------|
//  | 0 .. 16                   | region mask: one bit per 8x8x8 region (512)     |
//  | 16 .. 18                  | coarse mask: one bit per 2x2x2 block of regions |
//  | 18 + 16 r .. 18 + 16 r+16 | leaf mask of region r: one bit per voxel (512)  |
/// Edge length, in voxels, of one chunk.
pub const VOXEL_GRID_DIM: u32 = 64;

/// Number of packed voxel payload words of one chunk (one per voxel).
pub const LEAF_VOXEL_WORD_COUNT: usize = 64 * 64 * 64;

/// Edge length, in regions, of one chunk; also the edge length, in voxels, of one region.
pub const REGION_AXIS: u32 = 8;

/// Number of regions in one chunk.
pub const REGION_COUNT: usize = 8 * 8 * 8;

/// Edge length, in coarse cells, of one chunk.
pub const COARSE_REGION_AXIS: u32 = 4;

/// Number of coarse cells in one chunk.
pub const COARSE_REGION_COUNT: usize = 4 * 4 * 4;

/// Bits per mask word.
pub const MASK_WORD_BITS: usize = 32;

/// Words of the region mask; also words of one region's leaf mask.
pub const MASK_WORD_COUNT: usize = (REGION_COUNT + MASK_WORD_BITS - 1) / MASK_WORD_BITS;

/// Words of the coarse mask.
pub const COARSE_MASK_WORD_COUNT: usize = (COARSE_REGION_COUNT + MASK_WORD_BITS - 1)
    / MASK_WORD_BITS;

/// First word of the coarse mask.
pub const COARSE_MASK_WORD_OFFSET: usize = MASK_WORD_COUNT;

/// First word of the leaf mask of region 0.
pub const LEAF_MASK_WORD_OFFSET: usize = COARSE_MASK_WORD_OFFSET + COARSE_MASK_WORD_COUNT;

/// Words of one chunk's occupancy buffer.
pub const OCCUPANCY_WORD_COUNT: usize = 8_210;

// ---------------------------------------------------------------------------
// The mathematical model
// ---------------------------------------------------------------------------
/// Flat index of `(x, y, z)` in a cube of edge `axis`, `x` varying fastest.
pub open spec fn flat3(x: int, y: int, z: int, axis: int) -> int {
    x + axis * (y + axis * z)
}

/// `word` has bit number `bit` set.
pub open spec fn word_has_bit(word: u32, bit: int) -> bool {
    word & (1u32 << (bit as u32)) != 0
}

/// Bit number `bit` of word number `word` of the buffer is set.
pub open spec fn bit_is_set(occupancy: Seq<u32>, word: int, bit: int) -> bool {
    word_has_bit(occupancy[word], bit)
}

/// The buffer word that holds bit number `index` of a mask that starts at `offset`.
pub open spec fn mask_word(offset: int, index: int) -> int {
    offset + index / (MASK_WORD_BITS as int)
}

/// The bit, inside its word, that holds bit number `index` of a mask.
pub open spec fn mask_bit(index: int) -> int {
    index % (MASK_WORD_BITS as int)
}

/// The region mask marks region `region`.
pub open spec fn region_bit(occupancy: Seq<u32>, region: int) -> bool {
    bit_is_set(occupancy, mask_word(0, region), mask_bit(region))
}

/// The coarse mask marks coarse cell `coarse`.
pub open spec fn coarse_bit(occupancy: Seq<u32>, coarse: int) -> bool {
    bit_is_set(occupancy, mask_word(COARSE_MASK_WORD_OFFSET as int, coarse), mask_bit(coarse))
}

/// First word of the leaf mask of region `region`.
pub open spec fn leaf_offset(region: int) -> int {
    LEAF_MASK_WORD_OFFSET as int + region * (MASK_WORD_COUNT as int)
}

/// The word that holds the leaf bit `leaf` of region `region`.
pub open spec fn leaf_word(region: int, leaf: int) -> int {
    mask_word(leaf_offset(region), leaf)
}

/// The leaf mask of region `region` marks voxel `leaf` of that region.
pub open spec fn leaf_bit(occupancy: Seq<u32>, region: int, leaf: int) -> bool {
    bit_is_set(occupancy, leaf_word(region, leaf), mask_bit(leaf))
}

/// `(x, y, z)` lies inside the chunk.
pub open spec fn in_grid(x: int, y: int, z: int) -> bool {
    &&& 0 <= x < VOXEL_GRID_DIM as int
    &&& 0 <= y < VOXEL_GRID_DIM as int
    &&& 0 <= z < VOXEL_GRID_DIM as int
}

/// The region that holds voxel `(x, y, z)`.
pub open spec fn region_of(x: int, y: int, z: int) -> int {
    let axis = REGION_AXIS as int;
    flat3(x / axis, y / axis, z / axis, axis)
}

/// The index of voxel `(x, y, z)` inside its region.
pub open spec fn leaf_of(x: int, y: int, z: int) -> int {
    let axis = REGION_AXIS as int;
    flat3(x % axis, y % axis, z % axis, axis)
}

/// The coarse cell that holds voxel `(x, y, z)` (one coarse cell spans 2x2x2 regions).
pub open spec fn coarse_of(x: int, y: int, z: int) -> int {
    let span = 2 * REGION_AXIS as int;
    flat3(x / span, y / span, z / span, COARSE_REGION_AXIS as int)
}

/// The buffer word that holds the region bit of voxel `(x, y, z)`.
pub open spec fn voxel_region_word(x: int, y: int, z: int) -> int {
    mask_word(0, region_of(x, y, z))
}

/// The buffer word that holds the leaf bit of voxel `(x, y, z)`.
pub open spec fn voxel_leaf_word(x: int, y: int, z: int) -> int {
    leaf_word(region_of(x, y, z), leaf_of(x, y, z))
}

/// Voxel `(x, y, z)` is occupied: its region is marked and so is its leaf bit.
pub open spec fn voxel_is_set(occupancy: Seq<u32>, x: int, y: int, z: int) -> bool {
    region_bit(occupancy, region_of(x, y, z)) && leaf_bit(
        occupancy,
        region_of(x, y, z),
        leaf_of(x, y, z),
    )
}

/// A word whose only set bit is bit number `bit`.
pub open spec fn single_bit(bit: int) -> u32 {
    1u32 << (bit as u32)
}

/// The buffer after marking voxel `(x, y, z)`: its region bit and its leaf bit are or-ed in.
pub open spec fn with_voxel(occupancy: Seq<u32>, x: int, y: int, z: int) -> Seq<u32> {
    let region = region_of(x, y, z);
    let leaf = leaf_of(x, y, z);
    let rw = mask_word(0, region);
    let lw = leaf_word(region, leaf);
    let marked = occupancy.update(rw, occupancy[rw] | single_bit(mask_bit(region)));
    marked.update(lw, marked[lw] | single_bit(mask_bit(leaf)))
}

/// The region of block position `(dx, dy, dz)` (each 0 or 1) of coarse cell `(cx, cy, cz)`.
pub open spec fn block_region(cx: int, cy: int, cz: int, dx: int, dy: int, dz: int) -> int {
    flat3(2 * cx + dx, 2 * cy + dy, 2 * cz + dz, REGION_AXIS as int)
}

/// Some region of the 2x2x2 block of coarse cell `(cx, cy, cz)` is marked.
pub open spec fn block_occupied(occupancy: Seq<u32>, cx: int, cy: int, cz: int) -> bool {
    exists|dx: int, dy: int, dz: int|
        0 <= dx < 2 && 0 <= dy < 2 && 0 <= dz < 2 && #[trigger] region_bit(
            occupancy,
            block_region(cx, cy, cz, dx, dy, dz),
        )
}

/// Some region of the block of coarse cell number `coarse` is marked.
pub open spec fn coarse_cell_occupied(occupancy: Seq<u32>, coarse: int) -> bool {
    let axis = COARSE_REGION_AXIS as int;
    block_occupied(occupancy, coarse % axis, (coarse / axis) % axis, coarse / (axis * axis))
}

/// A leaf bit is set only inside a region whose region bit is set.
pub open spec fn leaves_within_regions(occupancy: Seq<u32>) -> bool {
    forall|region: int, leaf: int|
        0 <= region < REGION_COUNT as int && 0 <= leaf < REGION_COUNT as int && #[trigger] leaf_bit(
            occupancy,
            region,
            leaf,
        ) ==> region_bit(occupancy, region)
}

/// Every coarse bit says exactly whether some region of its block is marked.
pub open spec fn coarse_mask_derived(occupancy: Seq<u32>) -> bool {
    forall|coarse: int|
        0 <= coarse < COARSE_REGION_COUNT as int ==> (#[trigger] coarse_bit(occupancy, coarse)
            <==> coarse_cell_occupied(occupancy, coarse))
}

/// Every word of the buffer is zero.
pub open spec fn all_clear(occupancy: Seq<u32>) -> bool {
    forall|i: int| 0 <= i < occupancy.len() ==> #[trigger] occupancy[i] == 0
}

/// The state of the buffer after the coarse cells below `done` have been derived from
/// `before`: their bits are or-ed with the occupancy of their block, later cells keep
/// their bits, and every word outside the coarse mask is untouched.
pub open spec fn coarse_progress(before: Seq<u32>, current: Seq<u32>, done: int) -> bool {
    &&& current.len() == before.len()
    &&& forall|i: int|
        0 <= i < before.len() && !(COARSE_MASK_WORD_OFFSET as int <= i < LEAF_MASK_WORD_OFFSET
            as int) ==> #[trigger] current[i] == before[i]
    &&& forall|coarse: int|
        0 <= coarse < COARSE_REGION_COUNT as int && mask_word(
            COARSE_MASK_WORD_OFFSET as int,
            coarse,
        ) < before.len() ==> (#[trigger] coarse_bit(current, coarse) == if coarse < done {
            coarse_bit(before, coarse) || coarse_cell_occupied(before, coarse)
        } else {
            coarse_bit(before, coarse)
        })
}

/// Reading voxel `(x, y, z)` stays inside the buffer: the region word is there and, where
/// the region is marked, so is the leaf word.
pub open spec fn voxel_readable(occupancy: Seq<u32>, x: int, y: int, z: int) -> bool {
    &&& voxel_region_word(x, y, z) < occupancy.len()
    &&& region_bit(occupancy, region_of(x, y, z)) ==> voxel_leaf_word(x, y, z)
        < occupancy.len()
}

/// The values that the layout constants take.
pub proof fn lemma_layout_values()
    ensures
        REGION_COUNT == 512,
        COARSE_REGION_COUNT == 64,
        MASK_WORD_COUNT == 16,
        COARSE_MASK_WORD_COUNT == 2,
        COARSE_MASK_WORD_OFFSET == 16,
        LEAF_MASK_WORD_OFFSET == 18,
        OCCUPANCY_WORD_COUNT == 8210,
        LEAF_VOXEL_WORD_COUNT == 262144,
{
    assert(MASK_WORD_COUNT == 16) by (nonlinear_arith);
    assert(COARSE_MASK_WORD_COUNT == 2) by (nonlinear_arith);
}

// ---------------------------------------------------------------------------
// Bit-level facts
// ---------------------------------------------------------------------------
proof fn lemma_or_single_bit(word: u32, set: int, probe: int)
    requires
        0 <= set < 32,
        0 <= probe < 32,
    ensures
        word_has_bit(word | single_bit(set), probe) == (word_has_bit(word, probe) || set == probe),
{
    let a = set as u32;
    let b = probe as u32;
    assert(((word | (1u32 << a)) & (1u32 << b) != 0) == ((word & (1u32 << b) != 0) || a == b))
        by (bit_vector)
        requires
            a < 32,
            b < 32,
    ;
}

proof fn lemma_or_single_bit_twice(word: u32, bit: int)
    requires
        0 <= bit < 32,
    ensures
        (word | single_bit(bit)) | single_bit(bit) == word | single_bit(bit),
{
    let a = bit as u32;
    assert((word | (1u32 << a)) | (1u32 << a) == word | (1u32 << a)) by (bit_vector);
}

proof fn lemma_or_single_bits_commute(word: u32, a: int, b: int)
    requires
        0 <= a < 32,
        0 <= b < 32,
    ensures
        (word | single_bit(a)) | single_bit(b) == (word | single_bit(b)) | single_bit(a),
{
    let x = a as u32;
    let y = b as u32;
    assert((word | (1u32 << x)) | (1u32 << y) == (word | (1u32 << y)) | (1u32 << x))
        by (bit_vector);
}

proof fn lemma_zero_has_no_bit(bit: int)
    requires
        0 <= bit < 32,
    ensures
        !word_has_bit(0u32, bit),
{
    let b = bit as u32;
    assert(0u32 & (1u32 << b) == 0u32) by (bit_vector);
}

proof fn lemma_low_bits(value: u32)
    ensures
        value & 7u32 == value % 8,
{
    assert(value & 7u32 == value % 8) by (bit_vector);
}

/// Every voxel of the chunk has its region bit inside the region mask and its leaf bit
/// inside the leaf mask of its region, which lies past the coarse mask and inside a buffer
/// of `OCCUPANCY_WORD_COUNT` words.
pub proof fn lemma_voxel_words_bounds(x: int, y: int, z: int)
    requires
        in_grid(x, y, z),
    ensures
        0 <= region_of(x, y, z) < REGION_COUNT as int,
        0 <= leaf_of(x, y, z) < REGION_COUNT as int,
        0 <= voxel_region_word(x, y, z) < MASK_WORD_COUNT as int,
        leaf_offset(region_of(x, y, z)) <= voxel_leaf_word(x, y, z) < leaf_offset(
            region_of(x, y, z),
        ) + MASK_WORD_COUNT as int,
        LEAF_MASK_WORD_OFFSET as int <= voxel_leaf_word(x, y, z) < OCCUPANCY_WORD_COUNT as int,
{
    lemma_layout_values();
}

// ---------------------------------------------------------------------------
// Index arithmetic
// ---------------------------------------------------------------------------
/// Flattens a region position inside the chunk (each axis below `REGION_AXIS`).
pub fn flatten_region_index(region_position: [u32; 3]) -> (index: usize)
    requires
        region_position[0] < REGION_AXIS,
        region_position[1] < REGION_AXIS,
        region_position[2] < REGION_AXIS,
    ensures
        index == flat3(
            region_position[0] as int,
            region_position[1] as int,
            region_position[2] as int,
            REGION_AXIS as int,
        ),
        index < REGION_COUNT,
{
    let axis = REGION_AXIS as usize;
    region_position[0] as usize + axis * (region_position[1] as usize + axis
        * region_position[2] as usize)
}

/// Flattens a coarse cell position (each axis below `COARSE_REGION_AXIS`).
pub fn flatten_coarse_index(region_position: [u32; 3]) -> (index: usize)
    requires
        region_position[0] < COARSE_REGION_AXIS,
        region_position[1] < COARSE_REGION_AXIS,
        region_position[2] < COARSE_REGION_AXIS,
    ensures
        index == flat3(
            region_position[0] as int,
            region_position[1] as int,
            region_position[2] as int,
            COARSE_REGION_AXIS as int,
        ),
        index < COARSE_REGION_COUNT,
{
    let axis = COARSE_REGION_AXIS as usize;
    region_position[0] as usize + axis * (region_position[1] as usize + axis
        * region_position[2] as usize)
}

/// Flattens a voxel position inside its region (each axis below `REGION_AXIS`).
pub fn flatten_leaf_index(local_position: [u32; 3]) -> (index: usize)
    requires
        local_position[0] < REGION_AXIS,
        local_position[1] < REGION_AXIS,
        local_position[2] < REGION_AXIS,
    ensures
        index == flat3(
            local_position[0] as int,
            local_position[1] as int,
            local_position[2] as int,
            REGION_AXIS as int,
        ),
        index < REGION_COUNT,
{
    let axis = REGION_AXIS as usize;
    local_position[0] as usize + axis * (local_position[1] as usize + axis
        * local_position[2] as usize)
}

/// The word that holds bit number `index` of a mask, and that bit as a single-bit word.
pub fn occupancy_word_and_mask(index: usize) -> (word_and_mask: (usize, u32))
    ensures
        word_and_mask.0 == mask_word(0, index as int),
        word_and_mask.1 == single_bit(mask_bit(index as int)),
{
    let word_index = index / MASK_WORD_BITS;
    let bit_index = index % MASK_WORD_BITS;
    (word_index, 1u32 << (bit_index as u32))
}

/// The bit numbers, below 32, that are set in `word`.
pub open spec fn set_bits(word: u32) -> Set<int> {
    Set::new(|bit: int| 0 <= bit < 32 && word_has_bit(word, bit))
}

/// The mask of bit number `index` of a mask has exactly one set bit, and its word number
/// and its trailing zeros give the index back: `32 * word + trailing_zeros(mask) == index`.
pub proof fn lemma_word_and_mask_give_back_index(index: int)
    requires
        0 <= index,
    ensures
        set_bits(single_bit(mask_bit(index))) == set![mask_bit(index)],
        set_bits(single_bit(mask_bit(index))).len() == 1,
        (MASK_WORD_BITS as int) * mask_word(0, index) + vstd::std_specs::bits::u32_trailing_zeros(
            single_bit(mask_bit(index)),
        ) == index,
{
    let bit = mask_bit(index);
    let b = bit as u32;
    let mask = single_bit(bit);
    assert forall|j: int| #![trigger set_bits(mask).contains(j)]
        set_bits(mask).contains(j) <==> j == bit by {
        if 0 <= j < 32 {
            let k = j as u32;
            assert((1u32 << b) & (1u32 << k) != 0 <==> b == k) by (bit_vector)
                requires
                    b < 32,
                    k < 32,
            ;
        }
    }
    assert(set_bits(mask) =~= set![bit]);
    assert(set![bit].len() == 1) by {
        assert(set![bit] == Set::<int>::empty().insert(bit));
    }
    vstd::std_specs::bits::axiom_u32_trailing_zeros(mask);
    let tz = vstd::std_specs::bits::u32_trailing_zeros(mask);
    assert(mask != 0u32) by (bit_vector)
        requires
            mask == 1u32 << b,
            b < 32,
    ;
    assert((mask >> tz) & 1u32 == 1u32);
    assert(tz == b) by {
        if tz < b {
            assert((mask >> tz) & 1u32 == 0u32) by (bit_vector)
                requires
                    mask == 1u32 << b,
                    b < 32,
                    tz < b,
            ;
        } else if tz > b {
            assert((mask >> b) & 1u32 == 0u32);
            assert((mask >> b) & 1u32 == 1u32) by (bit_vector)
                requires
                    mask == 1u32 << b,
                    b < 32,
            ;
        }
    }
}

/// First word of the leaf mask of region `region_index`.
pub fn region_leaf_word_offset(region_index: usize) -> (offset: usize)
    requires
        region_index < REGION_COUNT,
    ensures
        offset == leaf_offset(region_index as int),
        offset + MASK_WORD_COUNT <= OCCUPANCY_WORD_COUNT,
{
    proof {
        lemma_layout_values();
    }
    LEAF_MASK_WORD_OFFSET + region_index * MASK_WORD_COUNT
}

// ---------------------------------------------------------------------------
// Reading the masks
// ---------------------------------------------------------------------------
/// Whether the region mask marks region `region_index`.
pub fn region_mask_bit_is_set(occupancy: &[u32], region_index: usize) -> (set: bool)
    requires
        mask_word(0, region_index as int) < occupancy@.len(),
    ensures
        set == region_bit(occupancy@, region_index as int),
{
    let (word_index, bit_mask) = occupancy_word_and_mask(region_index);
    occupancy[word_index] & bit_mask != 0
}

/// Whether the coarse mask marks coarse cell `coarse_index`.
pub fn coarse_mask_bit_is_set(occupancy: &[u32], coarse_index: usize) -> (set: bool)
    requires
        mask_word(COARSE_MASK_WORD_OFFSET as int, coarse_index as int) < occupancy@.len(),
    ensures
        set == coarse_bit(occupancy@, coarse_index as int),
{
    let (word_index, bit_mask) = occupancy_word_and_mask(coarse_index);
    occupancy[COARSE_MASK_WORD_OFFSET + word_index] & bit_mask != 0
}

/// Whether voxel `position` is occupied: its region is marked and so is its leaf bit.
pub fn occupancy_bit_is_set(occupancy: &[u32], position: [u32; 3]) -> (set: bool)
    requires
        in_grid(position[0] as int, position[1] as int, position[2] as int),
        voxel_readable(occupancy@, position[0] as int, position[1] as int, position[2] as int),
    ensures
        set == voxel_is_set(occupancy@, position[0] as int, position[1] as int, position[2] as int),
{
    proof {
        lemma_voxel_words_bounds(position[0] as int, position[1] as int, position[2] as int);
    }
    let region_position = [position[0] / 8, position[1] / 8, position[2] / 8];
    let region_index = flatten_region_index(region_position);
    if !region_mask_bit_is_set(occupancy, region_index) {
        return false;
    }
    proof {
        lemma_low_bits(position[0]);
        lemma_low_bits(position[1]);
        lemma_low_bits(position[2]);
    }
    let leaf_local = [position[0] & 7, position[1] & 7, position[2] & 7];
    let leaf_index = flatten_leaf_index(leaf_local);
    let (word_index, bit_mask) = occupancy_word_and_mask(leaf_index);
    occupancy[region_leaf_word_offset(region_index) + word_index] & bit_mask != 0
}

// ---------------------------------------------------------------------------
// Writing the masks
// ---------------------------------------------------------------------------
/// Marks voxel `position`: or-s its region bit into the region mask and its leaf bit into
/// the leaf mask of its region. No other word changes.
pub fn set_occupancy_bit(occupancy: &mut [u32], position: [u32; 3])
    requires
        in_grid(position[0] as int, position[1] as int, position[2] as int),
        voxel_leaf_word(position[0] as int, position[1] as int, position[2] as int) < old(
            occupancy,
        )@.len(),
    ensures
        final(occupancy)@ == with_voxel(
            old(occupancy)@,
            position[0] as int,
            position[1] as int,
            position[2] as int,
        ),
{
    proof {
        lemma_voxel_words_bounds(position[0] as int, position[1] as int, position[2] as int);
    }
    let region_position = [position[0] / 8, position[1] / 8, position[2] / 8];
    let region_index = flatten_region_index(region_position);
    let (region_word_index, region_bit_mask) = occupancy_word_and_mask(region_index);
    occupancy[region_word_index] = occupancy[region_word_index] | region_bit_mask;

    proof {
        lemma_low_bits(position[0]);
        lemma_low_bits(position[1]);
        lemma_low_bits(position[2]);
    }
    let leaf_local = [position[0] & 7, position[1] & 7, position[2] & 7];
    let leaf_index = flatten_leaf_index(leaf_local);
    let (leaf_word_index, leaf_bit_mask) = occupancy_word_and_mask(leaf_index);
    let target = region_leaf_word_offset(region_index) + leaf_word_index;
    occupancy[target] = occupancy[target] | leaf_bit_mask;
}

// ---------------------------------------------------------------------------
// Deriving the coarse mask
// ---------------------------------------------------------------------------
/// The coarse mask words are both zero.
pub open spec fn coarse_words_clear(occupancy: Seq<u32>) -> bool {
    &&& occupancy[COARSE_MASK_WORD_OFFSET as int] == 0
    &&& occupancy[COARSE_MASK_WORD_OFFSET as int + 1] == 0
}

/// Two buffers that agree on the region mask mark the same regions and the same blocks.
proof fn lemma_region_mask_agrees(a: Seq<u32>, b: Seq<u32>)
    requires
        MASK_WORD_COUNT <= a.len(),
        MASK_WORD_COUNT <= b.len(),
        forall|i: int| 0 <= i < MASK_WORD_COUNT as int ==> a[i] == b[i],
    ensures
        forall|region: int|
            0 <= region < REGION_COUNT as int ==> #[trigger] region_bit(a, region) == region_bit(
                b,
                region,
            ),
        forall|coarse: int|
            0 <= coarse < COARSE_REGION_COUNT as int ==> #[trigger] coarse_cell_occupied(a, coarse)
                == coarse_cell_occupied(b, coarse),
{
    lemma_layout_values();
    assert forall|region: int| 0 <= region < REGION_COUNT as int implies #[trigger] region_bit(
        a,
        region,
    ) == region_bit(b, region) by {
        assert(a[mask_word(0, region)] == b[mask_word(0, region)]);
    }
    assert forall|coarse: int| 0 <= coarse < COARSE_REGION_COUNT as int implies #[trigger]
        coarse_cell_occupied(a, coarse) == coarse_cell_occupied(b, coarse) by {
        let cx = coarse % 4;
        let cy = (coarse / 4) % 4;
        let cz = coarse / 16;
        if block_occupied(a, cx, cy, cz) {
            let (dx, dy, dz) = choose|dx: int, dy: int, dz: int|
                0 <= dx < 2 && 0 <= dy < 2 && 0 <= dz < 2 && #[trigger] region_bit(
                    a,
                    block_region(cx, cy, cz, dx, dy, dz),
                );
            assert(region_bit(b, block_region(cx, cy, cz, dx, dy, dz)));
        }
        if block_occupied(b, cx, cy, cz) {
            let (dx, dy, dz) = choose|dx: int, dy: int, dz: int|
                0 <= dx < 2 && 0 <= dy < 2 && 0 <= dz < 2 && #[trigger] region_bit(
                    b,
                    block_region(cx, cy, cz, dx, dy, dz),
                );
            assert(region_bit(a, block_region(cx, cy, cz, dx, dy, dz)));
        }
    }
}

/// One step of deriving the coarse mask: cell `coarse` gets its bit or-ed with `found`.
proof fn lemma_coarse_step(before: Seq<u32>, current: Seq<u32>, coarse: int, found: bool)
    requires
        coarse_progress(before, current, coarse),
        0 <= coarse < COARSE_REGION_COUNT as int,
        found == coarse_cell_occupied(before, coarse),
        found ==> mask_word(COARSE_MASK_WORD_OFFSET as int, coarse) < before.len(),
    ensures
        coarse_progress(
            before,
            if found {
                current.update(
                    mask_word(COARSE_MASK_WORD_OFFSET as int, coarse),
                    current[mask_word(COARSE_MASK_WORD_OFFSET as int, coarse)] | single_bit(
                        mask_bit(coarse),
                    ),
                )
            } else {
                current
            },
            coarse + 1,
        ),
{
    lemma_layout_values();
    let w = mask_word(COARSE_MASK_WORD_OFFSET as int, coarse);
    if found {
        let next = current.update(w, current[w] | single_bit(mask_bit(coarse)));
        assert forall|other: int|
            0 <= other < COARSE_REGION_COUNT as int && mask_word(
                COARSE_MASK_WORD_OFFSET as int,
                other,
            ) < before.len() implies (#[trigger] coarse_bit(next, other) == if other < coarse
            + 1 {
            coarse_bit(before, other) || coarse_cell_occupied(before, other)
        } else {
            coarse_bit(before, other)
        }) by {
            let ow = mask_word(COARSE_MASK_WORD_OFFSET as int, other);
            assert(coarse_bit(current, other) == if other < coarse {
                coarse_bit(before, other) || coarse_cell_occupied(before, other)
            } else {
                coarse_bit(before, other)
            });
            if ow == w {
                lemma_or_single_bit(current[w], mask_bit(coarse), mask_bit(other));
                assert(mask_bit(coarse) == mask_bit(other) <==> other == coarse);
            } else {
                assert(next[ow] == current[ow]);
            }
        }
    }
}

/// Whether some region of the 2x2x2 block of coarse cell `coarse_position` is marked. The
/// regions are tried with `dz` slowest and `dx` fastest, and the search stops at the first
/// marked one.
fn coarse_block_has_marked_region(occupancy: &[u32], coarse_position: [u32; 3]) -> (found: bool)
    requires
        coarse_position[0] < COARSE_REGION_AXIS,
        coarse_position[1] < COARSE_REGION_AXIS,
        coarse_position[2] < COARSE_REGION_AXIS,
        MASK_WORD_COUNT <= occupancy@.len(),
    ensures
        found == block_occupied(
            occupancy@,
            coarse_position[0] as int,
            coarse_position[1] as int,
            coarse_position[2] as int,
        ),
{
    proof {
        lemma_layout_values();
    }
    let ghost cx = coarse_position[0] as int;
    let ghost cy = coarse_position[1] as int;
    let ghost cz = coarse_position[2] as int;
    let mut dz: u32 = 0;
    while dz < 2
        invariant
            dz <= 2,
            coarse_position[0] < COARSE_REGION_AXIS,
            coarse_position[1] < COARSE_REGION_AXIS,
            coarse_position[2] < COARSE_REGION_AXIS,
            MASK_WORD_COUNT <= occupancy@.len(),
            cx == coarse_position[0] as int,
            cy == coarse_position[1] as int,
            cz == coarse_position[2] as int,
            MASK_WORD_COUNT == 16,
            forall|a: int, b: int, c: int|
                0 <= a < 2 && 0 <= b < 2 && 0 <= c < dz ==> !#[trigger] region_bit(
                    occupancy@,
                    block_region(cx, cy, cz, a, b, c),
                ),
        decreases 2 - dz,
    {
        let mut dy: u32 = 0;
        while dy < 2
            invariant
                dz < 2,
                dy <= 2,
                coarse_position[0] < COARSE_REGION_AXIS,
                coarse_position[1] < COARSE_REGION_AXIS,
                coarse_position[2] < COARSE_REGION_AXIS,
                MASK_WORD_COUNT <= occupancy@.len(),
                cx == coarse_position[0] as int,
                cy == coarse_position[1] as int,
                cz == coarse_position[2] as int,
                MASK_WORD_COUNT == 16,
                forall|a: int, b: int, c: int|
                    0 <= a < 2 && 0 <= b < 2 && 0 <= c < 2 && (c < dz || (c == dz && b < dy))
                        ==> !#[trigger] region_bit(occupancy@, block_region(cx, cy, cz, a, b, c)),
            decreases 2 - dy,
        {
            let mut dx: u32 = 0;
            while dx < 2
                invariant
                    dz < 2,
                    dy < 2,
                    dx <= 2,
                    coarse_position[0] < COARSE_REGION_AXIS,
                    coarse_position[1] < COARSE_REGION_AXIS,
                    coarse_position[2] < COARSE_REGION_AXIS,
                    MASK_WORD_COUNT <= occupancy@.len(),
                    cx == coarse_position[0] as int,
                    cy == coarse_position[1] as int,
                    cz == coarse_position[2] as int,
                    MASK_WORD_COUNT == 16,
                    forall|a: int, b: int, c: int|
                        0 <= a < 2 && 0 <= b < 2 && 0 <= c < 2 && (c < dz || (c == dz && b < dy)
                            || (c == dz && b == dy && a < dx)) ==> !#[trigger] region_bit(
                            occupancy@,
                            block_region(cx, cy, cz, a, b, c),
                        ),
                decreases 2 - dx,
            {
                let region_index = flatten_region_index(
                    [
                        coarse_position[0] * 2 + dx,
                        coarse_position[1] * 2 + dy,
                        coarse_position[2] * 2 + dz,
                    ],
                );
                assert(region_index as int == block_region(
                    cx,
                    cy,
                    cz,
                    dx as int,
                    dy as int,
                    dz as int,
                ));
                if region_mask_bit_is_set(occupancy, region_index) {
                    return true;
                }
                dx = dx + 1;
            }
            dy = dy + 1;
        }
        dz = dz + 1;
    }
    false
}

/// Derives the coarse mask from the region mask: every coarse cell whose 2x2x2 block of
/// regions holds a marked region gets its coarse bit or-ed in. Bits already set stay set,
/// and no word outside the coarse mask changes.
pub fn build_coarse_mask_from_regions(occupancy: &mut [u32])
    requires
        MASK_WORD_COUNT <= old(occupancy)@.len(),
        forall|coarse: int|
            0 <= coarse < COARSE_REGION_COUNT as int && #[trigger] coarse_cell_occupied(
                old(occupancy)@,
                coarse,
            ) ==> mask_word(COARSE_MASK_WORD_OFFSET as int, coarse) < old(occupancy)@.len(),
    ensures
        coarse_progress(old(occupancy)@, final(occupancy)@, COARSE_REGION_COUNT as int),
        LEAF_MASK_WORD_OFFSET <= old(occupancy)@.len() && coarse_words_clear(old(occupancy)@)
            ==> coarse_mask_derived(final(occupancy)@),
{
    proof {
        lemma_layout_values();
    }
    let ghost before = occupancy@;
    let mut coarse_z: u32 = 0;
    while coarse_z < COARSE_REGION_AXIS
        invariant
            coarse_z <= COARSE_REGION_AXIS,
            MASK_WORD_COUNT <= before.len(),
            forall|coarse: int|
                0 <= coarse < COARSE_REGION_COUNT as int && #[trigger] coarse_cell_occupied(
                    before,
                    coarse,
                ) ==> mask_word(COARSE_MASK_WORD_OFFSET as int, coarse) < before.len(),
            coarse_progress(before, occupancy@, flat3(0, 0, coarse_z as int, 4)),
            MASK_WORD_COUNT == 16,
            COARSE_REGION_COUNT == 64,
        decreases COARSE_REGION_AXIS - coarse_z,
    {
        let mut coarse_y: u32 = 0;
        while coarse_y < COARSE_REGION_AXIS
            invariant
                coarse_z < COARSE_REGION_AXIS,
                coarse_y <= COARSE_REGION_AXIS,
                MASK_WORD_COUNT <= before.len(),
                forall|coarse: int|
                    0 <= coarse < COARSE_REGION_COUNT as int && #[trigger] coarse_cell_occupied(
                        before,
                        coarse,
                    ) ==> mask_word(COARSE_MASK_WORD_OFFSET as int, coarse) < before.len(),
                coarse_progress(before, occupancy@, flat3(0, coarse_y as int, coarse_z as int, 4)),
                MASK_WORD_COUNT == 16,
                COARSE_REGION_COUNT == 64,
            decreases COARSE_REGION_AXIS - coarse_y,
        {
            let mut coarse_x: u32 = 0;
            while coarse_x < COARSE_REGION_AXIS
                invariant
                    coarse_z < COARSE_REGION_AXIS,
                    coarse_y < COARSE_REGION_AXIS,
                    coarse_x <= COARSE_REGION_AXIS,
                    MASK_WORD_COUNT <= before.len(),
                    forall|coarse: int|
                        0 <= coarse < COARSE_REGION_COUNT as int && #[trigger] coarse_cell_occupied(
                            before,
                            coarse,
                        ) ==> mask_word(COARSE_MASK_WORD_OFFSET as int, coarse) < before.len(),
                    coarse_progress(
                        before,
                        occupancy@,
                        flat3(coarse_x as int, coarse_y as int, coarse_z as int, 4),
                    ),
                    MASK_WORD_COUNT == 16,
                    COARSE_REGION_COUNT == 64,
                decreases COARSE_REGION_AXIS - coarse_x,
            {
                let coarse_index = flatten_coarse_index([coarse_x, coarse_y, coarse_z]);
                let has_occupied_region = coarse_block_has_marked_region(
                    &*occupancy,
                    [coarse_x, coarse_y, coarse_z],
                );
                proof {
                    let c = coarse_index as int;
                    assert(c % 4 == coarse_x as int);
                    assert((c / 4) % 4 == coarse_y as int);
                    assert(c / 16 == coarse_z as int);
                    lemma_region_mask_agrees(before, occupancy@);
                    assert(has_occupied_region == coarse_cell_occupied(before, c));
                    lemma_coarse_step(before, occupancy@, c, has_occupied_region);
                }
                if has_occupied_region {
                    let (word_index, bit_mask) = occupancy_word_and_mask(coarse_index);
                    let target = COARSE_MASK_WORD_OFFSET + word_index;
                    occupancy[target] = occupancy[target] | bit_mask;
                }
                coarse_x = coarse_x + 1;
            }
            coarse_y = coarse_y + 1;
        }
        coarse_z = coarse_z + 1;
    }
    proof {
        let after = occupancy@;
        if LEAF_MASK_WORD_OFFSET <= before.len() && coarse_words_clear(before) {
            lemma_region_mask_agrees(before, after);
            assert forall|coarse: int| 0 <= coarse < COARSE_REGION_COUNT as int implies (
            #[trigger] coarse_bit(after, coarse) <==> coarse_cell_occupied(after, coarse)) by {
                lemma_zero_has_no_bit(mask_bit(coarse));
            }
        }
    }
}

// ---------------------------------------------------------------------------
// Laws of the occupancy buffer
// ---------------------------------------------------------------------------
/// The layout is packed exactly: the region mask and each leaf mask hold one bit per
/// region (per voxel of a region), the coarse mask one bit per coarse cell, and the leaf
/// masks of all regions end exactly at the end of the buffer.
pub proof fn lemma_layout_is_consistent()
    ensures
        REGION_COUNT == REGION_AXIS * REGION_AXIS * REGION_AXIS,
        VOXEL_GRID_DIM == REGION_AXIS * REGION_AXIS,
        REGION_AXIS == 2 * COARSE_REGION_AXIS,
        COARSE_REGION_COUNT == COARSE_REGION_AXIS * COARSE_REGION_AXIS * COARSE_REGION_AXIS,
        LEAF_VOXEL_WORD_COUNT == VOXEL_GRID_DIM * VOXEL_GRID_DIM * VOXEL_GRID_DIM,
        MASK_WORD_COUNT * MASK_WORD_BITS == REGION_COUNT,
        COARSE_MASK_WORD_COUNT * MASK_WORD_BITS == COARSE_REGION_COUNT,
        COARSE_MASK_WORD_OFFSET == MASK_WORD_COUNT,
        LEAF_MASK_WORD_OFFSET == COARSE_MASK_WORD_OFFSET + COARSE_MASK_WORD_COUNT,
        LEAF_MASK_WORD_OFFSET + REGION_COUNT * MASK_WORD_COUNT == OCCUPANCY_WORD_COUNT,
{
    lemma_layout_values();
}

/// Distinct voxels of the chunk own distinct leaf bits, and voxels of distinct regions own
/// distinct region bits.
pub proof fn lemma_distinct_voxels_use_distinct_bits(
    x1: int,
    y1: int,
    z1: int,
    x2: int,
    y2: int,
    z2: int,
)
    requires
        in_grid(x1, y1, z1),
        in_grid(x2, y2, z2),
        x1 != x2 || y1 != y2 || z1 != z2,
    ensures
        voxel_leaf_word(x1, y1, z1) != voxel_leaf_word(x2, y2, z2) || mask_bit(leaf_of(x1, y1, z1))
            != mask_bit(leaf_of(x2, y2, z2)),
        region_of(x1, y1, z1) != region_of(x2, y2, z2) ==> (voxel_region_word(x1, y1, z1)
            != voxel_region_word(x2, y2, z2) || mask_bit(region_of(x1, y1, z1)) != mask_bit(
            region_of(x2, y2, z2),
        )),
{
    lemma_layout_values();
    let r1 = region_of(x1, y1, z1);
    let r2 = region_of(x2, y2, z2);
    let l1 = leaf_of(x1, y1, z1);
    let l2 = leaf_of(x2, y2, z2);
    lemma_voxel_words_bounds(x1, y1, z1);
    lemma_voxel_words_bounds(x2, y2, z2);
    // A word and a bit number give back the index; a region and a leaf give back the voxel.
    assert(r1 == r2 && l1 == l2 ==> x1 == x2 && y1 == y2 && z1 == z2);
    assert(mask_word(0, r1) == mask_word(0, r2) && mask_bit(r1) == mask_bit(r2) ==> r1 == r2);
    assert(voxel_leaf_word(x1, y1, z1) == voxel_leaf_word(x2, y2, z2) && mask_bit(l1) == mask_bit(
        l2,
    ) ==> r1 == r2 && l1 == l2);
}

/// After marking voxel `(x, y, z)`, the voxel reads as occupied.
pub proof fn lemma_set_marks_voxel(occupancy: Seq<u32>, x: int, y: int, z: int)
    requires
        in_grid(x, y, z),
        voxel_leaf_word(x, y, z) < occupancy.len(),
    ensures
        voxel_is_set(with_voxel(occupancy, x, y, z), x, y, z),
        with_voxel(occupancy, x, y, z).len() == occupancy.len(),
{
    lemma_voxel_words_bounds(x, y, z);
    lemma_layout_values();
    let region = region_of(x, y, z);
    let leaf = leaf_of(x, y, z);
    let rw = mask_word(0, region);
    let lw = leaf_word(region, leaf);
    let marked = occupancy.update(rw, occupancy[rw] | single_bit(mask_bit(region)));
    lemma_or_single_bit(occupancy[rw], mask_bit(region), mask_bit(region));
    lemma_or_single_bit(marked[lw], mask_bit(leaf), mask_bit(leaf));
}

/// In a buffer whose leaf bits all lie in marked regions, marking voxel `p` changes the
/// reading of no other voxel `q`, and the buffer keeps that property.
pub proof fn lemma_set_keeps_other_voxels(
    occupancy: Seq<u32>,
    px: int,
    py: int,
    pz: int,
    qx: int,
    qy: int,
    qz: int,
)
    requires
        OCCUPANCY_WORD_COUNT <= occupancy.len(),
        leaves_within_regions(occupancy),
        in_grid(px, py, pz),
        in_grid(qx, qy, qz),
        px != qx || py != qy || pz != qz,
    ensures
        voxel_is_set(with_voxel(occupancy, px, py, pz), qx, qy, qz) == voxel_is_set(
            occupancy,
            qx,
            qy,
            qz,
        ),
{
    lemma_layout_values();
    lemma_voxel_words_bounds(px, py, pz);
    lemma_voxel_words_bounds(qx, qy, qz);
    lemma_distinct_voxels_use_distinct_bits(px, py, pz, qx, qy, qz);
    let after = with_voxel(occupancy, px, py, pz);
    let rp = region_of(px, py, pz);
    let lp = leaf_of(px, py, pz);
    let rq = region_of(qx, qy, qz);
    let lq = leaf_of(qx, qy, qz);
    let rwp = mask_word(0, rp);
    let lwp = leaf_word(rp, lp);
    let rwq = mask_word(0, rq);
    let lwq = leaf_word(rq, lq);
    let marked = occupancy.update(rwp, occupancy[rwp] | single_bit(mask_bit(rp)));
    // The leaf bit of q is untouched.
    if lwq == lwp {
        lemma_or_single_bit(marked[lwp], mask_bit(lp), mask_bit(lq));
    }
    assert(leaf_bit(after, rq, lq) == leaf_bit(occupancy, rq, lq));
    // The region bit of q can only become set when q shares p's region.
    if rwq == rwp {
        lemma_or_single_bit(occupancy[rwp], mask_bit(rp), mask_bit(rq));
    }
    assert(region_bit(after, rq) == (region_bit(occupancy, rq) || rq == rp));
    if leaf_bit(occupancy, rq, lq) {
        assert(region_bit(occupancy, rq));
    }
}

/// Marking a voxel keeps every leaf bit inside a marked region.
pub proof fn lemma_set_keeps_leaves_within_regions(occupancy: Seq<u32>, x: int, y: int, z: int)
    requires
        OCCUPANCY_WORD_COUNT <= occupancy.len(),
        leaves_within_regions(occupancy),
        in_grid(x, y, z),
    ensures
        leaves_within_regions(with_voxel(occupancy, x, y, z)),
{
    lemma_layout_values();
    lemma_voxel_words_bounds(x, y, z);
    let after = with_voxel(occupancy, x, y, z);
    let rp = region_of(x, y, z);
    let lp = leaf_of(x, y, z);
    let rwp = mask_word(0, rp);
    let lwp = leaf_word(rp, lp);
    let marked = occupancy.update(rwp, occupancy[rwp] | single_bit(mask_bit(rp)));
    assert forall|region: int, leaf: int|
        0 <= region < REGION_COUNT as int && 0 <= leaf < REGION_COUNT as int && #[trigger] leaf_bit(
            after,
            region,
            leaf,
        ) implies region_bit(after, region) by {
        let rw = mask_word(0, region);
        let lw = leaf_word(region, leaf);
        assert(leaf_offset(region) <= lw < leaf_offset(region) + 16);
        if lw == lwp {
            lemma_or_single_bit(marked[lwp], mask_bit(lp), mask_bit(leaf));
        }
        if rw == rwp {
            lemma_or_single_bit(occupancy[rwp], mask_bit(rp), mask_bit(region));
        }
        if leaf_bit(occupancy, region, leaf) {
            assert(region_bit(occupancy, region));
        } else {
            assert(lw == lwp && mask_bit(leaf) == mask_bit(lp));
            assert(region == rp);
        }
    }
}

/// Marking the same voxel twice leaves the buffer as marking it once.
pub proof fn lemma_set_is_idempotent(occupancy: Seq<u32>, x: int, y: int, z: int)
    requires
        in_grid(x, y, z),
        voxel_leaf_word(x, y, z) < occupancy.len(),
    ensures
        with_voxel(with_voxel(occupancy, x, y, z), x, y, z) == with_voxel(occupancy, x, y, z),
{
    lemma_layout_values();
    lemma_voxel_words_bounds(x, y, z);
    let region = region_of(x, y, z);
    let leaf = leaf_of(x, y, z);
    let rw = mask_word(0, region);
    let lw = leaf_word(region, leaf);
    let once = with_voxel(occupancy, x, y, z);
    let twice = with_voxel(once, x, y, z);
    lemma_or_single_bit_twice(occupancy[rw], mask_bit(region));
    lemma_or_single_bit_twice(occupancy[lw], mask_bit(leaf));
    assert(twice =~= once);
}

/// Marking two voxels gives the same buffer in either order.
pub proof fn lemma_sets_commute(
    occupancy: Seq<u32>,
    px: int,
    py: int,
    pz: int,
    qx: int,
    qy: int,
    qz: int,
)
    requires
        in_grid(px, py, pz),
        in_grid(qx, qy, qz),
        voxel_leaf_word(px, py, pz) < occupancy.len(),
        voxel_leaf_word(qx, qy, qz) < occupancy.len(),
    ensures
        with_voxel(with_voxel(occupancy, px, py, pz), qx, qy, qz) == with_voxel(
            with_voxel(occupancy, qx, qy, qz),
            px,
            py,
            pz,
        ),
{
    lemma_layout_values();
    lemma_voxel_words_bounds(px, py, pz);
    lemma_voxel_words_bounds(qx, qy, qz);
    let rp = region_of(px, py, pz);
    let lp = leaf_of(px, py, pz);
    let rq = region_of(qx, qy, qz);
    let lq = leaf_of(qx, qy, qz);
    let rwp = mask_word(0, rp);
    let lwp = leaf_word(rp, lp);
    let rwq = mask_word(0, rq);
    let lwq = leaf_word(rq, lq);
    let pq = with_voxel(with_voxel(occupancy, px, py, pz), qx, qy, qz);
    let qp = with_voxel(with_voxel(occupancy, qx, qy, qz), px, py, pz);
    assert forall|i: int| 0 <= i < occupancy.len() implies pq[i] == qp[i] by {
        let w = occupancy[i];
        if i == rwp && i == rwq {
            lemma_or_single_bits_commute(w, mask_bit(rp), mask_bit(rq));
        }
        if i == lwp && i == lwq {
            lemma_or_single_bits_commute(w, mask_bit(lp), mask_bit(lq));
        }
    }
    assert(pq =~= qp);
}

/// A buffer of zero words marks no voxel, no region and no coarse cell; its leaf bits lie
/// within marked regions and its coarse mask is derived.
pub proof fn lemma_clear_buffer_is_empty(occupancy: Seq<u32>)
    requires
        OCCUPANCY_WORD_COUNT <= occupancy.len(),
        all_clear(occupancy),
    ensures
        forall|x: int, y: int, z: int|
            in_grid(x, y, z) ==> !#[trigger] voxel_is_set(occupancy, x, y, z),
        leaves_within_regions(occupancy),
        coarse_words_clear(occupancy),
        coarse_mask_derived(occupancy),
{
    lemma_layout_values();
    assert forall|x: int, y: int, z: int| in_grid(x, y, z) implies !#[trigger] voxel_is_set(
        occupancy,
        x,
        y,
        z,
    ) by {
        lemma_voxel_words_bounds(x, y, z);
        lemma_zero_has_no_bit(mask_bit(region_of(x, y, z)));
        assert(occupancy[voxel_region_word(x, y, z)] == 0);
    }
    assert forall|region: int, leaf: int|
        0 <= region < REGION_COUNT as int && 0 <= leaf < REGION_COUNT as int && #[trigger] leaf_bit(
            occupancy,
            region,
            leaf,
        ) implies region_bit(occupancy, region) by {
        assert(occupancy[leaf_word(region, leaf)] == 0);
        lemma_zero_has_no_bit(mask_bit(leaf));
    }
    assert(occupancy[COARSE_MASK_WORD_OFFSET as int] == 0);
    assert(occupancy[COARSE_MASK_WORD_OFFSET as int + 1] == 0);
    assert forall|coarse: int| 0 <= coarse < COARSE_REGION_COUNT as int implies (
    #[trigger] coarse_bit(occupancy, coarse) <==> coarse_cell_occupied(occupancy, coarse)) by {
        lemma_zero_has_no_bit(mask_bit(coarse));
        assert(occupancy[mask_word(COARSE_MASK_WORD_OFFSET as int, coarse)] == 0);
        let cx = coarse % 4;
        let cy = (coarse / 4) % 4;
        let cz = coarse / 16;
        if block_occupied(occupancy, cx, cy, cz) {
            let (dx, dy, dz) = choose|dx: int, dy: int, dz: int|
                0 <= dx < 2 && 0 <= dy < 2 && 0 <= dz < 2 && #[trigger] region_bit(
                    occupancy,
                    block_region(cx, cy, cz, dx, dy, dz),
                );
            let r = block_region(cx, cy, cz, dx, dy, dz);
            assert(occupancy[mask_word(0, r)] == 0);
            lemma_zero_has_no_bit(mask_bit(r));
        }
    }
}

proof fn lemma_axis_split(v: int)
    requires
        0 <= v < 64,
    ensures
        v / 8 == 2 * (v / 16) + (v / 8) % 2,
        0 <= (v / 8) % 2 < 2,
        0 <= v / 16 < 4,
{
}

proof fn lemma_unflatten_coarse(cx: int, cy: int, cz: int)
    requires
        0 <= cx < 4,
        0 <= cy < 4,
        0 <= cz < 4,
    ensures
        0 <= flat3(cx, cy, cz, 4) < 64,
        flat3(cx, cy, cz, 4) % 4 == cx,
        (flat3(cx, cy, cz, 4) / 4) % 4 == cy,
        flat3(cx, cy, cz, 4) / 16 == cz,
{
}

/// Empty-space skipping is sound: where the coarse mask is derived, every occupied voxel
/// has its coarse cell marked, so a clear coarse bit proves its whole block empty.
pub proof fn lemma_occupied_voxel_marks_its_coarse_cell(
    occupancy: Seq<u32>,
    x: int,
    y: int,
    z: int,
)
    requires
        LEAF_MASK_WORD_OFFSET <= occupancy.len(),
        coarse_mask_derived(occupancy),
        in_grid(x, y, z),
        voxel_is_set(occupancy, x, y, z),
    ensures
        coarse_bit(occupancy, coarse_of(x, y, z)),
{
    lemma_layout_values();
    lemma_axis_split(x);
    lemma_axis_split(y);
    lemma_axis_split(z);
    let cx = x / 16;
    let cy = y / 16;
    let cz = z / 16;
    lemma_unflatten_coarse(cx, cy, cz);
    let c = coarse_of(x, y, z);
    assert(c == flat3(cx, cy, cz, 4));
    let dx = (x / 8) % 2;
    let dy = (y / 8) % 2;
    let dz = (z / 8) % 2;
    assert(block_region(cx, cy, cz, dx, dy, dz) == region_of(x, y, z));
    assert(region_bit(occupancy, block_region(cx, cy, cz, dx, dy, dz)));
    assert(block_occupied(occupancy, cx, cy, cz));
    assert(coarse_cell_occupied(occupancy, c));
}

} // verus!
