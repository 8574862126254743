use vstd::prelude::*;
use vstd::arithmetic::div_mod::lemma_fundamental_div_mod;

use crate::scene::{RenderObject, VoxelGenerationKind};
use crate::voxel_mask::{LEAF_VOXEL_WORD_COUNT, OCCUPANCY_WORD_COUNT, VOXEL_GRID_DIM};

verus! {

/// The coarse depth target is this many times smaller than the output on each axis.
pub const COARSE_DEPTH_DIVISOR: u32 = 2;

/// Bytes per output pixel (RGBA, eight bits per channel).
pub const BYTES_PER_PIXEL: u32 = 4;

/// Row pitch alignment of a texture-to-buffer copy.
pub const COPY_BYTES_PER_ROW_ALIGNMENT: u32 = 256;

/// Edge of the square workgroup of the per-pixel compute passes.
pub const TILE_WORKGROUP_SIZE: u32 = 8;

/// Workgroup size of the passes that clear mask and leaf words.
pub const CLEAR_WORKGROUP_SIZE: u32 = 256;

/// Workgroup size of the populate pass along x and y.
pub const POPULATE_WORKGROUP_SIZE_XY: u32 = 8;

/// Workgroup size of the populate pass along z.
pub const POPULATE_WORKGROUP_SIZE_Z: u32 = 2;

/// Most workgroups a dispatch may have along one axis.
pub const MAX_WORKGROUPS_PER_DIMENSION: u32 = 65535;

/// Bytes of one packed shade command (two `u32` words).
pub const SHADE_COMMAND_BYTES: u64 = 8;

/// `a / b` rounded up.
pub open spec fn ceil_div(a: int, b: int) -> int {
    (a + b - 1) / b
}

/// The larger of `value` and one.
pub open spec fn at_least_one(value: int) -> int {
    if value < 1 {
        1
    } else {
        value
    }
}

/// `ceil_div(a, b)` is the least multiple count of `b` that reaches `a`.
pub proof fn lemma_ceil_div(a: int, b: int)
    requires
        a >= 0,
        b > 0,
    ensures
        ceil_div(a, b) == a / b + if a % b == 0 {
            0int
        } else {
            1int
        },
        ceil_div(a, b) * b >= a,
        a > 0 ==> (ceil_div(a, b) - 1) * b < a,
        0 <= ceil_div(a, b) <= a,
{
    lemma_fundamental_div_mod(a, b);
    lemma_fundamental_div_mod(a + b - 1, b);
    let q = a / b;
    let r = a % b;
    assert(0 <= r < b);
    assert((a + b - 1) % b >= 0 && (a + b - 1) % b < b);
    assert(ceil_div(a, b) == q + if r == 0 {
        0int
    } else {
        1int
    }) by (nonlinear_arith)
        requires
            a == b * q + r,
            a + b - 1 == b * ((a + b - 1) / b) + (a + b - 1) % b,
            0 <= r < b,
            0 <= (a + b - 1) % b < b,
            ceil_div(a, b) == (a + b - 1) / b,
    ;
    assert(ceil_div(a, b) * b >= a && (a > 0 ==> (ceil_div(a, b) - 1) * b < a) && 0 <= ceil_div(
        a,
        b,
    ) <= a) by (nonlinear_arith)
        requires
            a == b * q + r,
            0 <= r < b,
            a >= 0,
            b > 0,
            ceil_div(a, b) == q + if r == 0 {
                0int
            } else {
                1int
            },
    ;
}

/// `value / divisor` rounded up.
fn div_ceil_u32(value: u32, divisor: u32) -> (quotient: u32)
    requires
        divisor > 0,
    ensures
        quotient == ceil_div(value as int, divisor as int),
{
    proof {
        lemma_ceil_div(value as int, divisor as int);
    }
    let quotient = value / divisor;
    if value % divisor != 0 {
        quotient + 1
    } else {
        quotient
    }
}

/// Size of the coarse depth target for an output of `width` by `height`: each axis, at
/// least one, divided by `COARSE_DEPTH_DIVISOR` and rounded up.
pub fn coarse_depth_dimensions(width: u32, height: u32) -> (size: (u32, u32))
    ensures
        size.0 == ceil_div(at_least_one(width as int), COARSE_DEPTH_DIVISOR as int),
        size.1 == ceil_div(at_least_one(height as int), COARSE_DEPTH_DIVISOR as int),
        size.0 >= 1,
        size.1 >= 1,
        size.0 * COARSE_DEPTH_DIVISOR >= at_least_one(width as int),
        size.1 * COARSE_DEPTH_DIVISOR >= at_least_one(height as int),
{
    proof {
        lemma_ceil_div(at_least_one(width as int), COARSE_DEPTH_DIVISOR as int);
        lemma_ceil_div(at_least_one(height as int), COARSE_DEPTH_DIVISOR as int);
    }
    let width = if width < 1 {
        1
    } else {
        width
    };
    let height = if height < 1 {
        1
    } else {
        height
    };
    (div_ceil_u32(width, COARSE_DEPTH_DIVISOR), div_ceil_u32(height, COARSE_DEPTH_DIVISOR))
}

/// The first multiple of `alignment` that is at least `value`.
pub fn align_to(value: u32, alignment: u32) -> (aligned: u32)
    requires
        alignment > 0,
        ceil_div(value as int, alignment as int) * alignment <= u32::MAX,
    ensures
        aligned == ceil_div(value as int, alignment as int) * alignment,
        aligned >= value,
        aligned % alignment == 0,
        aligned < value + alignment,
{
    proof {
        lemma_ceil_div(value as int, alignment as int);
        vstd::arithmetic::mul::lemma_mul_is_commutative(
            ceil_div(value as int, alignment as int),
            alignment as int,
        );
        vstd::arithmetic::div_mod::lemma_mod_multiples_basic(
            ceil_div(value as int, alignment as int),
            alignment as int,
        );
    }
    let count = div_ceil_u32(value, alignment);
    proof {
        let c = ceil_div(value as int, alignment as int);
        assert(c * alignment < value + alignment) by (nonlinear_arith)
            requires
                value > 0 ==> (c - 1) * alignment < value,
                value == 0 ==> c == 0,
                alignment > 0,
        ;
    }
    count * alignment
}

/// Bytes of one row of a `width`-pixel output: as stored, and padded to the copy alignment.
pub fn readback_row_bytes(width: u32) -> (bytes: (u32, u32))
    requires
        ceil_div(width * BYTES_PER_PIXEL as int, COPY_BYTES_PER_ROW_ALIGNMENT as int)
            * COPY_BYTES_PER_ROW_ALIGNMENT <= u32::MAX,
    ensures
        bytes.0 == width * BYTES_PER_PIXEL,
        bytes.1 == ceil_div(bytes.0 as int, COPY_BYTES_PER_ROW_ALIGNMENT as int)
            * COPY_BYTES_PER_ROW_ALIGNMENT,
        bytes.0 <= bytes.1,
        bytes.1 % COPY_BYTES_PER_ROW_ALIGNMENT == 0,
{
    proof {
        lemma_ceil_div(width * BYTES_PER_PIXEL as int, COPY_BYTES_PER_ROW_ALIGNMENT as int);
    }
    let unpadded = width * BYTES_PER_PIXEL;
    (unpadded, align_to(unpadded, COPY_BYTES_PER_ROW_ALIGNMENT))
}

/// The pixels of a read-back buffer: the buffer cut into rows of `padded_bytes_per_row`
/// bytes (the last one possibly shorter), of each of which the first
/// `unpadded_bytes_per_row` bytes are kept.
pub fn strip_row_padding(
    mapped: &[u8],
    padded_bytes_per_row: usize,
    unpadded_bytes_per_row: usize,
) -> (pixels: Vec<u8>)
    requires
        padded_bytes_per_row > 0,
        mapped@.len() == 0 || unpadded_bytes_per_row <= padded_bytes_per_row,
        (mapped@.len() as int) % (padded_bytes_per_row as int) == 0 || (mapped@.len() as int) % (
        padded_bytes_per_row as int) >= unpadded_bytes_per_row,
    ensures
        pixels@.len() == ceil_div(mapped@.len() as int, padded_bytes_per_row as int)
            * unpadded_bytes_per_row,
        forall|row: int, column: int|
            0 <= row < ceil_div(mapped@.len() as int, padded_bytes_per_row as int) && 0 <= column
                < unpadded_bytes_per_row ==> #[trigger] pixels@[row * unpadded_bytes_per_row
                + column] == mapped@[row * padded_bytes_per_row + column],
{
    let ghost len = mapped@.len() as int;
    let ghost pad = padded_bytes_per_row as int;
    let ghost keep = unpadded_bytes_per_row as int;
    proof {
        lemma_ceil_div(len, pad);
        lemma_fundamental_div_mod(len, pad);
    }
    let full_rows = mapped.len() / padded_bytes_per_row;
    let rows = if mapped.len() % padded_bytes_per_row != 0 {
        full_rows + 1
    } else {
        full_rows
    };
    assert(rows == ceil_div(len, pad));
    let total = mapped.len();
    let mut pixels: Vec<u8> = Vec::new();
    let mut row: usize = 0;
    while row < rows
        invariant
            len == mapped@.len(),
            total == len,
            pad == padded_bytes_per_row,
            keep == unpadded_bytes_per_row,
            pad > 0,
            len == 0 || keep <= pad,
            len % pad == 0 || len % pad >= keep,
            len == pad * (len / pad) + len % pad,
            0 <= len % pad < pad,
            full_rows == len / pad,
            rows == ceil_div(len, pad),
            rows == full_rows + if len % pad == 0 {
                0int
            } else {
                1int
            },
            row <= rows,
            pixels@.len() == row * keep,
            forall|r: int, c: int|
                0 <= r < row && 0 <= c < keep ==> #[trigger] pixels@[r * keep + c] == mapped@[r
                    * pad + c],
        decreases rows - row,
    {
        // The row holds `keep` bytes: it is a full row, or the short last row, which the
        // precondition makes long enough.
        assert(len > 0) by (nonlinear_arith)
            requires
                row < rows,
                rows == ceil_div(len, pad),
                len >= 0,
                pad > 0,
                len == 0 ==> ceil_div(len, pad) == 0,
        ;
        assert(row * pad + keep <= len) by (nonlinear_arith)
            requires
                row < rows,
                rows == full_rows + if len % pad == 0 {
                    0int
                } else {
                    1int
                },
                len == pad * full_rows + len % pad,
                len % pad == 0 || len % pad >= keep,
                keep <= pad,
                pad > 0,
                row >= 0,
        ;
        assert(row * padded_bytes_per_row + unpadded_bytes_per_row <= mapped@.len());
        let start = row * padded_bytes_per_row;
        let ghost before = pixels@;
        let mut column: usize = 0;
        while column < unpadded_bytes_per_row
            invariant
                start + keep <= len,
                total == len,
                len == mapped@.len(),
                keep == unpadded_bytes_per_row,
                column <= keep,
                pixels@.len() == before.len() + column,
                forall|i: int| 0 <= i < before.len() ==> pixels@[i] == before[i],
                forall|c: int|
                    0 <= c < column ==> #[trigger] pixels@[before.len() + c] == mapped@[start + c],
            decreases keep - column,
        {
            pixels.push(mapped[start + column]);
            column = column + 1;
        }
        assert forall|r: int, c: int| 0 <= r < row + 1 && 0 <= c < keep implies #[trigger] pixels@[r
            * keep + c] == mapped@[r * pad + c] by {
            if r < row {
                assert(r * keep + c < before.len()) by (nonlinear_arith)
                    requires
                        r < row,
                        0 <= c < keep,
                        before.len() == row * keep,
                ;
                assert(pixels@[r * keep + c] == before[r * keep + c]);
            } else {
                assert(r * keep + c == before.len() + c);
            }
        }
        assert(pixels@.len() == (row + 1) * keep) by (nonlinear_arith)
            requires
                pixels@.len() == before.len() + keep,
                before.len() == row * keep,
        ;
        row = row + 1;
    }
    pixels
}

/// Workgroups of a per-pixel pass over a `width` by `height` target: one per
/// `TILE_WORKGROUP_SIZE` square tile, rounded up on each axis.
pub fn tile_dispatch(width: u32, height: u32) -> (workgroups: [u32; 3])
    ensures
        workgroups[0] == ceil_div(width as int, TILE_WORKGROUP_SIZE as int),
        workgroups[1] == ceil_div(height as int, TILE_WORKGROUP_SIZE as int),
        workgroups[2] == 1,
        workgroups[0] * TILE_WORKGROUP_SIZE >= width,
        workgroups[1] * TILE_WORKGROUP_SIZE >= height,
{
    proof {
        lemma_ceil_div(width as int, TILE_WORKGROUP_SIZE as int);
        lemma_ceil_div(height as int, TILE_WORKGROUP_SIZE as int);
    }
    [div_ceil_u32(width, TILE_WORKGROUP_SIZE), div_ceil_u32(height, TILE_WORKGROUP_SIZE), 1]
}

/// Bytes of the shade command buffer: room for one command per pixel of a target of at
/// least one by one pixel.
pub fn shade_command_buffer_bytes(width: u32, height: u32) -> (bytes: u64)
    requires
        at_least_one(width as int) * at_least_one(height as int) * SHADE_COMMAND_BYTES
            <= u64::MAX,
    ensures
        bytes == at_least_one(width as int) * at_least_one(height as int) * SHADE_COMMAND_BYTES,
{
    let width = if width < 1 {
        1
    } else {
        width
    };
    let height = if height < 1 {
        1
    } else {
        height
    };
    assert(width as u64 * height as u64 <= u64::MAX) by (nonlinear_arith)
        requires
            width <= u32::MAX,
            height <= u32::MAX,
    ;
    let max_commands = width as u64 * height as u64;
    max_commands * SHADE_COMMAND_BYTES
}

/// One more than the largest object index, or zero without objects: the number of
/// per-object slots that the voxel buffers need.
pub open spec fn object_slot_count(objects: Seq<RenderObject>) -> int
    decreases objects.len(),
{
    if objects.len() == 0 {
        0
    } else {
        let rest = object_slot_count(objects.drop_last());
        let last = objects.last().object_index + 1;
        if rest < last {
            last
        } else {
            rest
        }
    }
}

/// No object has the largest `u32` index.
pub open spec fn indices_below_max(objects: Seq<RenderObject>) -> bool {
    forall|i: int| 0 <= i < objects.len() ==> #[trigger] objects[i].object_index < u32::MAX
}

/// `object_slot_count` bounds every index and is reached by one of them.
pub proof fn lemma_object_slot_count(objects: Seq<RenderObject>)
    ensures
        object_slot_count(objects) >= 0,
        forall|i: int|
            0 <= i < objects.len() ==> #[trigger] objects[i].object_index < object_slot_count(
                objects,
            ),
        objects.len() > 0 ==> exists|i: int|
            0 <= i < objects.len() && object_slot_count(objects) == #[trigger] objects[i].object_index
                + 1,
    decreases objects.len(),
{
    if objects.len() > 0 {
        let rest = objects.drop_last();
        lemma_object_slot_count(rest);
        assert forall|i: int| 0 <= i < objects.len() implies #[trigger] objects[i].object_index
            < object_slot_count(objects) by {
            if i < rest.len() {
                assert(rest[i] == objects[i]);
            }
        }
        if object_slot_count(objects) == objects.last().object_index + 1 {
            assert(objects[objects.len() - 1] == objects.last());
        } else {
            let i = choose|i: int|
                0 <= i < rest.len() && object_slot_count(rest) == #[trigger] rest[i].object_index
                    + 1;
            assert(objects[i] == rest[i]);
        }
    }
}

/// One more than the largest object index, or zero without objects.
pub fn max_object_count(objects: &[RenderObject]) -> (count: u32)
    requires
        indices_below_max(objects@),
    ensures
        count == object_slot_count(objects@),
{
    let mut count: u32 = 0;
    let mut i: usize = 0;
    while i < objects.len()
        invariant
            i <= objects@.len(),
            indices_below_max(objects@),
            count == object_slot_count(objects@.take(i as int)),
        decreases objects@.len() - i,
    {
        let candidate = objects[i].object_index + 1;
        assert(objects@.take(i + 1).drop_last() =~= objects@.take(i as int));
        if candidate > count {
            count = candidate;
        }
        i = i + 1;
    }
    assert(objects@.take(objects@.len() as int) =~= objects@);
    count
}

/// An object is generated by the generator `kind`.
pub open spec fn generated_as(kind: VoxelGenerationKind) -> spec_fn(RenderObject) -> bool {
    |object: RenderObject| object.generation_kind == kind
}

/// Splits the objects by generator: the terrain objects and the Cornell objects, each in
/// the order in which they come.
pub fn partition_generation_objects(objects: &[RenderObject]) -> (parts: (
    Vec<RenderObject>,
    Vec<RenderObject>,
))
    ensures
        parts.0@ == objects@.filter(generated_as(VoxelGenerationKind::Terrain)),
        parts.1@ == objects@.filter(generated_as(VoxelGenerationKind::Cornell)),
{
    let mut terrain_objects: Vec<RenderObject> = Vec::new();
    let mut cornell_objects: Vec<RenderObject> = Vec::new();
    let mut i: usize = 0;
    while i < objects.len()
        invariant
            i <= objects@.len(),
            terrain_objects@ == objects@.take(i as int).filter(
                generated_as(VoxelGenerationKind::Terrain),
            ),
            cornell_objects@ == objects@.take(i as int).filter(
                generated_as(VoxelGenerationKind::Cornell),
            ),
        decreases objects@.len() - i,
    {
        let object = objects[i];
        proof {
            reveal(Seq::filter);
            let seen = objects@.take(i + 1);
            assert(seen.drop_last() =~= objects@.take(i as int));
            assert(seen.last() == object);
        }
        match object.generation_kind {
            VoxelGenerationKind::Terrain => terrain_objects.push(object),
            VoxelGenerationKind::Cornell => cornell_objects.push(object),
        }
        i = i + 1;
    }
    assert(objects@.take(objects@.len() as int) =~= objects@);
    (terrain_objects, cornell_objects)
}

/// Bytes of the occupancy buffer of all objects: one occupancy block per object slot.
pub fn voxel_mask_buffer_size(objects: &[RenderObject]) -> (bytes: u64)
    ensures
        bytes == object_slot_count(objects@) * (OCCUPANCY_WORD_COUNT as int * 4),
{
    proof {
        crate::voxel_mask::lemma_layout_values();
    }
    let mut object_count: u64 = 0;
    let mut i: usize = 0;
    while i < objects.len()
        invariant
            i <= objects@.len(),
            object_count == object_slot_count(objects@.take(i as int)),
            object_count <= u32::MAX as u64 + 1,
        decreases objects@.len() - i,
    {
        let candidate = objects[i].object_index as u64 + 1;
        assert(objects@.take(i + 1).drop_last() =~= objects@.take(i as int));
        if candidate > object_count {
            object_count = candidate;
        }
        i = i + 1;
    }
    assert(objects@.take(objects@.len() as int) =~= objects@);
    let block_bytes = (OCCUPANCY_WORD_COUNT * 4) as u64;
    assert(object_count * block_bytes <= u64::MAX) by (nonlinear_arith)
        requires
            object_count <= u32::MAX as u64 + 1,
            block_bytes == 32840,
    ;
    object_count * block_bytes
}

/// Mask words and leaf words that voxel generation clears: one occupancy block and one
/// leaf payload block per object slot.
pub fn generation_word_totals(objects: &[RenderObject]) -> (totals: (u32, u32))
    requires
        indices_below_max(objects@),
        object_slot_count(objects@) * LEAF_VOXEL_WORD_COUNT <= u32::MAX,
    ensures
        totals.0 == object_slot_count(objects@) * OCCUPANCY_WORD_COUNT,
        totals.1 == object_slot_count(objects@) * LEAF_VOXEL_WORD_COUNT,
{
    proof {
        crate::voxel_mask::lemma_layout_values();
    }
    let count = max_object_count(objects);
    assert(count * 8210 <= u32::MAX) by (nonlinear_arith)
        requires
            count * 262144 <= u32::MAX,
    ;
    let occupancy_words = OCCUPANCY_WORD_COUNT as u32;
    let leaf_words = LEAF_VOXEL_WORD_COUNT as u32;
    (count * occupancy_words, count * leaf_words)
}

/// Workgroups that clear `total_mask_words` mask words, one word per invocation.
pub fn clear_mask_dispatch(total_mask_words: u32) -> (workgroups: [u32; 3])
    ensures
        workgroups[0] == ceil_div(total_mask_words as int, CLEAR_WORKGROUP_SIZE as int),
        workgroups[1] == 1,
        workgroups[2] == 1,
        workgroups[0] * CLEAR_WORKGROUP_SIZE >= total_mask_words,
{
    proof {
        lemma_ceil_div(total_mask_words as int, CLEAR_WORKGROUP_SIZE as int);
    }
    [div_ceil_u32(total_mask_words, CLEAR_WORKGROUP_SIZE), 1, 1]
}

/// Workgroups that clear `total_leaf_words` leaf words: the workgroups are laid out along x
/// up to `MAX_WORKGROUPS_PER_DIMENSION`, and the rest in rows along y.
pub fn clear_leaf_dispatch(total_leaf_words: u32) -> (workgroups: [u32; 3])
    ensures
        ({
            let needed = ceil_div(total_leaf_words as int, CLEAR_WORKGROUP_SIZE as int);
            let x = if needed < MAX_WORKGROUPS_PER_DIMENSION as int {
                needed
            } else {
                MAX_WORKGROUPS_PER_DIMENSION as int
            };
            &&& workgroups[0] == at_least_one(x)
            &&& workgroups[1] == ceil_div(needed, at_least_one(x))
            &&& workgroups[2] == 1
        }),
        1 <= workgroups[0] <= MAX_WORKGROUPS_PER_DIMENSION,
        workgroups[1] <= MAX_WORKGROUPS_PER_DIMENSION,
        workgroups[0] * workgroups[1] * CLEAR_WORKGROUP_SIZE >= total_leaf_words,
{
    let total_leaf_workgroups = div_ceil_u32(total_leaf_words, CLEAR_WORKGROUP_SIZE);
    let clear_leaf_dispatch_x = if total_leaf_workgroups < MAX_WORKGROUPS_PER_DIMENSION {
        total_leaf_workgroups
    } else {
        MAX_WORKGROUPS_PER_DIMENSION
    };
    let divisor = if clear_leaf_dispatch_x < 1 {
        1
    } else {
        clear_leaf_dispatch_x
    };
    let clear_leaf_dispatch_y = div_ceil_u32(total_leaf_workgroups, divisor);
    proof {
        let total = total_leaf_words as int;
        let needed = total_leaf_workgroups as int;
        lemma_ceil_div(total, CLEAR_WORKGROUP_SIZE as int);
        lemma_ceil_div(needed, divisor as int);
        let y = clear_leaf_dispatch_y as int;
        assert(needed <= 16777216) by (nonlinear_arith)
            requires
                total <= u32::MAX,
                needed > 0 ==> (needed - 1) * 256 < total,
        ;
        if divisor == MAX_WORKGROUPS_PER_DIMENSION {
            assert(y <= MAX_WORKGROUPS_PER_DIMENSION) by (nonlinear_arith)
                requires
                    needed <= 16777216,
                    y > 0 ==> (y - 1) * 65535 < needed,
            ;
        } else {
            assert(y <= 1) by (nonlinear_arith)
                requires
                    needed <= divisor,
                    divisor >= 1,
                    y > 0 ==> (y - 1) * divisor < needed,
                    y >= 0,
            ;
        }
        assert(divisor * y * 256 >= total) by (nonlinear_arith)
            requires
                y * divisor >= needed,
                needed * 256 >= total,
        ;
    }
    [divisor, clear_leaf_dispatch_y, 1]
}

/// Workgroups of the populate pass: the voxel grid's x and y by tiles, and every voxel slice
/// of every object along z.
pub fn populate_dispatch(active_object_count: u32) -> (workgroups: [u32; 3])
    requires
        active_object_count * VOXEL_GRID_DIM <= u32::MAX,
    ensures
        workgroups[0] == ceil_div(VOXEL_GRID_DIM as int, POPULATE_WORKGROUP_SIZE_XY as int),
        workgroups[1] == ceil_div(VOXEL_GRID_DIM as int, POPULATE_WORKGROUP_SIZE_XY as int),
        workgroups[2] == ceil_div(
            active_object_count * VOXEL_GRID_DIM as int,
            POPULATE_WORKGROUP_SIZE_Z as int,
        ),
        workgroups[0] * POPULATE_WORKGROUP_SIZE_XY >= VOXEL_GRID_DIM,
        workgroups[2] * POPULATE_WORKGROUP_SIZE_Z >= active_object_count * VOXEL_GRID_DIM,
{
    let total_object_slices = active_object_count * VOXEL_GRID_DIM;
    proof {
        lemma_ceil_div(VOXEL_GRID_DIM as int, POPULATE_WORKGROUP_SIZE_XY as int);
        lemma_ceil_div(total_object_slices as int, POPULATE_WORKGROUP_SIZE_Z as int);
    }
    [
        div_ceil_u32(VOXEL_GRID_DIM, POPULATE_WORKGROUP_SIZE_XY),
        div_ceil_u32(VOXEL_GRID_DIM, POPULATE_WORKGROUP_SIZE_XY),
        div_ceil_u32(total_object_slices, POPULATE_WORKGROUP_SIZE_Z),
    ]
}

/// `value` is a power of two.
pub open spec fn is_power_of_two(value: int) -> bool
    decreases value,
{
    if value <= 0 {
        false
    } else if value == 1 {
        true
    } else {
        value % 2 == 0 && is_power_of_two(value / 2)
    }
}

/// The vertex capacity after `vertex_count` vertices were written into a buffer of
/// `capacity` vertices: unchanged while they fit, else the smallest power of two that holds
/// them.
pub fn grown_vertex_capacity(vertex_count: usize, capacity: usize) -> (grown: usize)
    requires
        vertex_count <= usize::MAX / 2 + 1,
    ensures
        vertex_count <= capacity ==> grown == capacity,
        vertex_count > capacity ==> {
            &&& is_power_of_two(grown as int)
            &&& grown >= vertex_count
            &&& grown / 2 < vertex_count
        },
{
    if vertex_count <= capacity {
        return capacity;
    }
    let mut grown: usize = 1;
    while grown < vertex_count
        invariant
            is_power_of_two(grown as int),
            grown == 1 || grown / 2 < vertex_count,
            vertex_count <= usize::MAX / 2 + 1,
            grown < 2 * vertex_count,
            vertex_count > capacity,
        decreases 2 * vertex_count - grown,
    {
        assert(is_power_of_two(grown * 2));
        grown = grown * 2;
    }
    grown
}

} // verus!
