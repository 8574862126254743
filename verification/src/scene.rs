use vstd::prelude::*;

verus! {

/// Chunks along each horizontal axis of the scene grid.
pub const GRID_DIMENSION: usize = 26;

/// Vertical layers of chunks.
pub const GRID_LAYERS: usize = 3;

/// Most chunks that are ever loaded.
pub const MAX_ACTIVE_CHUNKS: usize = 128;

/// Chunks in the scene.
pub const SCENE_CHUNK_COUNT: usize = GRID_DIMENSION * GRID_DIMENSION * GRID_LAYERS;

/// Which generator fills the voxels of a chunk.
#[derive(Clone, Copy, Debug, PartialEq, Eq, Structural)]
pub enum VoxelGenerationKind {
    Terrain,
    Cornell,
}

/// One chunk of the scene: its cell in the chunk grid (`[x, layer, z]`), its index in
/// scene order and the generator of its voxels. Its world position is the cell times the
/// chunk extent, centred on the grid.
#[derive(Clone, Copy, Debug, PartialEq, Eq)]
pub struct RenderObject {
    pub grid_position: [u32; 3],
    pub object_index: u32,
    pub generation_kind: VoxelGenerationKind,
}

/// How many chunks are loaded.
#[derive(Clone, Copy, Debug, PartialEq, Eq, Structural)]
pub struct ActiveSceneSnapshot {
    pub active_count: usize,
}

/// The chunks of the scene in load order, and how many of them, from the start of that
/// order, are loaded.
pub struct SceneWorld {
    objects: Vec<RenderObject>,
    next_index: usize,
}

/// Chunk number `index` of the scene: layers outermost, then rows along z, then x. Every
/// chunk of the scene is terrain.
pub open spec fn scene_object(index: int) -> RenderObject {
    let dim = GRID_DIMENSION as int;
    RenderObject {
        grid_position: [
            (index % dim) as u32,
            (index / (dim * dim)) as u32,
            ((index / dim) % dim) as u32,
        ],
        object_index: index as u32,
        generation_kind: VoxelGenerationKind::Terrain,
    }
}

/// The chunks of the scene, in scene order.
pub open spec fn scene_objects() -> Seq<RenderObject> {
    Seq::new(SCENE_CHUNK_COUNT as nat, |index: int| scene_object(index))
}

/// Where chunk loading stops: every chunk, or `MAX_ACTIVE_CHUNKS` of them.
pub open spec fn loading_limit(chunk_count: int) -> int {
    if chunk_count < MAX_ACTIVE_CHUNKS as int {
        chunk_count
    } else {
        MAX_ACTIVE_CHUNKS as int
    }
}

/// How many chunks are loaded after one loading step, from `loaded` of `chunk_count`.
pub open spec fn next_after_advance(loaded: int, chunk_count: int) -> int {
    if loaded < loading_limit(chunk_count) {
        loaded + 1
    } else {
        loaded
    }
}

/// How many chunks are loaded after `steps` loading steps.
pub open spec fn loaded_after_steps(loaded: int, chunk_count: int, steps: nat) -> int
    decreases steps,
{
    if steps == 0 {
        loaded
    } else {
        next_after_advance(loaded_after_steps(loaded, chunk_count, (steps - 1) as nat), chunk_count)
    }
}

impl SceneWorld {
    /// The chunks, in scene order.
    pub closed spec fn objects(&self) -> Seq<RenderObject> {
        self.objects@
    }

    /// How many chunks, from the start of the scene order, are loaded.
    pub closed spec fn next_index(&self) -> int {
        self.next_index as int
    }

    /// At least one chunk is loaded, and no more than there are.
    #[verifier::type_invariant]
    spec fn loaded_count_in_range(self) -> bool {
        1 <= self.next_index <= self.objects@.len()
    }
}

proof fn lemma_unflatten_scene(x: int, y: int, z: int)
    requires
        0 <= x < 26,
        0 <= z < 26,
        0 <= y < 3,
    ensures
        ({
            let index = x + 26 * z + 676 * y;
            &&& 0 <= index < 2028
            &&& index % 26 == x
            &&& (index / 26) % 26 == z
            &&& index / 676 == y
        }),
{
}

/// Builds the scene: a grid of `GRID_DIMENSION` by `GRID_DIMENSION` chunks in
/// `GRID_LAYERS` layers, in scene order, with only the first chunk loaded.
pub fn build_scene_world() -> (world: SceneWorld)
    ensures
        world.objects() == scene_objects(),
        world.next_index() == 1,
{
    let mut objects: Vec<RenderObject> = Vec::new();
    let mut y: usize = 0;
    while y < GRID_LAYERS
        invariant
            y <= GRID_LAYERS,
            objects@.len() == 676 * y,
            forall|k: int| 0 <= k < objects@.len() ==> #[trigger] objects@[k] == scene_object(k),
        decreases GRID_LAYERS - y,
    {
        let mut z: usize = 0;
        while z < GRID_DIMENSION
            invariant
                y < GRID_LAYERS,
                z <= GRID_DIMENSION,
                objects@.len() == 676 * y + 26 * z,
                forall|k: int|
                    0 <= k < objects@.len() ==> #[trigger] objects@[k] == scene_object(k),
            decreases GRID_DIMENSION - z,
        {
            let mut x: usize = 0;
            while x < GRID_DIMENSION
                invariant
                    y < GRID_LAYERS,
                    z < GRID_DIMENSION,
                    x <= GRID_DIMENSION,
                    objects@.len() == 676 * y + 26 * z + x,
                    forall|k: int|
                        0 <= k < objects@.len() ==> #[trigger] objects@[k] == scene_object(k),
                decreases GRID_DIMENSION - x,
            {
                let index = objects.len() as u32;
                proof {
                    lemma_unflatten_scene(x as int, y as int, z as int);
                }
                let object = RenderObject {
                    grid_position: [x as u32, y as u32, z as u32],
                    object_index: index,
                    generation_kind: VoxelGenerationKind::Terrain,
                };
                assert(object == scene_object(objects@.len() as int));
                objects.push(object);
                x = x + 1;
            }
            z = z + 1;
        }
        y = y + 1;
    }
    assert(objects@ =~= scene_objects());
    SceneWorld { objects, next_index: 1 }
}

/// The chunks in scene order: all of them, or only the loaded ones.
fn collect_render_objects(world: &SceneWorld, include_unloaded: bool) -> (objects: Vec<
    RenderObject,
>)
    ensures
        1 <= world.next_index() <= world.objects().len(),
        objects@ == if include_unloaded {
            world.objects()
        } else {
            world.objects().take(world.next_index())
        },
{
    proof {
        use_type_invariant(world);
    }
    let order = &world.objects;
    let mut objects: Vec<RenderObject> = Vec::new();
    let mut i: usize = 0;
    while i < order.len()
        invariant
            1 <= world.next_index() <= world.objects().len(),
            order@ == world.objects(),
            i <= order@.len(),
            objects@ == if include_unloaded {
                order@.take(i as int)
            } else {
                order@.take(if (i as int) < world.next_index() {
                    i as int
                } else {
                    world.next_index()
                })
            },
        decreases order@.len() - i,
    {
        if include_unloaded || i < world.next_index {
            objects.push(order[i]);
        }
        proof {
            assert(order@.take(i as int).push(order@[i as int]) =~= order@.take(i + 1));
        }
        i = i + 1;
    }
    assert(order@.take(order@.len() as int) =~= order@);
    objects
}

/// The loaded chunks, in scene order. At least one chunk is loaded.
pub fn collect_active_render_objects(world: &SceneWorld) -> (objects: Vec<RenderObject>)
    ensures
        1 <= world.next_index() <= world.objects().len(),
        objects@ == world.objects().take(world.next_index()),
{
    collect_render_objects(world, false)
}

/// Every chunk, loaded or not, in scene order.
pub fn collect_all_render_objects(world: &SceneWorld) -> (objects: Vec<RenderObject>)
    ensures
        objects@ == world.objects(),
{
    collect_render_objects(world, true)
}

/// How many chunks are loaded.
fn snapshot(world: &SceneWorld) -> (active: ActiveSceneSnapshot)
    ensures
        active.active_count == world.next_index(),
        1 <= world.next_index() <= world.objects().len(),
{
    ActiveSceneSnapshot { active_count: collect_active_render_objects(world).len() }
}

/// Loads the next chunk in scene order, unless every chunk or `MAX_ACTIVE_CHUNKS` chunks
/// are loaded already, and reports how many chunks are loaded.
pub fn advance_chunk_loading(world: &mut SceneWorld) -> (active: ActiveSceneSnapshot)
    ensures
        final(world).objects() == old(world).objects(),
        final(world).next_index() == next_after_advance(
            old(world).next_index(),
            old(world).objects().len() as int,
        ),
        1 <= final(world).next_index() <= final(world).objects().len(),
        active.active_count == final(world).next_index(),
{
    proof {
        use_type_invariant(&*world);
    }
    let total_count = world.objects.len();
    if world.next_index >= total_count || world.next_index >= MAX_ACTIVE_CHUNKS {
        return snapshot(world);
    }
    world.next_index = world.next_index + 1;
    ActiveSceneSnapshot { active_count: world.next_index }
}

/// Loads chunks one at a time until loading stops, and reports how many are loaded.
pub fn load_max_active_chunks(world: &mut SceneWorld) -> (active: ActiveSceneSnapshot)
    ensures
        final(world).objects() == old(world).objects(),
        final(world).next_index() == if old(world).next_index() < loading_limit(
            old(world).objects().len() as int,
        ) {
            loading_limit(old(world).objects().len() as int)
        } else {
            old(world).next_index()
        },
        active.active_count == final(world).next_index(),
{
    let ghost start = world.next_index();
    let ghost limit = loading_limit(world.objects().len() as int);
    let ghost objects = world.objects();
    let mut previous = snapshot(world);
    loop
        invariant
            world.objects() == objects,
            objects == old(world).objects(),
            start == old(world).next_index(),
            limit == loading_limit(objects.len() as int),
            previous.active_count == world.next_index(),
            1 <= world.next_index() <= objects.len(),
            if start < limit {
                start <= world.next_index() <= limit
            } else {
                world.next_index() == start
            },
        decreases objects.len() - world.next_index(),
    {
        let current = advance_chunk_loading(world);
        if current == previous {
            return current;
        }
        previous = current;
    }
}

/// Loading moves one chunk per step and then stops for good: from `loaded` chunks at or
/// below the limit, `steps` steps load `min(loaded + steps, limit)` chunks, so the count
/// never exceeds `MAX_ACTIVE_CHUNKS` nor the number of chunks.
pub proof fn lemma_loading_saturates(loaded: int, chunk_count: int, steps: nat)
    requires
        0 <= loaded <= loading_limit(chunk_count),
    ensures
        loaded_after_steps(loaded, chunk_count, steps) == if loaded + steps < loading_limit(
            chunk_count,
        ) {
            loaded + steps
        } else {
            loading_limit(chunk_count)
        },
        loaded_after_steps(loaded, chunk_count, steps) <= MAX_ACTIVE_CHUNKS,
    decreases steps,
{
    if steps > 0 {
        lemma_loading_saturates(loaded, chunk_count, (steps - 1) as nat);
    }
}

} // verus!
