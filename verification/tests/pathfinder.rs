use std::sync::Arc;

use parking_lot::RwLock;
use voxelbot::block::BlockState;
use voxelbot::ctx::PathfinderCtx;
use voxelbot::pos::{BlockPos, ChunkPos};
use voxelbot::world::{Chunk, WorldData};

fn world_with_chunk() -> WorldData {
    let mut world = WorldData::new(0);
    let inserted = world.insert_chunk(ChunkPos { x: 0, z: 0 }, Chunk::all_air(4));
    assert!(inserted);
    assert!(world.chunk_ref(ChunkPos { x: 0, z: 0 }).is_some());
    assert!(world.chunk_ref(ChunkPos { x: 1, z: 0 }).is_none());
    world
}

fn set(world: &mut WorldData, x: i32, y: i32, z: i32, b: BlockState) {
    let done = world.set_block_state(BlockPos::new(x, y, z), b);
    assert!(done);
}

#[test]
fn test_is_passable() {
    let mut world = world_with_chunk();
    set(&mut world, 0, 0, 0, BlockState::full_cube());
    set(&mut world, 0, 1, 0, BlockState::air());

    let mut ctx = PathfinderCtx::new(Arc::new(RwLock::new(world)));
    assert!(!ctx.is_block_passable(BlockPos::new(0, 0, 0)));
    assert!(ctx.is_block_passable(BlockPos::new(0, 1, 0)));
}

#[test]
fn test_is_solid() {
    let mut world = world_with_chunk();
    set(&mut world, 0, 0, 0, BlockState::full_cube());
    set(&mut world, 0, 1, 0, BlockState::air());

    let mut ctx = PathfinderCtx::new(Arc::new(RwLock::new(world)));
    assert!(ctx.is_block_solid(BlockPos::new(0, 0, 0)));
    assert!(!ctx.is_block_solid(BlockPos::new(0, 1, 0)));
}

#[test]
fn test_is_standable() {
    let mut world = world_with_chunk();
    set(&mut world, 0, 0, 0, BlockState::full_cube());
    set(&mut world, 0, 1, 0, BlockState::air());
    set(&mut world, 0, 2, 0, BlockState::air());
    set(&mut world, 0, 3, 0, BlockState::air());

    let mut ctx = PathfinderCtx::new(Arc::new(RwLock::new(world)));
    assert!(ctx.is_standable(BlockPos::new(0, 1, 0)));
    assert!(!ctx.is_standable(BlockPos::new(0, 0, 0)));
    assert!(!ctx.is_standable(BlockPos::new(0, 2, 0)));
}

#[test]
fn memoized_answers_survive_world_mutation() {
    let mut world = world_with_chunk();
    set(&mut world, 0, 1, 0, BlockState::air());
    let lock = Arc::new(RwLock::new(world));

    let mut ctx = PathfinderCtx::new(lock.clone());
    assert!(ctx.is_block_passable(BlockPos::new(0, 1, 0)));
    assert!(!ctx.is_block_solid(BlockPos::new(0, 1, 0)));

    {
        let mut guard = lock.write();
        let done = guard.set_block_state(BlockPos::new(0, 1, 0), BlockState::full_cube());
        assert!(done);
    }

    // The same context answers from its snapshot, staleness by design.
    assert!(ctx.is_block_passable(BlockPos::new(0, 1, 0)));
    assert!(!ctx.is_block_solid(BlockPos::new(0, 1, 0)));

    // A fresh context sees the mutated world.
    let mut fresh = PathfinderCtx::new(lock.clone());
    assert!(!fresh.is_block_passable(BlockPos::new(0, 1, 0)));
    assert!(fresh.is_block_solid(BlockPos::new(0, 1, 0)));
}

#[test]
fn unloaded_chunk_fails_safe() {
    let world = WorldData::new(0);
    let mut ctx = PathfinderCtx::new(Arc::new(RwLock::new(world)));

    assert!(!ctx.is_block_passable(BlockPos::new(5, 3, 5)));
    assert!(!ctx.is_block_solid(BlockPos::new(5, 3, 5)));
    assert!(!ctx.is_passable(BlockPos::new(5, 3, 5)));
    assert!(!ctx.is_standable(BlockPos::new(5, 3, 5)));
    assert_eq!(ctx.fall_distance(BlockPos::new(5, 3, 5)), 0);
}

#[test]
fn clearance_composition_fixtures() {
    let mut world = world_with_chunk();
    // Column A at (0, _, 0): air over air.
    set(&mut world, 0, 1, 0, BlockState::air());
    set(&mut world, 0, 2, 0, BlockState::air());
    // Column B at (1, _, 0): solid over air.
    set(&mut world, 1, 1, 0, BlockState::air());
    set(&mut world, 1, 2, 0, BlockState::full_cube());
    // Column C at (2, _, 0): air over solid.
    set(&mut world, 2, 1, 0, BlockState::full_cube());
    set(&mut world, 2, 2, 0, BlockState::air());
    // Column D at (3, _, 0): solid over solid.
    set(&mut world, 3, 1, 0, BlockState::full_cube());
    set(&mut world, 3, 2, 0, BlockState::full_cube());

    let mut ctx = PathfinderCtx::new(Arc::new(RwLock::new(world)));
    assert!(ctx.is_passable(BlockPos::new(0, 1, 0)));
    assert!(!ctx.is_passable(BlockPos::new(1, 1, 0)));
    assert!(!ctx.is_passable(BlockPos::new(2, 1, 0)));
    assert!(!ctx.is_passable(BlockPos::new(3, 1, 0)));
}

#[test]
fn water_and_waterlogged_blocks_are_obstacles() {
    let mut world = world_with_chunk();
    set(&mut world, 0, 1, 0, BlockState::water());
    let waterlogged = BlockState {
        air: false,
        shape: voxelbot::block::CollisionShape::Empty,
        water: false,
        waterlogged: true,
        submerged_plant: false,
    };
    set(&mut world, 1, 1, 0, waterlogged);
    let seagrass_like = BlockState {
        air: false,
        shape: voxelbot::block::CollisionShape::Empty,
        water: false,
        waterlogged: false,
        submerged_plant: true,
    };
    set(&mut world, 2, 1, 0, seagrass_like);

    let mut ctx = PathfinderCtx::new(Arc::new(RwLock::new(world)));
    assert!(!ctx.is_block_passable(BlockPos::new(0, 1, 0)));
    assert!(!ctx.is_block_passable(BlockPos::new(1, 1, 0)));
    assert!(!ctx.is_block_passable(BlockPos::new(2, 1, 0)));
    // None of them can be stood on either: their shapes are empty.
    assert!(!ctx.is_block_solid(BlockPos::new(0, 1, 0)));
    assert!(!ctx.is_block_solid(BlockPos::new(1, 1, 0)));
    assert!(!ctx.is_block_solid(BlockPos::new(2, 1, 0)));
}

#[test]
fn fall_distance_counts_to_the_floor() {
    let mut world = world_with_chunk();
    set(&mut world, 0, 0, 0, BlockState::full_cube());
    // (0, 1..=4, 0) stay air: a column of passable voxels above a floor.

    let mut ctx = PathfinderCtx::new(Arc::new(RwLock::new(world)));
    assert_eq!(ctx.fall_distance(BlockPos::new(0, 4, 0)), 3);
    assert_eq!(ctx.fall_distance(BlockPos::new(0, 1, 0)), 0);
}

#[test]
fn fall_distance_unbounded_below_minimum_y() {
    let world = {
        let mut w = WorldData::new(0);
        let inserted = w.insert_chunk(ChunkPos { x: 0, z: 0 }, Chunk::all_air(1));
        assert!(inserted);
        w
    };
    let mut ctx = PathfinderCtx::new(Arc::new(RwLock::new(world)));
    // Every voxel from y 9 down to the minimum y bound is air.
    assert_eq!(ctx.fall_distance(BlockPos::new(0, 10, 0)), u32::MAX);
}

#[test]
fn standability_composition_scenario() {
    let mut world = world_with_chunk();
    set(&mut world, 0, 0, 0, BlockState::full_cube());
    set(&mut world, 0, 1, 0, BlockState::air());
    set(&mut world, 0, 2, 0, BlockState::air());
    set(&mut world, 0, 3, 0, BlockState::air());

    let mut ctx = PathfinderCtx::new(Arc::new(RwLock::new(world)));
    // Solid footing below and two voxels of clearance.
    assert!(ctx.is_standable(BlockPos::new(0, 1, 0)));
    // The query voxel itself is solid: no clearance.
    assert!(!ctx.is_standable(BlockPos::new(0, 0, 0)));
    // Nothing solid beneath.
    assert!(!ctx.is_standable(BlockPos::new(0, 2, 0)));
}

#[test]
fn lock_touches_once_per_distinct_chunk() {
    let mut world = WorldData::new(0);
    assert!(world.insert_chunk(ChunkPos { x: 0, z: 0 }, Chunk::all_air(4)));
    assert!(world.insert_chunk(ChunkPos { x: 1, z: 0 }, Chunk::all_air(4)));

    let mut ctx = PathfinderCtx::new(Arc::new(RwLock::new(world)));
    assert_eq!(ctx.chunks_captured(), 0);

    // Many voxel queries inside one chunk capture it exactly once.
    for y in 0..30 {
        ctx.is_block_passable(BlockPos::new(3, y, 3));
        ctx.is_block_solid(BlockPos::new(3, y, 3));
    }
    assert_eq!(ctx.chunks_captured(), 1);

    // Touching a second chunk, loaded or not, captures one more each.
    ctx.is_block_passable(BlockPos::new(20, 5, 3));
    ctx.is_standable(BlockPos::new(20, 6, 3));
    assert_eq!(ctx.chunks_captured(), 2);
    ctx.is_block_passable(BlockPos::new(-5, 5, 3));
    assert_eq!(ctx.chunks_captured(), 3);
}

#[test]
fn negative_coordinates_resolve_in_their_own_chunk() {
    let mut world = WorldData::new(0);
    let inserted = world.insert_chunk(ChunkPos { x: -1, z: -1 }, Chunk::all_air(4));
    assert!(inserted);
    set(&mut world, -1, 0, -1, BlockState::full_cube());
    set(&mut world, -16, 5, -16, BlockState::full_cube());

    let mut ctx = PathfinderCtx::new(Arc::new(RwLock::new(world)));
    assert!(ctx.is_block_solid(BlockPos::new(-1, 0, -1)));
    assert!(ctx.is_block_solid(BlockPos::new(-16, 5, -16)));
    assert!(ctx.is_block_passable(BlockPos::new(-2, 0, -2)));
    assert!(ctx.is_standable(BlockPos::new(-1, 1, -1)));
}
