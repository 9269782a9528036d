use voxel_world::chunk::{Block, BlockPos, ChunkPos};
use voxel_world::world::{staircase, World, RENDER_DISTANCE};

#[test]
fn new_world_schedules_every_chunk() {
    let mut world = World::new();
    assert!(world.chunks().is_empty());
    let first = world.scheduled_chunks();
    assert_eq!(first, 0);
    assert_eq!(world.chunks().len(), 256);
    assert_eq!(world.chunks()[0].pos(), ChunkPos::new(-8, -8));
    assert_eq!(world.chunks()[1].pos(), ChunkPos::new(-8, -7));
    assert_eq!(world.chunks()[16].pos(), ChunkPos::new(-7, -8));
    assert_eq!(world.chunks()[255].pos(), ChunkPos::new(7, 7));
    assert_eq!(RENDER_DISTANCE, 8);
}

#[test]
fn scheduled_chunks_move_once() {
    let mut world = World::new();
    assert_eq!(world.scheduled_chunks(), 0);
    assert_eq!(world.scheduled_chunks(), 256);
    assert_eq!(world.chunks().len(), 256);
    assert_eq!(world.to_update_chunks(), 256);
    assert_eq!(world.chunks().len(), 256);
}

#[test]
fn staircase_climbs_along_x() {
    let chunk = staircase(ChunkPos::new(2, 3));
    assert_eq!(chunk.pos(), ChunkPos::new(2, 3));
    for x in 0..16 {
        for y in 0..16 {
            for z in 0..16 {
                let block = chunk.index_block(BlockPos::new(x, y, z)).unwrap().block();
                let expected = if y < x { Block::Dirt } else { Block::Air };
                assert_eq!(block, expected);
            }
        }
    }
}

#[test]
fn world_chunks_hold_staircases() {
    let mut world = World::new();
    world.scheduled_chunks();
    let chunk = &world.chunks()[100];
    assert_eq!(chunk.index_block(BlockPos::new(3, 2, 9)).unwrap().block(), Block::Dirt);
    assert_eq!(chunk.index_block(BlockPos::new(3, 3, 9)).unwrap().block(), Block::Air);
    assert_eq!(chunk.index_block(BlockPos::new(0, 0, 0)).unwrap().block(), Block::Air);
    assert_eq!(chunk.index_block(BlockPos::new(15, 14, 15)).unwrap().block(), Block::Dirt);
}

#[test]
fn placing_a_block_makes_the_chunk_dirty() {
    let mut world = World::new();
    world.scheduled_chunks();
    let pos = ChunkPos::new(-8, -7);
    assert_eq!(world.place_block(pos, BlockPos::new(0, 5, 0), Block::Id(4)), Some(()));
    assert_eq!(world.chunks().len(), 255);
    assert!(world.chunks().iter().all(|c| c.pos() != pos));
    let first = world.to_update_chunks();
    assert_eq!(first, 255);
    assert_eq!(world.chunks().len(), 256);
    let moved = &world.chunks()[255];
    assert_eq!(moved.pos(), pos);
    assert_eq!(moved.index_block(BlockPos::new(0, 5, 0)).unwrap().block(), Block::Id(4));
    assert_eq!(moved.index_block(BlockPos::new(1, 0, 0)).unwrap().block(), Block::Dirt);
}

#[test]
fn placing_a_block_nowhere_changes_nothing() {
    let mut world = World::new();
    assert_eq!(world.place_block(ChunkPos::new(0, 0), BlockPos::new(0, 0, 0), Block::Dirt), None);
    world.scheduled_chunks();
    assert_eq!(world.place_block(ChunkPos::new(8, 0), BlockPos::new(0, 0, 0), Block::Dirt), None);
    assert_eq!(world.place_block(ChunkPos::new(0, 0), BlockPos::new(16, 0, 0), Block::Dirt), None);
    assert_eq!(world.chunks().len(), 256);
    assert_eq!(world.to_update_chunks(), 256);
    assert_eq!(world.chunks().len(), 256);
}
