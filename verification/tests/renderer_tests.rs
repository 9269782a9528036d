use voxel_world::chunk::{Block, BlockPos, Chunk, ChunkPos};
use voxel_world::renderer::{ChunkRenderer, ChunkState, ChunksRenderer, DrawCall, RenderError};

fn chunk_with_block(x: i32, z: i32) -> Chunk<4, 4> {
    let mut chunk: Chunk<4, 4> = Chunk::new(ChunkPos::new(x, z));
    chunk.place_block(BlockPos::new(1, 1, 1), Block::Dirt).unwrap();
    chunk
}

#[test]
fn load_registers_a_scheduled_chunk() {
    let mut registry = ChunksRenderer::new();
    let pos = ChunkPos::new(1, -1);
    assert_eq!(registry.state(pos), ChunkState::Unloaded);
    assert_eq!(registry.load_chunk(pos), Ok(()));
    assert_eq!(registry.state(pos), ChunkState::Scheduled);
    assert!(registry.model(pos).is_none());
    assert!(registry.render().is_empty());
}

#[test]
fn load_twice_fails_and_keeps_the_entry() {
    let mut registry = ChunksRenderer::new();
    let chunk = chunk_with_block(0, 0);
    assert_eq!(registry.load_chunk(chunk.pos()), Ok(()));
    assert_eq!(registry.update_chunk(&chunk), Ok(()));
    assert_eq!(registry.load_chunk(chunk.pos()), Err(RenderError::AlreadyLoaded));
    assert_eq!(registry.state(chunk.pos()), ChunkState::Loaded);
    assert_eq!(registry.render().len(), 1);
}

#[test]
fn unload_removes_the_entry() {
    let mut registry = ChunksRenderer::new();
    let pos = ChunkPos::new(3, 3);
    assert_eq!(registry.unload_chunk(pos), Err(RenderError::NotFound));
    registry.load_chunk(pos).unwrap();
    registry.load_chunk(ChunkPos::new(4, 3)).unwrap();
    assert_eq!(registry.unload_chunk(pos), Ok(()));
    assert_eq!(registry.state(pos), ChunkState::Unloaded);
    assert_eq!(registry.state(ChunkPos::new(4, 3)), ChunkState::Scheduled);
    assert_eq!(registry.unload_chunk(pos), Err(RenderError::NotFound));
    assert_eq!(registry.load_chunk(pos), Ok(()));
}

#[test]
fn update_needs_an_entry() {
    let mut registry = ChunksRenderer::new();
    let chunk = chunk_with_block(0, 0);
    assert_eq!(registry.update_chunk(&chunk), Err(RenderError::NotFound));
    assert_eq!(registry.state(chunk.pos()), ChunkState::Unloaded);
    assert_eq!(registry.prepare_chunk(&chunk), Err(RenderError::NotFound));
    assert_eq!(registry.mark_dirty(chunk.pos()), Err(RenderError::NotFound));
}

#[test]
fn chunk_goes_from_scheduled_to_loaded_to_dirty_and_back() {
    let mut registry = ChunksRenderer::new();
    let mut chunk = chunk_with_block(2, 5);
    let pos = chunk.pos();
    registry.load_chunk(pos).unwrap();
    assert_eq!(registry.mark_dirty(pos), Ok(()));
    assert_eq!(registry.state(pos), ChunkState::Scheduled);
    assert_eq!(registry.update_chunk(&chunk), Ok(()));
    assert_eq!(registry.state(pos), ChunkState::Loaded);
    assert_eq!(registry.model(pos).unwrap().indices_count(), 36);
    assert_eq!(registry.render(), vec![DrawCall { pos, index_count: 36 }]);

    chunk.place_block(BlockPos::new(1, 1, 2), Block::Id(1)).unwrap();
    assert_eq!(registry.mark_dirty(pos), Ok(()));
    assert_eq!(registry.state(pos), ChunkState::Dirty);
    assert!(registry.render().is_empty());
    assert_eq!(registry.model(pos).unwrap().indices_count(), 36);

    assert_eq!(registry.update_chunk(&chunk), Ok(()));
    assert_eq!(registry.state(pos), ChunkState::Loaded);
    assert_eq!(registry.render(), vec![DrawCall { pos, index_count: 60 }]);

    assert_eq!(registry.unload_chunk(pos), Ok(()));
    assert_eq!(registry.state(pos), ChunkState::Unloaded);
    assert!(registry.render().is_empty());
}

#[test]
fn draw_calls_follow_the_order_of_loading() {
    let mut registry = ChunksRenderer::new();
    let a = chunk_with_block(5, 0);
    let b = chunk_with_block(-3, 2);
    let c: Chunk<4, 4> = Chunk::new(ChunkPos::new(0, 0));
    for chunk in [&a, &b, &c] {
        registry.load_chunk(chunk.pos()).unwrap();
    }
    registry.load_chunk(ChunkPos::new(7, 7)).unwrap();
    for chunk in [&c, &b, &a] {
        registry.update_chunk(chunk).unwrap();
    }
    assert_eq!(
        registry.render(),
        vec![
            DrawCall { pos: a.pos(), index_count: 36 },
            DrawCall { pos: b.pos(), index_count: 36 },
            DrawCall { pos: c.pos(), index_count: 0 },
        ]
    );
    registry.unload_chunk(b.pos()).unwrap();
    assert_eq!(
        registry.render(),
        vec![
            DrawCall { pos: a.pos(), index_count: 36 },
            DrawCall { pos: c.pos(), index_count: 0 },
        ]
    );
}

#[test]
fn prepare_chunk_gives_translation_and_faces() {
    let mut registry = ChunksRenderer::new();
    let chunk = chunk_with_block(2, -3);
    registry.load_chunk(chunk.pos()).unwrap();
    let before = registry.prepare_chunk(&chunk).unwrap();
    assert_eq!(before.translation, (8, 0, -12));
    assert!(before.faces.is_empty());
    registry.update_chunk(&chunk).unwrap();
    let after = registry.prepare_chunk(&chunk).unwrap();
    assert_eq!(after.translation, (8, 0, -12));
    assert_eq!(after.faces, vec![0, 1, 2, 3, 4, 5]);
}

#[test]
fn prepare_frame_loads_scheduled_then_updates_dirty() {
    let mut registry = ChunksRenderer::new();
    let old = chunk_with_block(0, 0);
    registry.load_chunk(old.pos()).unwrap();
    registry.update_chunk(&old).unwrap();

    let mut changed = chunk_with_block(0, 0);
    changed.place_block(BlockPos::new(3, 3, 3), Block::Dirt).unwrap();
    let scheduled = vec![chunk_with_block(1, 0), chunk_with_block(0, 0), chunk_with_block(2, 0)];
    let dirty = vec![changed, chunk_with_block(9, 9), chunk_with_block(2, 0)];

    let outcomes = registry.prepare_frame(&dirty, &scheduled);
    assert_eq!(
        outcomes,
        vec![
            Ok(()),
            Err(RenderError::AlreadyLoaded),
            Ok(()),
            Ok(()),
            Err(RenderError::NotFound),
            Ok(()),
        ]
    );
    assert_eq!(
        registry.render(),
        vec![
            DrawCall { pos: ChunkPos::new(0, 0), index_count: 72 },
            DrawCall { pos: ChunkPos::new(1, 0), index_count: 36 },
            DrawCall { pos: ChunkPos::new(2, 0), index_count: 36 },
        ]
    );
    assert_eq!(registry.state(ChunkPos::new(9, 9)), ChunkState::Unloaded);
}

#[test]
fn prepare_frame_with_nothing_to_do() {
    let mut registry = ChunksRenderer::new();
    let none: Vec<Chunk<4, 4>> = Vec::new();
    assert!(registry.prepare_frame(&none, &none).is_empty());
    assert!(registry.render().is_empty());
}

#[test]
fn single_renderer() {
    let chunk = chunk_with_block(1, 1);
    let mut renderer = ChunkRenderer::new(chunk.pos());
    assert_eq!(renderer.pos(), chunk.pos());
    assert_eq!(renderer.state(), ChunkState::Scheduled);
    assert_eq!(renderer.render(), None);
    assert!(renderer.model().is_none());
    assert_eq!(renderer.update_model(&chunk), Ok(()));
    assert_eq!(renderer.state(), ChunkState::Loaded);
    assert_eq!(renderer.render(), Some(36));
    assert_eq!(renderer.faces(), vec![0, 1, 2, 3, 4, 5]);
    assert_eq!(renderer.model().unwrap().vertices().len(), 24);
    renderer.mark_dirty();
    assert_eq!(renderer.state(), ChunkState::Dirty);
    assert_eq!(renderer.render(), None);
}

#[test]
fn error_messages() {
    assert_eq!(RenderError::AlreadyLoaded.message(), "chunk already loaded");
    assert_eq!(RenderError::NotFound.message(), "ChunkRenderer not found");
    assert_eq!(
        RenderError::TooManyFaces.message(),
        "chunk shows too many faces for one mesh"
    );
}

#[test]
fn world_chunk_is_always_meshed() {
    let mut chunk: Chunk<16, 16> = Chunk::new(ChunkPos::new(0, 0));
    for x in 0..16 {
        for y in 0..16 {
            for z in 0..16 {
                if (x + y + z) % 2 == 0 {
                    chunk.place_block(BlockPos::new(x, y, z), Block::Dirt).unwrap();
                }
            }
        }
    }
    let mut registry = ChunksRenderer::new();
    registry.load_chunk(chunk.pos()).unwrap();
    assert_eq!(registry.update_chunk(&chunk), Ok(()));
    assert_eq!(registry.state(chunk.pos()), ChunkState::Loaded);
    assert_eq!(
        registry.render(),
        vec![DrawCall { pos: chunk.pos(), index_count: 6 * 6 * 2048 }]
    );
}

#[test]
fn whole_world_is_prepared_in_one_frame() {
    let mut world = voxel_world::world::World::new();
    let first = world.scheduled_chunks();
    let mut registry = ChunksRenderer::new();
    let outcomes = registry.prepare_frame(&[], &world.chunks()[first..]);
    assert_eq!(outcomes, vec![Ok(()); 256]);
    assert_eq!(registry.render().len(), 256);
    assert_eq!(registry.render()[0].pos, ChunkPos::new(-8, -8));
}
