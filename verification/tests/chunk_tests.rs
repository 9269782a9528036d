use voxel_world::chunk::{Block, BlockPos, Chunk, ChunkPos, Face};

fn numbered_chunk() -> Chunk<2, 2> {
    let mut chunk: Chunk<2, 2> = Chunk::new(ChunkPos::new(0, 0));
    chunk.place_block(BlockPos::new(0, 0, 0), Block::Id(1)).unwrap();
    chunk.place_block(BlockPos::new(1, 0, 0), Block::Id(2)).unwrap();
    chunk.place_block(BlockPos::new(0, 0, 1), Block::Id(3)).unwrap();
    chunk.place_block(BlockPos::new(1, 0, 1), Block::Id(4)).unwrap();
    chunk.place_block(BlockPos::new(0, 1, 0), Block::Id(5)).unwrap();
    chunk.place_block(BlockPos::new(1, 1, 0), Block::Id(6)).unwrap();
    chunk.place_block(BlockPos::new(0, 1, 1), Block::Id(7)).unwrap();
    chunk.place_block(BlockPos::new(1, 1, 1), Block::Id(8)).unwrap();
    chunk
}

fn step(pos: BlockPos, face: Face) -> Option<BlockPos> {
    let BlockPos { x, y, z } = pos;
    match face {
        Face::Front => Some(BlockPos::new(x + 1, y, z)),
        Face::Back => x.checked_sub(1).map(|x| BlockPos::new(x, y, z)),
        Face::Up => Some(BlockPos::new(x, y + 1, z)),
        Face::Down => y.checked_sub(1).map(|y| BlockPos::new(x, y, z)),
        Face::Left => z.checked_sub(1).map(|z| BlockPos::new(x, y, z)),
        Face::Right => Some(BlockPos::new(x, y, z + 1)),
    }
}

fn opposite(face: Face) -> Face {
    match face {
        Face::Front => Face::Back,
        Face::Back => Face::Front,
        Face::Up => Face::Down,
        Face::Down => Face::Up,
        Face::Left => Face::Right,
        Face::Right => Face::Left,
    }
}

const ALL_FACES: [Face; 6] =
    [Face::Front, Face::Back, Face::Up, Face::Down, Face::Left, Face::Right];

#[test]
fn chunk_iteration_and_access() {
    let chunk = numbered_chunk();

    let b = chunk.index_block(BlockPos::new(0, 0, 0)).unwrap();
    assert_eq!(b.neighbor(Face::Front).map(|b| b.block()), Some(Block::Id(2)));
    assert_eq!(b.neighbor(Face::Right).map(|b| b.block()), Some(Block::Id(3)));
    assert_eq!(b.neighbor(Face::Back).map(|b| b.block()), None);
    assert_eq!(b.neighbor(Face::Left).map(|b| b.block()), None);
    assert_eq!(
        b.neighbor(Face::Right).and_then(|b| b.neighbor(Face::Up)).map(|b| b.block()),
        Some(Block::Id(7))
    );
}

#[test]
fn new_chunk_is_all_air() {
    let chunk: Chunk<3, 2> = Chunk::new(ChunkPos::new(4, -5));
    assert_eq!(chunk.pos(), ChunkPos::new(4, -5));
    let mut cells = chunk.iter();
    let mut count = 0;
    while let Some(cell) = cells.next() {
        assert_eq!(cell.block(), Block::Air);
        count += 1;
    }
    assert_eq!(count, 18);
}

#[test]
fn place_block_overwrites_the_cell() {
    let mut chunk: Chunk<2, 3> = Chunk::new(ChunkPos::new(0, 0));
    assert_eq!(chunk.place_block(BlockPos::new(1, 2, 1), Block::Dirt), Some(()));
    assert_eq!(chunk.index_block(BlockPos::new(1, 2, 1)).unwrap().block(), Block::Dirt);
    assert_eq!(chunk.place_block(BlockPos::new(1, 2, 1), Block::Id(9)), Some(()));
    assert_eq!(chunk.index_block(BlockPos::new(1, 2, 1)).unwrap().block(), Block::Id(9));
    assert_eq!(chunk.index_block(BlockPos::new(0, 2, 1)).unwrap().block(), Block::Air);
}

#[test]
fn place_block_out_of_range_changes_nothing() {
    let mut chunk: Chunk<2, 3> = Chunk::new(ChunkPos::new(0, 0));
    assert_eq!(chunk.place_block(BlockPos::new(2, 0, 0), Block::Dirt), None);
    assert_eq!(chunk.place_block(BlockPos::new(0, 3, 0), Block::Dirt), None);
    assert_eq!(chunk.place_block(BlockPos::new(0, 0, 2), Block::Dirt), None);
    assert_eq!(chunk.place_block(BlockPos::new(usize::MAX, 0, 0), Block::Dirt), None);
    let mut cells = chunk.iter();
    while let Some(cell) = cells.next() {
        assert_eq!(cell.block(), Block::Air);
    }
}

#[test]
fn index_block_outside_is_none() {
    let chunk = numbered_chunk();
    assert!(chunk.index_block(BlockPos::new(2, 0, 0)).is_none());
    assert!(chunk.index_block(BlockPos::new(0, 2, 0)).is_none());
    assert!(chunk.index_block(BlockPos::new(0, 0, 2)).is_none());
    let cell = chunk.index_block(BlockPos::new(1, 1, 0)).unwrap();
    assert_eq!(cell.pos(), BlockPos::new(1, 1, 0));
    assert_eq!(cell.block(), Block::Id(6));
}

#[test]
fn iteration_runs_by_layer_then_row_then_column() {
    let chunk = numbered_chunk();
    let mut seen = Vec::new();
    let mut cells = chunk.iter();
    while let Some(cell) = cells.next() {
        seen.push((cell.pos(), cell.block()));
    }
    assert_eq!(
        seen,
        vec![
            (BlockPos::new(0, 0, 0), Block::Id(1)),
            (BlockPos::new(1, 0, 0), Block::Id(2)),
            (BlockPos::new(0, 0, 1), Block::Id(3)),
            (BlockPos::new(1, 0, 1), Block::Id(4)),
            (BlockPos::new(0, 1, 0), Block::Id(5)),
            (BlockPos::new(1, 1, 0), Block::Id(6)),
            (BlockPos::new(0, 1, 1), Block::Id(7)),
            (BlockPos::new(1, 1, 1), Block::Id(8)),
        ]
    );
    assert!(cells.next().is_none());
    assert!(cells.next().is_none());
}

#[test]
fn iteration_starts_anew_with_each_call() {
    let chunk = numbered_chunk();
    let mut first = chunk.iter();
    first.next();
    first.next();
    let mut second = chunk.iter();
    assert_eq!(second.next().map(|c| c.pos()), Some(BlockPos::new(0, 0, 0)));
    assert_eq!(first.next().map(|c| c.pos()), Some(BlockPos::new(0, 0, 1)));
}

#[test]
fn iteration_of_a_chunk_without_cells_is_empty() {
    let flat: Chunk<4, 0> = Chunk::new(ChunkPos::new(0, 0));
    assert!(flat.iter().next().is_none());
    let thin: Chunk<0, 4> = Chunk::new(ChunkPos::new(0, 0));
    assert!(thin.iter().next().is_none());
    assert!(thin.index_block(BlockPos::new(0, 0, 0)).is_none());
}

#[test]
fn neighbors_see_each_other() {
    let chunk = numbered_chunk();
    let mut cells = chunk.iter();
    while let Some(cell) = cells.next() {
        for face in ALL_FACES {
            if let Some(neighbor) = cell.neighbor(face) {
                assert_eq!(Some(neighbor.pos()), step(cell.pos(), face));
                assert_eq!(
                    neighbor.block(),
                    chunk.index_block(neighbor.pos()).unwrap().block()
                );
                let back = neighbor.neighbor(opposite(face)).unwrap();
                assert_eq!(back.pos(), cell.pos());
                assert_eq!(back.block(), cell.block());
            }
        }
    }
}

#[test]
fn neighbor_across_the_edge_is_absent_not_air() {
    let chunk: Chunk<2, 2> = Chunk::new(ChunkPos::new(0, 0));
    let low = chunk.index_block(BlockPos::new(0, 0, 0)).unwrap();
    assert!(low.neighbor(Face::Back).is_none());
    assert!(low.neighbor(Face::Down).is_none());
    assert!(low.neighbor(Face::Left).is_none());
    assert_eq!(low.neighbor(Face::Front).map(|b| b.block()), Some(Block::Air));
    assert_eq!(low.neighbor(Face::Up).map(|b| b.block()), Some(Block::Air));
    assert_eq!(low.neighbor(Face::Right).map(|b| b.block()), Some(Block::Air));
    let high = chunk.index_block(BlockPos::new(1, 1, 1)).unwrap();
    assert!(high.neighbor(Face::Front).is_none());
    assert!(high.neighbor(Face::Up).is_none());
    assert!(high.neighbor(Face::Right).is_none());
    assert_eq!(high.neighbor(Face::Back).map(|b| b.pos()), Some(BlockPos::new(0, 1, 1)));
    assert_eq!(high.neighbor(Face::Down).map(|b| b.pos()), Some(BlockPos::new(1, 0, 1)));
    assert_eq!(high.neighbor(Face::Left).map(|b| b.pos()), Some(BlockPos::new(1, 1, 0)));
}

#[test]
fn face_codes_follow_the_enumeration() {
    let codes: Vec<u32> = ALL_FACES.iter().map(|f| f.code()).collect();
    assert_eq!(codes, vec![0, 1, 2, 3, 4, 5]);
}

#[test]
fn solid_is_everything_but_air() {
    assert!(!Block::Air.is_solid());
    assert!(Block::Dirt.is_solid());
    assert!(Block::Id(0).is_solid());
}

#[test]
fn block_colors() {
    assert_eq!(Block::Dirt.color(), [5, 5, 5]);
    assert_eq!(Block::Id(3).color(), [10, 1, 1]);
}

#[test]
fn translation_counts_blocks_from_the_origin() {
    let chunk: Chunk<16, 16> = Chunk::new(ChunkPos::new(3, -2));
    assert_eq!(chunk.translation(), (48, 0, -32));
    let small: Chunk<2, 7> = Chunk::new(ChunkPos::new(i32::MIN, i32::MAX));
    assert_eq!(small.translation(), (-4294967296, 0, 4294967294));
}
