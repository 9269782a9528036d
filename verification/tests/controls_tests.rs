use voxel_world::chunk::{Block, BlockPos, Chunk, ChunkPos};
use voxel_world::controls::{Key, MoveKeys};

#[test]
fn keys_set_and_clear_their_direction() {
    let mut keys = MoveKeys::new();
    assert!(keys.process_key(Key::W, true));
    assert!(keys.forward);
    assert!(keys.process_key(Key::W, false));
    assert!(!keys.forward);
    assert!(keys.process_key(Key::S, true));
    assert!(keys.process_key(Key::A, true));
    assert!(keys.process_key(Key::D, true));
    assert!(keys.backward && keys.left && keys.right);
    assert!(!keys.up && !keys.down && !keys.grab_mouse);
}

#[test]
fn two_keys_each_move_up_and_down() {
    let mut keys = MoveKeys::new();
    keys.process_key(Key::Q, true);
    assert!(keys.up);
    keys.process_key(Key::Space, false);
    assert!(!keys.up);
    keys.process_key(Key::LShift, true);
    assert!(keys.down);
    keys.process_key(Key::E, false);
    assert!(!keys.down);
}

#[test]
fn pressing_l_toggles_the_mouse() {
    let mut keys = MoveKeys::new();
    assert!(keys.process_key(Key::L, true));
    assert!(keys.grab_mouse);
    assert!(keys.process_key(Key::L, false));
    assert!(keys.grab_mouse);
    assert!(keys.process_key(Key::L, true));
    assert!(!keys.grab_mouse);
}

#[test]
fn other_keys_change_nothing() {
    let mut keys = MoveKeys::new();
    keys.process_key(Key::W, true);
    let before = keys;
    assert!(!keys.process_key(Key::Other, true));
    assert!(!keys.process_key(Key::Other, false));
    assert_eq!(keys, before);
}

#[test]
fn a_cell_can_be_read_as_its_block() {
    let mut chunk: Chunk<2, 2> = Chunk::new(ChunkPos::new(0, 0));
    chunk.place_block(BlockPos::new(1, 0, 1), Block::Id(4)).unwrap();
    let cell = chunk.index_block(BlockPos::new(1, 0, 1)).unwrap();
    assert_eq!(*cell, Block::Id(4));
    assert!(*chunk.index_block(BlockPos::new(0, 0, 0)).unwrap() == Block::Air);
}
