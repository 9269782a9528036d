use voxel_world::chunk::{Block, BlockPos, Chunk, ChunkPos, Face};
use voxel_world::mesh::{Mesh, MeshBuilder};
use voxel_world::voxel_mesh::VoxelMesh;

#[test]
fn quad_mesh() {
    let mut chunk: Chunk<2, 2> = Chunk::new(ChunkPos::new(0, 0));
    chunk.place_block(BlockPos::new(0, 0, 0), Block::Dirt).unwrap();

    let mut mesher = VoxelMesh::new();
    mesher.serialize_chunk(&chunk);

    assert_eq!(
        mesher.faces(),
        vec![
            Face::Front.code(),
            Face::Back.code(),
            Face::Up.code(),
            Face::Down.code(),
            Face::Left.code(),
            Face::Right.code(),
        ]
    );

    assert_eq!(mesher.mesh(), {
        let mut builder = MeshBuilder::new();
        builder.push(Face::Front.mesh(), BlockPos::new(0, 0, 0));
        builder.push(Face::Back.mesh(), BlockPos::new(0, 0, 0));
        builder.push(Face::Up.mesh(), BlockPos::new(0, 0, 0));
        builder.push(Face::Down.mesh(), BlockPos::new(0, 0, 0));
        builder.push(Face::Left.mesh(), BlockPos::new(0, 0, 0));
        builder.push(Face::Right.mesh(), BlockPos::new(0, 0, 0));
        builder.build()
    });
}

#[test]
fn single_dirt_block_in_a_small_chunk() {
    let mut chunk: Chunk<2, 2> = Chunk::new(ChunkPos::new(0, 0));
    chunk.place_block(BlockPos::new(0, 0, 0), Block::Dirt).unwrap();
    let mut mesher = VoxelMesh::new();
    mesher.serialize_chunk(&chunk);
    assert_eq!(mesher.faces().len(), 6);
    assert_eq!(mesher.positions(), vec![BlockPos::new(0, 0, 0); 6]);
    let mesh = mesher.mesh();
    assert_eq!(mesh.vertices().len(), 24);
    assert_eq!(mesh.indices().len(), 36);
    assert_eq!(mesh.indices_count(), 36);
}

#[test]
fn lone_block_in_the_middle_shows_six_faces() {
    let mut chunk: Chunk<3, 3> = Chunk::new(ChunkPos::new(0, 0));
    chunk.place_block(BlockPos::new(1, 1, 1), Block::Id(7)).unwrap();
    let mut mesher = VoxelMesh::new();
    mesher.serialize_chunk(&chunk);
    assert_eq!(mesher.faces(), vec![0, 1, 2, 3, 4, 5]);
    assert_eq!(mesher.positions(), vec![BlockPos::new(1, 1, 1); 6]);
}

#[test]
fn empty_chunk_shows_nothing() {
    let chunk: Chunk<4, 4> = Chunk::new(ChunkPos::new(0, 0));
    let mut mesher = VoxelMesh::new();
    mesher.serialize_chunk(&chunk);
    assert!(mesher.faces().is_empty());
    assert_eq!(mesher.mesh(), Mesh::new(vec![], vec![]));
}

#[test]
fn touching_blocks_hide_the_faces_between_them() {
    let mut chunk: Chunk<2, 2> = Chunk::new(ChunkPos::new(0, 0));
    chunk.place_block(BlockPos::new(0, 0, 0), Block::Dirt).unwrap();
    chunk.place_block(BlockPos::new(1, 0, 0), Block::Id(1)).unwrap();
    let mut mesher = VoxelMesh::new();
    mesher.serialize_chunk(&chunk);
    assert_eq!(
        mesher.faces(),
        vec![
            Face::Back.code(),
            Face::Up.code(),
            Face::Down.code(),
            Face::Left.code(),
            Face::Right.code(),
            Face::Front.code(),
            Face::Up.code(),
            Face::Down.code(),
            Face::Left.code(),
            Face::Right.code(),
        ]
    );
    let mut positions = vec![BlockPos::new(0, 0, 0); 5];
    positions.extend(vec![BlockPos::new(1, 0, 0); 5]);
    assert_eq!(mesher.positions(), positions);
}

#[test]
fn full_chunk_shows_its_shell() {
    let mut chunk: Chunk<3, 3> = Chunk::new(ChunkPos::new(0, 0));
    for x in 0..3 {
        for y in 0..3 {
            for z in 0..3 {
                chunk.place_block(BlockPos::new(x, y, z), Block::Dirt).unwrap();
            }
        }
    }
    let mut mesher = VoxelMesh::new();
    mesher.serialize_chunk(&chunk);
    assert_eq!(mesher.faces().len(), 54);
    assert!(!mesher.positions().contains(&BlockPos::new(1, 1, 1)));
}

#[test]
fn remeshing_an_unchanged_chunk_gives_the_same() {
    let mut chunk: Chunk<4, 4> = Chunk::new(ChunkPos::new(0, 0));
    chunk.place_block(BlockPos::new(0, 0, 0), Block::Dirt).unwrap();
    chunk.place_block(BlockPos::new(1, 0, 0), Block::Id(3)).unwrap();
    chunk.place_block(BlockPos::new(3, 2, 1), Block::Dirt).unwrap();
    let mut mesher = VoxelMesh::new();
    mesher.serialize_chunk(&chunk);
    let first = (mesher.faces(), mesher.positions(), mesher.mesh());
    mesher.serialize_chunk(&chunk);
    let second = (mesher.faces(), mesher.positions(), mesher.mesh());
    assert_eq!(first, second);
    let mut other = VoxelMesh::new();
    other.serialize_chunk(&chunk);
    assert_eq!((other.faces(), other.positions(), other.mesh()), first);
}

#[test]
fn serialize_replaces_what_was_there() {
    let mut full: Chunk<2, 2> = Chunk::new(ChunkPos::new(0, 0));
    full.place_block(BlockPos::new(1, 1, 1), Block::Dirt).unwrap();
    let empty: Chunk<2, 2> = Chunk::new(ChunkPos::new(0, 0));
    let mut mesher = VoxelMesh::new();
    mesher.serialize_chunk(&full);
    assert_eq!(mesher.faces().len(), 6);
    mesher.serialize_chunk(&empty);
    assert!(mesher.faces().is_empty());
}

#[test]
fn mesh_places_each_face_at_its_block() {
    let mut chunk: Chunk<4, 4> = Chunk::new(ChunkPos::new(0, 0));
    chunk.place_block(BlockPos::new(2, 3, 1), Block::Dirt).unwrap();
    let mut mesher = VoxelMesh::new();
    mesher.serialize_chunk(&chunk);
    let mesh = mesher.mesh();
    let front = &mesh.vertices()[0..4];
    for v in front {
        assert_eq!(v.position[0], 25);
    }
    assert_eq!(front[0].position, [25, 25, 15]);
    assert_eq!(&mesh.indices()[6..12], &[4, 5, 6, 4, 7, 5]);
}
