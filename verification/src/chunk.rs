//! Blocks, faces, positions and the dense chunk grid.

use vstd::prelude::*;
use vstd::arithmetic::div_mod::{
    lemma_div_denominator, lemma_div_pos_is_pos, lemma_fundamental_div_mod,
    lemma_fundamental_div_mod_converse, lemma_mod_bound, lemma_multiply_divide_lt,
};

verus! {

/// One of the six sides of a unit block.
///
/// `Front`/`Back` look along x, `Up`/`Down` along y and `Right`/`Left` along z.
#[derive(Debug, Clone, Copy, PartialEq, Eq, Hash, Structural)]
pub enum Face {
    Front,
    Back,
    Up,
    Down,
    Left,
    Right,
}

impl Face {
    /// Place of the face in the enumeration order Front, Back, Up, Down, Left, Right.
    pub open spec fn ordinal(self) -> int {
        match self {
            Face::Front => 0,
            Face::Back => 1,
            Face::Up => 2,
            Face::Down => 3,
            Face::Left => 4,
            Face::Right => 5,
        }
    }

    /// The face with the given place in the enumeration order.
    pub open spec fn from_ordinal(i: int) -> Face {
        if i == 0 {
            Face::Front
        } else if i == 1 {
            Face::Back
        } else if i == 2 {
            Face::Up
        } else if i == 3 {
            Face::Down
        } else if i == 4 {
            Face::Left
        } else {
            Face::Right
        }
    }

    /// The face on the other side of the block.
    pub open spec fn opposite(self) -> Face {
        match self {
            Face::Front => Face::Back,
            Face::Back => Face::Front,
            Face::Up => Face::Down,
            Face::Down => Face::Up,
            Face::Left => Face::Right,
            Face::Right => Face::Left,
        }
    }

    /// The unit step, as (dx, dy, dz), that leaves a block through this face.
    pub open spec fn offset(self) -> (int, int, int) {
        match self {
            Face::Front => (1, 0, 0),
            Face::Back => (-1, 0, 0),
            Face::Up => (0, 1, 0),
            Face::Down => (0, -1, 0),
            Face::Left => (0, 0, -1),
            Face::Right => (0, 0, 1),
        }
    }

    /// The number under which the face is handed to a shader.
    pub fn code(&self) -> (c: u32)
        ensures
            c == self.ordinal(),
    {
        match self {
            Face::Front => 0,
            Face::Back => 1,
            Face::Up => 2,
            Face::Down => 3,
            Face::Left => 4,
            Face::Right => 5,
        }
    }
}

/// Position of a block inside a chunk.
#[derive(Debug, Clone, Copy, PartialEq, Eq, Hash, Structural)]
pub struct BlockPos {
    pub x: usize,
    pub y: usize,
    pub z: usize,
}

impl BlockPos {
    /// The position (x, y, z).
    pub fn new(x: usize, y: usize, z: usize) -> (pos: Self)
        ensures
            pos == (BlockPos { x, y, z }),
    {
        Self { x, y, z }
    }

    /// The position one step through `face`, unless a coordinate would leave
    /// the unsigned range.
    pub open spec fn step(self, face: Face) -> Option<BlockPos> {
        let (dx, dy, dz) = face.offset();
        let (x, y, z) = (self.x + dx, self.y + dy, self.z + dz);
        if 0 <= x <= usize::MAX && 0 <= y <= usize::MAX && 0 <= z <= usize::MAX {
            Some(BlockPos { x: x as usize, y: y as usize, z: z as usize })
        } else {
            None
        }
    }
}

/// Position of a chunk in the world grid, counted in chunks.
#[derive(Debug, Clone, Copy, PartialEq, Eq, Hash, Structural)]
pub struct ChunkPos {
    pub x: i32,
    pub z: i32,
}

impl ChunkPos {
    /// The place (x, z).
    pub fn new(x: i32, z: i32) -> (pos: Self)
        ensures
            pos == (ChunkPos { x, z }),
    {
        Self { x, z }
    }
}

/// Content of one cell. Everything but `Air` is solid.
#[derive(Debug, Clone, Copy, PartialEq, Eq, Hash, Structural)]
pub enum Block {
    Air,
    Dirt,
    Id(u8),
}

impl Block {
    /// Whether the block is anything but air.
    pub open spec fn solid(&self) -> bool {
        *self != Block::Air
    }

    /// The colour of a solid block, as (red, green, blue) in tenths of full
    /// strength. Air has no colour.
    pub fn color(&self) -> (rgb: [i64; 3])
        requires
            self.solid(),
        ensures
            *self == Block::Dirt ==> rgb@ == seq![5i64, 5, 5],
            *self != Block::Dirt ==> rgb@ == seq![10i64, 1, 1],
    {
        let rgb: [i64; 3] = match self {
            Block::Dirt => [5, 5, 5],
            _ => [10, 1, 1],
        };
        proof {
            broadcast use vstd::array::group_array_axioms;

            if *self == Block::Dirt {
                assert(rgb@ =~= seq![5i64, 5, 5]);
            } else {
                assert(rgb@ =~= seq![10i64, 1, 1]);
            }
        }
        rgb
    }

    /// Whether the block is anything but air.
    #[verifier::when_used_as_spec(solid)]
    pub fn is_solid(&self) -> (s: bool)
        ensures
            s == self.solid(),
    {
        match self {
            Block::Air => false,
            _ => true,
        }
    }
}

/// A grid of `L` x `L` columns of `H` blocks, at a place in the world.
///
/// Every cell always holds a block; an empty cell holds `Block::Air`.
#[derive(Debug)]
pub struct Chunk<const L: usize, const H: usize> {
    pos: ChunkPos,
    blocks: [[[Block; L]; L]; H],
}

/// What a chunk holds, cell by cell: layer after layer (y), row after row (z),
/// and along each row (x).
impl<const L: usize, const H: usize> View for Chunk<L, H> {
    type V = Seq<Block>;

    closed spec fn view(&self) -> Seq<Block> {
        Seq::new(
            Self::cell_count(),
            |i: int| self.blocks[i / (L * L)][(i / (L as int)) % (L as int)][i % (L as int)],
        )
    }
}

impl<const L: usize, const H: usize> Chunk<L, H> {
    /// Number of cells of a chunk.
    pub open spec fn cell_count() -> nat {
        (L * L * H) as nat
    }

    /// Whether `pos` lies inside a chunk.
    pub open spec fn in_bounds(pos: BlockPos) -> bool {
        pos.x < L && pos.y < H && pos.z < L
    }

    /// Place of a cell in the view.
    pub open spec fn cell_index(pos: BlockPos) -> int {
        (pos.y * L + pos.z) * L + pos.x
    }

    /// The cell at a place of the view.
    pub open spec fn index_pos(i: int) -> BlockPos {
        BlockPos {
            x: (i % (L as int)) as usize,
            y: (i / (L * L)) as usize,
            z: ((i / (L as int)) % (L as int)) as usize,
        }
    }

    /// The block in the cell at `pos`, for a position inside the chunk.
    pub open spec fn block_at(&self, pos: BlockPos) -> Block
        recommends
            Self::in_bounds(pos),
    {
        self@[Self::cell_index(pos)]
    }

    /// Where the neighbour of `pos` through `face` lies, if that is inside the chunk.
    pub open spec fn neighbor_pos(pos: BlockPos, face: Face) -> Option<BlockPos> {
        match pos.step(face) {
            Some(q) => if Self::in_bounds(q) {
                Some(q)
            } else {
                None
            },
            None => None,
        }
    }

    /// The block next to `pos` through `face`, or `None` where that cell lies
    /// outside the chunk.
    pub open spec fn neighbor_of(&self, pos: BlockPos, face: Face) -> Option<Block> {
        match Self::neighbor_pos(pos, face) {
            Some(q) => Some(self.block_at(q)),
            None => None,
        }
    }

    /// Where the chunk lies in the world grid.
    pub closed spec fn spec_pos(&self) -> ChunkPos {
        self.pos
    }

    /// A position inside the chunk has a place in the view, and that place
    /// leads back to the position.
    pub proof fn lemma_cell_index(pos: BlockPos)
        requires
            Self::in_bounds(pos),
        ensures
            0 <= Self::cell_index(pos) < Self::cell_count(),
            Self::index_pos(Self::cell_index(pos)) == pos,
            Self::cell_index(pos) % (L as int) == pos.x,
            Self::cell_index(pos) / (L * L) == pos.y,
            (Self::cell_index(pos) / (L as int)) % (L as int) == pos.z,
    {
        let l = L as int;
        let (x, y, z) = (pos.x as int, pos.y as int, pos.z as int);
        let i = Self::cell_index(pos);
        assert(0 <= y * l && y * l + l <= H * l) by (nonlinear_arith)
            requires
                0 <= y < H,
                0 < l,
        ;
        assert(0 <= (y * l + z) * l && (y * l + z) * l + l <= (H * l) * l) by (nonlinear_arith)
            requires
                0 <= y * l + z < H * l,
                0 < l,
        ;
        assert((H * l) * l == l * l * H) by (nonlinear_arith);
        assert(y * (l * l) + (z * l + x) == i) by (nonlinear_arith)
            requires
                i == (y * l + z) * l + x,
        ;
        assert(0 <= z * l + x < l * l) by (nonlinear_arith)
            requires
                0 <= z < l,
                0 <= x < l,
        ;
        lemma_fundamental_div_mod_converse(i, l, y * l + z, x);
        lemma_fundamental_div_mod_converse(y * l + z, l, y, z);
        lemma_fundamental_div_mod_converse(i, l * l, y, z * l + x);
    }

    /// A place of the view belongs to a position inside the chunk, and that
    /// position leads back to the place.
    pub proof fn lemma_index_pos(i: int)
        requires
            0 <= i < Self::cell_count(),
        ensures
            Self::in_bounds(Self::index_pos(i)),
            Self::cell_index(Self::index_pos(i)) == i,
            Self::index_pos(i).x == i % (L as int),
            Self::index_pos(i).y == i / (L * L),
            Self::index_pos(i).z == (i / (L as int)) % (L as int),
    {
        let l = L as int;
        assert(l > 0) by (nonlinear_arith)
            requires
                0 <= i < l * l * H,
                l >= 0,
        ;
        assert(l * l > 0) by (nonlinear_arith)
            requires
                l > 0,
        ;
        assert(i < (l * l) * H) by (nonlinear_arith)
            requires
                i < l * l * H,
        ;
        lemma_multiply_divide_lt(i, l * l, H as int);
        lemma_div_pos_is_pos(i, l * l);
        lemma_div_pos_is_pos(i, l);
        lemma_mod_bound(i, l);
        lemma_mod_bound(i / l, l);
        lemma_div_denominator(i, l, l);
        lemma_fundamental_div_mod(i, l);
        lemma_fundamental_div_mod(i / l, l);
        let (q, r) = (i / l, i % l);
        let (y, z) = (q / l, q % l);
        assert((y * l + z) * l + r == i) by (nonlinear_arith)
            requires
                i == l * q + r,
                q == l * y + z,
        ;
    }

    /// A chunk at `pos` whose cells all hold `Block::Air`.
    pub fn new(pos: ChunkPos) -> (chunk: Self)
        ensures
            chunk.spec_pos() == pos,
            chunk@ == Seq::new(Self::cell_count(), |i: int| Block::Air),
    {
        let chunk = Self { pos, blocks: [[[Block::Air;L];L];H] };
        proof {
            broadcast use vstd::array::group_array_axioms;

            assert forall|i: int| 0 <= i < Self::cell_count() implies chunk@[i] == Block::Air by {
                Self::lemma_index_pos(i);
                let p = Self::index_pos(i);
                assert(chunk.blocks[p.y as int][p.z as int][p.x as int] == Block::Air);
            }
            assert(chunk@ =~= Seq::new(Self::cell_count(), |i: int| Block::Air));
        }
        chunk
    }

    /// Where the chunk lies in the world grid.
    #[verifier::when_used_as_spec(spec_pos)]
    pub fn pos(&self) -> (pos: ChunkPos)
        ensures
            pos == self.spec_pos(),
    {
        self.pos
    }

    /// Puts `block` into the cell at `block_pos`. A position outside the chunk
    /// changes nothing and returns `None`.
    pub fn place_block(&mut self, block_pos: BlockPos, block: Block) -> (placed: Option<()>)
        ensures
            final(self).spec_pos() == old(self).spec_pos(),
            Self::in_bounds(block_pos) ==> placed is Some && final(self)@ == old(self)@.update(
                Self::cell_index(block_pos),
                block,
            ),
            !Self::in_bounds(block_pos) ==> placed is None && *final(self) == *old(self),
    {
        let BlockPos { x, y, z } = block_pos;
        if x < L && y < H && z < L {
            self.blocks[y][z][x] = block;
            proof {
                broadcast use vstd::array::group_array_axioms;

                Self::lemma_cell_index(block_pos);
                let updated = old(self)@.update(Self::cell_index(block_pos), block);
                assert forall|i: int| 0 <= i < Self::cell_count() implies self@[i] == updated[i] by {
                    Self::lemma_index_pos(i);
                    let p = Self::index_pos(i);
                    if p != block_pos {
                        assert(self.blocks[p.y as int][p.z as int][p.x as int] == old(self).blocks[p.y as int][p.z as int][p.x as int]);
                    }
                }
                assert(self@ =~= updated);
            }
            Some(())
        } else {
            None
        }
    }

    /// The cell at `block_pos`, or `None` for a position outside the chunk.
    pub fn index_block<'a>(&'a self, block_pos: BlockPos) -> (cell: Option<BlockRef<'a, L, H>>)
        ensures
            Self::in_bounds(block_pos) <==> cell is Some,
            cell matches Some(b) ==> b.chunk() == self && b.pos() == block_pos && b.block()
                == self.block_at(block_pos),
    {
        let BlockPos { x, y, z } = block_pos;
        if x < L && y < H && z < L {
            proof {
                broadcast use vstd::array::group_array_axioms;

                Self::lemma_cell_index(block_pos);
            }
            Some(BlockRef { chunk_ref: self, block_ref: &self.blocks[y][z][x], block_pos })
        } else {
            None
        }
    }

    /// A pass over every cell of the chunk: layer after layer (y), row after
    /// row (z), and along each row (x). Each call starts a pass of its own.
    pub fn iter<'a>(&'a self) -> (cells: ChunkIter<'a, L, H>)
        ensures
            cells.chunk() == self,
            cells.index() == 0,
            cells.index() <= Self::cell_count(),
    {
        proof {
            if !Self::in_bounds(BlockPos { x: 0, y: 0, z: 0 }) {
                assert(L * L * H == 0) by (nonlinear_arith)
                    requires
                        L == 0 || H == 0,
                ;
            }
        }
        ChunkIter { chunk: self, block_pos: BlockPos::new(0, 0, 0) }
    }

    /// Where the chunk's cell (0, 0, 0) lies in the world, in blocks, as (x, y, z).
    pub fn translation(&self) -> (t: (i128, i128, i128))
        ensures
            t.0 == self.spec_pos().x * L,
            t.1 == 0,
            t.2 == self.spec_pos().z * L,
    {
        let side = L as i128;
        let (x, z) = (self.pos.x as i128, self.pos.z as i128);
        assert(-0x8000_0000 * 0x1_0000_0000_0000_0000 <= x * side <= 0x8000_0000 * 0x1_0000_0000_0000_0000)
            by (nonlinear_arith)
            requires
                -0x8000_0000 <= x <= 0x8000_0000,
                0 <= side <= 0x1_0000_0000_0000_0000,
        ;
        assert(-0x8000_0000 * 0x1_0000_0000_0000_0000 <= z * side <= 0x8000_0000 * 0x1_0000_0000_0000_0000)
            by (nonlinear_arith)
            requires
                -0x8000_0000 <= z <= 0x8000_0000,
                0 <= side <= 0x1_0000_0000_0000_0000,
        ;
        (x * side, 0, z * side)
    }

    /// Whether `pos` lies in the outermost layer of the chunk on the side of `face`.
    pub open spec fn at_edge(pos: BlockPos, face: Face) -> bool {
        match face {
            Face::Front => pos.x + 1 == L,
            Face::Back => pos.x == 0,
            Face::Up => pos.y + 1 == H,
            Face::Down => pos.y == 0,
            Face::Left => pos.z == 0,
            Face::Right => pos.z + 1 == L,
        }
    }

    /// Two cells of the chunk that touch see each other: the neighbour of
    /// `pos` through `face` is the block at the cell `q` one step away, and
    /// the neighbour of `q` through the opposite face is the block at `pos`.
    pub proof fn lemma_neighbor_symmetry(&self, pos: BlockPos, face: Face)
        requires
            Self::in_bounds(pos),
            Self::neighbor_pos(pos, face) is Some,
        ensures
            ({
                let q = Self::neighbor_pos(pos, face).unwrap();
                &&& Self::in_bounds(q)
                &&& self.neighbor_of(pos, face) == Some(self.block_at(q))
                &&& Self::neighbor_pos(q, face.opposite()) == Some(pos)
                &&& self.neighbor_of(q, face.opposite()) == Some(self.block_at(pos))
            }),
    {
    }

    /// Looking out of the chunk finds nothing: at the edge of the chunk the
    /// neighbour through the outward face is `None`, which is not the same
    /// as finding `Block::Air`.
    pub proof fn lemma_boundary_absent(&self, pos: BlockPos, face: Face)
        requires
            Self::in_bounds(pos),
            Self::at_edge(pos, face),
        ensures
            self.neighbor_of(pos, face) is None,
            self.neighbor_of(pos, face) != Some(Block::Air),
    {
    }

    /// Inside the chunk and away from its edge there always is a neighbour.
    pub proof fn lemma_interior_present(&self, pos: BlockPos, face: Face)
        requires
            Self::in_bounds(pos),
            !Self::at_edge(pos, face),
        ensures
            self.neighbor_of(pos, face) is Some,
    {
    }
}

/// A cell of a chunk: the block it holds, where it lies, and the chunk around it.
pub struct BlockRef<'a, const L: usize, const H: usize> {
    chunk_ref: &'a Chunk<L, H>,
    block_ref: &'a Block,
    block_pos: BlockPos,
}

impl<'a, const L: usize, const H: usize> BlockRef<'a, L, H> {
    #[verifier::type_invariant]
    spec fn inv(&self) -> bool {
        &&& Chunk::<L, H>::in_bounds(self.block_pos)
        &&& *self.block_ref == self.chunk_ref.block_at(self.block_pos)
    }

    /// The chunk that the cell belongs to.
    pub closed spec fn chunk(&self) -> &Chunk<L, H> {
        self.chunk_ref
    }

    /// Where the cell lies in its chunk.
    pub closed spec fn spec_pos(&self) -> BlockPos {
        self.block_pos
    }

    /// The block that the cell holds.
    pub closed spec fn spec_block(&self) -> Block {
        *self.block_ref
    }

    /// Where the cell lies in its chunk.
    #[verifier::when_used_as_spec(spec_pos)]
    pub fn pos(&self) -> (pos: BlockPos)
        ensures
            pos == self.spec_pos(),
            Chunk::<L, H>::in_bounds(pos),
    {
        proof {
            use_type_invariant(self);
        }
        self.block_pos
    }

    /// The block that the cell holds.
    #[verifier::when_used_as_spec(spec_block)]
    pub fn block(&self) -> (block: Block)
        ensures
            block == self.spec_block(),
            block == self.chunk().block_at(self.spec_pos()),
    {
        proof {
            use_type_invariant(self);
        }
        *self.block_ref
    }

    /// The cell next to this one through `face`, or `None` where the chunk
    /// ends there.
    pub fn neighbor(&self, face: Face) -> (cell: Option<BlockRef<'a, L, H>>)
        ensures
            match Chunk::<L, H>::neighbor_pos(self.pos(), face) {
                Some(q) => cell matches Some(n) && n.chunk() == self.chunk() && n.pos() == q
                    && n.block() == self.chunk().block_at(q),
                None => cell is None,
            },
            cell is Some <==> self.chunk().neighbor_of(self.pos(), face) is Some,
            cell matches Some(n) ==> self.chunk().neighbor_of(self.pos(), face) == Some(n.block()),
    {
        proof {
            use_type_invariant(self);
        }
        let BlockPos { x, y, z } = self.block_pos;
        match face {
            Face::Front => self.chunk_ref.index_block(BlockPos::new(x + 1, y, z)),
            Face::Back => self.chunk_ref.index_block(BlockPos::new(x.checked_sub(1)?, y, z)),
            Face::Up => self.chunk_ref.index_block(BlockPos::new(x, y + 1, z)),
            Face::Down => self.chunk_ref.index_block(BlockPos::new(x, y.checked_sub(1)?, z)),
            Face::Left => self.chunk_ref.index_block(BlockPos::new(x, y, z.checked_sub(1)?)),
            Face::Right => self.chunk_ref.index_block(BlockPos::new(x, y, z + 1)),
        }
    }
}

/// A cell can be read as the block that it holds.
impl<'a, const L: usize, const H: usize> core::ops::Deref for BlockRef<'a, L, H> {
    type Target = Block;

    fn deref(&self) -> (block: &Block)
        ensures
            *block == self.spec_block(),
    {
        self.block_ref
    }
}

/// The state of one pass over the cells of a chunk.
pub struct ChunkIter<'a, const L: usize, const H: usize> {
    chunk: &'a Chunk<L, H>,
    block_pos: BlockPos,
}

impl<'a, const L: usize, const H: usize> ChunkIter<'a, L, H> {
    /// The chunk that the pass goes over.
    pub closed spec fn chunk(&self) -> &Chunk<L, H> {
        self.chunk
    }

    /// How many cells the pass has handed out; the next one is the cell at
    /// this place of the chunk's view.
    pub closed spec fn index(&self) -> nat {
        if Chunk::<L, H>::in_bounds(self.block_pos) {
            Chunk::<L, H>::cell_index(self.block_pos) as nat
        } else {
            Chunk::<L, H>::cell_count()
        }
    }

    /// Moves from a cell of the chunk to the one after it.
    fn advance_index(&mut self)
        requires
            Chunk::<L, H>::in_bounds(old(self).block_pos),
        ensures
            final(self).chunk == old(self).chunk,
            final(self).index() == old(self).index() + 1,
    {
        let BlockPos { x, y, z } = self.block_pos;
        proof {
            Chunk::<L, H>::lemma_cell_index(self.block_pos);
        }
        if x + 1 < L {
            self.block_pos.x = x + 1;
        } else {
            self.block_pos.x = 0;
            if z + 1 < L {
                self.block_pos.z = z + 1;
                assert((y * L + (z + 1)) * L + 0 == (y * L + z) * L + x + 1) by (nonlinear_arith)
                    requires
                        x + 1 == L,
                ;
            } else {
                self.block_pos.z = 0;
                self.block_pos.y = y + 1;
                assert(((y + 1) * L + 0) * L + 0 == (y * L + z) * L + x + 1) by (nonlinear_arith)
                    requires
                        x + 1 == L,
                        z + 1 == L,
                ;
                if y + 1 == H {
                    assert(((y + 1) * L + 0) * L + 0 == L * L * H) by (nonlinear_arith)
                        requires
                            y + 1 == H,
                    ;
                }
            }
        }
        proof {
            if Chunk::<L, H>::in_bounds(self.block_pos) {
                Chunk::<L, H>::lemma_cell_index(self.block_pos);
            }
        }
    }

    /// Hands out the next cell of the pass, or `None` once every cell has
    /// been handed out.
    pub fn next(&mut self) -> (cell: Option<BlockRef<'a, L, H>>)
        ensures
            final(self).chunk() == old(self).chunk(),
            final(self).index() <= Chunk::<L, H>::cell_count(),
            old(self).index() < Chunk::<L, H>::cell_count() ==> {
                &&& final(self).index() == old(self).index() + 1
                &&& cell matches Some(b)
                &&& b.chunk() == old(self).chunk()
                &&& b.pos() == Chunk::<L, H>::index_pos(old(self).index() as int)
                &&& b.block() == old(self).chunk()@[old(self).index() as int]
            },
            old(self).index() >= Chunk::<L, H>::cell_count() ==> {
                &&& cell is None
                &&& final(self).index() == old(self).index()
            },
    {
        proof {
            if Chunk::<L, H>::in_bounds(self.block_pos) {
                Chunk::<L, H>::lemma_cell_index(self.block_pos);
            }
        }
        let res = self.chunk.index_block(self.block_pos);
        if res.is_some() {
            proof {
                Chunk::<L, H>::lemma_cell_index(self.block_pos);
            }
            self.advance_index();
        }
        res
    }
}

} // verus!
