//! The world: every chunk there is, in the group that says what is to be
//! done with it.

use vstd::prelude::*;
use crate::chunk::{Block, BlockPos, Chunk, ChunkPos};
use crate::search::{first_index, lemma_first_index_is};

verus! {

/// How far chunks are laid out around the origin, in chunks, along x and z.
pub const RENDER_DISTANCE: i32 = 8;

/// The chunks of a world, group by group.
pub struct WorldView {
    /// Chunks that are in use and need nothing.
    pub active: Seq<Chunk<16, 16>>,
    /// Chunks that are new and wait for their first mesh.
    pub scheduled: Seq<Chunk<16, 16>>,
    /// Chunks whose blocks changed since they were meshed.
    pub dirty: Seq<Chunk<16, 16>>,
}

impl WorldView {
    /// Every chunk of the world: the active ones, then the scheduled ones,
    /// then the dirty ones.
    pub open spec fn all(self) -> Seq<Chunk<16, 16>> {
        self.active + self.scheduled + self.dirty
    }
}

/// No two of `chunks` lie at the same place.
pub open spec fn distinct_places(chunks: Seq<Chunk<16, 16>>) -> bool {
    forall|i: int, j: int|
        0 <= i < chunks.len() && 0 <= j < chunks.len() && i != j ==> (#[trigger] chunks[i]).pos() != (
        #[trigger] chunks[j]).pos()
}

/// Chunks that are, one for one, at the places of different chunks of a
/// list without two chunks at one place, are without two chunks at one
/// place themselves.
proof fn lemma_distinct_moved(
    before: Seq<Chunk<16, 16>>,
    after: Seq<Chunk<16, 16>>,
    from: spec_fn(int) -> int,
)
    requires
        distinct_places(before),
        forall|k: int|
            0 <= k < after.len() ==> 0 <= #[trigger] from(k) < before.len() && after[k].pos()
                == before[from(k)].pos(),
        forall|k: int, l: int|
            0 <= k < after.len() && 0 <= l < after.len() && k != l ==> #[trigger] from(k)
                != #[trigger] from(l),
    ensures
        distinct_places(after),
{
    assert forall|i: int, j: int|
        0 <= i < after.len() && 0 <= j < after.len() && i != j implies (#[trigger] after[i]).pos() != (
    #[trigger] after[j]).pos() by {
        assert(from(i) != from(j));
        assert(after[i].pos() == before[from(i)].pos());
        assert(after[j].pos() == before[from(j)].pos());
    }
}

/// Owns every chunk. A chunk is in exactly one of the three groups, and
/// changes group by being moved.
pub struct World {
    chunks: Vec<Chunk<16, 16>>,
    scheduled_chunks: Vec<Chunk<16, 16>>,
    to_update_chunks: Vec<Chunk<16, 16>>,
}

impl View for World {
    type V = WorldView;

    closed spec fn view(&self) -> WorldView {
        WorldView {
            active: self.chunks@,
            scheduled: self.scheduled_chunks@,
            dirty: self.to_update_chunks@,
        }
    }
}

/// The cells of a staircase that climbs along x: the cell at (x, y, z) is
/// dirt where y < x, and air elsewhere.
pub open spec fn staircase_cells() -> Seq<Block> {
    Seq::new(
        Chunk::<16, 16>::cell_count(),
        |i: int|
            if Chunk::<16, 16>::index_pos(i).y < Chunk::<16, 16>::index_pos(i).x {
                Block::Dirt
            } else {
                Block::Air
            },
    )
}

/// The place of the `i`-th chunk that a new world lays out: row after row
/// along x, and along z within each row.
pub open spec fn layout_pos(i: int) -> ChunkPos {
    ChunkPos {
        x: (i / (2 * RENDER_DISTANCE) - RENDER_DISTANCE) as i32,
        z: (i % (2 * RENDER_DISTANCE) - RENDER_DISTANCE) as i32,
    }
}

/// Whether the cell at `p` comes before the cell at (x, y, z) when the
/// staircase is filled: x outermost, then y, then z.
spec fn filled_before(p: BlockPos, x: int, y: int, z: int) -> bool {
    p.x < x || (p.x == x && (p.y < y || (p.y == y && p.z < z)))
}

/// A chunk at `pos` that holds a staircase.
pub fn staircase(pos: ChunkPos) -> (chunk: Chunk<16, 16>)
    ensures
        chunk.pos() == pos,
        chunk@ == staircase_cells(),
{
    let mut chunk: Chunk<16, 16> = Chunk::new(pos);
    let mut x: usize = 0;
    while x < 16
        invariant
            x <= 16,
            chunk.pos() == pos,
            chunk@.len() == 4096,
            forall|i: int|
                0 <= i < 4096 ==> #[trigger] chunk@[i] == if filled_before(
                    Chunk::<16, 16>::index_pos(i),
                    x as int,
                    0,
                    0,
                ) && Chunk::<16, 16>::index_pos(i).y < Chunk::<16, 16>::index_pos(i).x {
                    Block::Dirt
                } else {
                    Block::Air
                },
        decreases 16 - x,
    {
        let mut y: usize = 0;
        while y < x
            invariant
                x < 16,
                y <= x,
                chunk.pos() == pos,
                chunk@.len() == 4096,
                forall|i: int|
                    0 <= i < 4096 ==> #[trigger] chunk@[i] == if filled_before(
                        Chunk::<16, 16>::index_pos(i),
                        x as int,
                        y as int,
                        0,
                    ) && Chunk::<16, 16>::index_pos(i).y < Chunk::<16, 16>::index_pos(i).x {
                        Block::Dirt
                    } else {
                        Block::Air
                    },
            decreases x - y,
        {
            let mut z: usize = 0;
            while z < 16
                invariant
                    x < 16,
                    y < x,
                    z <= 16,
                    chunk.pos() == pos,
                    chunk@.len() == 4096,
                    forall|i: int|
                        0 <= i < 4096 ==> #[trigger] chunk@[i] == if filled_before(
                            Chunk::<16, 16>::index_pos(i),
                            x as int,
                            y as int,
                            z as int,
                        ) && Chunk::<16, 16>::index_pos(i).y < Chunk::<16, 16>::index_pos(i).x {
                            Block::Dirt
                        } else {
                            Block::Air
                        },
                decreases 16 - z,
            {
                let at = BlockPos::new(x, y, z);
                let ghost before = chunk@;
                let _ = chunk.place_block(at, Block::Dirt);
                proof {
                    Chunk::<16, 16>::lemma_cell_index(at);
                    assert forall|i: int| 0 <= i < 4096 implies #[trigger] chunk@[i] == if filled_before(
                        Chunk::<16, 16>::index_pos(i),
                        x as int,
                        y as int,
                        z + 1,
                    ) && Chunk::<16, 16>::index_pos(i).y < Chunk::<16, 16>::index_pos(i).x {
                        Block::Dirt
                    } else {
                        Block::Air
                    } by {
                        Chunk::<16, 16>::lemma_index_pos(i);
                        assert(before[i] == if filled_before(
                            Chunk::<16, 16>::index_pos(i),
                            x as int,
                            y as int,
                            z as int,
                        ) && Chunk::<16, 16>::index_pos(i).y < Chunk::<16, 16>::index_pos(i).x {
                            Block::Dirt
                        } else {
                            Block::Air
                        });
                    }
                }
                z += 1;
            }
            y += 1;
        }
        x += 1;
    }
    proof {
        assert forall|i: int| 0 <= i < 4096 implies chunk@[i] == staircase_cells()[i] by {
            Chunk::<16, 16>::lemma_index_pos(i);
        }
        assert(chunk@ =~= staircase_cells());
    }
    chunk
}

impl World {
    /// No two chunks of the world, whatever their groups, lie at the same
    /// place.
    pub open spec fn well_formed(&self) -> bool {
        distinct_places(self@.all())
    }

    /// A world of staircases, `RENDER_DISTANCE` chunks to each side of the
    /// origin, all of them scheduled.
    pub fn new() -> (world: Self)
        ensures
            world@.active.len() == 0,
            world@.dirty.len() == 0,
            world@.scheduled.len() == 4 * RENDER_DISTANCE * RENDER_DISTANCE,
            forall|i: int|
                0 <= i < world@.scheduled.len() ==> {
                    &&& (#[trigger] world@.scheduled[i]).pos() == layout_pos(i)
                    &&& world@.scheduled[i]@ == staircase_cells()
                },
            world.well_formed(),
    {
        let mut v: Vec<Chunk<16, 16>> = Vec::new();
        let mut x: i32 = -RENDER_DISTANCE;
        while x < RENDER_DISTANCE
            invariant
                -RENDER_DISTANCE <= x <= RENDER_DISTANCE,
                v@.len() == (x + RENDER_DISTANCE) * 16,
                forall|i: int|
                    0 <= i < v@.len() ==> {
                        &&& (#[trigger] v@[i]).pos() == layout_pos(i)
                        &&& v@[i]@ == staircase_cells()
                    },
            decreases RENDER_DISTANCE - x,
        {
            let mut z: i32 = -RENDER_DISTANCE;
            while z < RENDER_DISTANCE
                invariant
                    -RENDER_DISTANCE <= x < RENDER_DISTANCE,
                    -RENDER_DISTANCE <= z <= RENDER_DISTANCE,
                    v@.len() == (x + RENDER_DISTANCE) * 16 + (z + RENDER_DISTANCE),
                    forall|i: int|
                        0 <= i < v@.len() ==> {
                            &&& (#[trigger] v@[i]).pos() == layout_pos(i)
                            &&& v@[i]@ == staircase_cells()
                        },
                decreases RENDER_DISTANCE - z,
            {
                let ghost before = v@;
                v.push(staircase(ChunkPos::new(x, z)));
                proof {
                    assert forall|i: int| 0 <= i < v@.len() implies {
                        &&& (#[trigger] v@[i]).pos() == layout_pos(i)
                        &&& v@[i]@ == staircase_cells()
                    } by {
                        if i < before.len() {
                            assert(v@[i] == before[i]);
                        }
                    }
                }
                z += 1;
            }
            x += 1;
        }
        let world = Self { chunks: Vec::new(), scheduled_chunks: v, to_update_chunks: Vec::new() };
        proof {
            assert(world@.all() =~= v@);
        }
        world
    }

    /// Moves the dirty chunks behind the active ones, and says where in
    /// `chunks()` the first of them now stands.
    pub fn to_update_chunks(&mut self) -> (first: usize)
        ensures
            first == old(self)@.active.len(),
            final(self)@.active == old(self)@.active + old(self)@.dirty,
            final(self)@.dirty == Seq::<Chunk<16, 16>>::empty(),
            final(self)@.scheduled == old(self)@.scheduled,
            old(self).well_formed() ==> final(self).well_formed(),
    {
        let l = self.chunks.len();
        self.chunks.append(&mut self.to_update_chunks);
        proof {
            if old(self).well_formed() {
                let (a, s, d) = (
                    old(self)@.active.len() as int,
                    old(self)@.scheduled.len() as int,
                    old(self)@.dirty.len() as int,
                );
                let from = |k: int|
                    if k < a {
                        k
                    } else if k < a + d {
                        k + s
                    } else {
                        k - d
                    };
                lemma_distinct_moved(old(self)@.all(), self@.all(), from);
            }
        }
        l
    }

    /// Moves the scheduled chunks behind the active ones, and says where in
    /// `chunks()` the first of them now stands.
    pub fn scheduled_chunks(&mut self) -> (first: usize)
        ensures
            first == old(self)@.active.len(),
            final(self)@.active == old(self)@.active + old(self)@.scheduled,
            final(self)@.scheduled == Seq::<Chunk<16, 16>>::empty(),
            final(self)@.dirty == old(self)@.dirty,
            old(self).well_formed() ==> final(self).well_formed(),
    {
        let l = self.chunks.len();
        self.chunks.append(&mut self.scheduled_chunks);
        proof {
            assert(self@.all() =~= old(self)@.all());
        }
        l
    }

    /// The active chunks.
    pub fn chunks(&self) -> (chunks: &Vec<Chunk<16, 16>>)
        ensures
            chunks@ == self@.active,
    {
        &self.chunks
    }

    /// The test for a chunk at `pos`.
    pub open spec fn at(pos: ChunkPos) -> spec_fn(Chunk<16, 16>) -> bool {
        |chunk: Chunk<16, 16>| chunk.pos() == pos
    }

    /// Where the first active chunk at `pos` stands among the active
    /// chunks; their number if there is none.
    pub open spec fn active_index(active: Seq<Chunk<16, 16>>, pos: ChunkPos) -> int {
        first_index(active, Self::at(pos))
    }

    /// Puts `block` at `block_pos` into the active chunk at `chunk_pos`,
    /// and moves that chunk to the dirty ones. Where there is no such
    /// active chunk, or the block would lie outside it, nothing changes.
    pub fn place_block(&mut self, chunk_pos: ChunkPos, block_pos: BlockPos, block: Block) -> (placed:
        Option<()>)
        ensures
            final(self)@.scheduled == old(self)@.scheduled,
            old(self).well_formed() ==> final(self).well_formed(),
            ({
                let i = Self::active_index(old(self)@.active, chunk_pos);
                if i < old(self)@.active.len() && Chunk::<16, 16>::in_bounds(block_pos) {
                    &&& placed is Some
                    &&& final(self)@.active == old(self)@.active.remove(i)
                    &&& final(self)@.dirty.len() == old(self)@.dirty.len() + 1
                    &&& final(self)@.dirty.drop_last() == old(self)@.dirty
                    &&& final(self)@.dirty.last().pos() == chunk_pos
                    &&& final(self)@.dirty.last()@ == old(self)@.active[i]@.update(
                        Chunk::<16, 16>::cell_index(block_pos),
                        block,
                    )
                } else {
                    &&& placed is None
                    &&& final(self)@ == old(self)@
                }
            }),
    {
        if block_pos.x >= 16 || block_pos.y >= 16 || block_pos.z >= 16 {
            return None;
        }
        let mut i: usize = 0;
        while i < self.chunks.len()
            invariant
                i <= self.chunks.len(),
                *self == *old(self),
                Chunk::<16, 16>::in_bounds(block_pos),
                forall|j: int| 0 <= j < i ==> (#[trigger] self.chunks@[j]).pos() != chunk_pos,
            decreases self.chunks.len() - i,
        {
            if self.chunks[i].pos() == chunk_pos {
                proof {
                    lemma_first_index_is(self.chunks@, Self::at(chunk_pos), i as int);
                }
                let mut chunk = self.chunks.remove(i);
                let _ = chunk.place_block(block_pos, block);
                self.to_update_chunks.push(chunk);
                proof {
                    assert(self@.dirty.drop_last() =~= old(self)@.dirty);
                    assert(self@.dirty.last() == chunk);
                    if old(self).well_formed() {
                        let last = self@.all().len() - 1;
                        let from = |k: int|
                            if k < i {
                                k
                            } else if k < last {
                                k + 1
                            } else {
                                i as int
                            };
                        lemma_distinct_moved(old(self)@.all(), self@.all(), from);
                    }
                }
                return Some(());
            }
            i += 1;
        }
        proof {
            lemma_first_index_is(self.chunks@, Self::at(chunk_pos), i as int);
        }
        None
    }
}

} // verus!
