//! The mesher: which faces of a chunk's blocks can be seen, and the mesh of them.

use vstd::prelude::*;
use crate::chunk::{Block, BlockPos, BlockRef, Chunk, Face};
use crate::search::lemma_filter_step;
use crate::mesh::{lemma_quad_index_span, quad_indices, BuilderState, Mesh, MeshBuilder, MeshView};

verus! {

/// The most faces that one mesh can hold: four vertices each, counted by
/// 16-bit indices.
pub const MAX_FACES: usize = 16383;

/// The largest block coordinate at which a face can be placed, so that its
/// corners stay in the range of vertex coordinates.
pub const MAX_COORD: u64 = 922337203685477579;

impl<const L: usize, const H: usize> Chunk<L, H> {
    /// Whether nothing solid of this chunk covers the side `face` of the cell
    /// at `pos`: the neighbour there lies outside the chunk, or holds air.
    pub open spec fn open_side(&self, pos: BlockPos, face: Face) -> bool {
        match self.neighbor_of(pos, face) {
            Some(block) => block == Block::Air,
            None => true,
        }
    }

    /// Whether the side `face` of the cell at `pos` can be seen: the cell is
    /// solid and that side is open.
    pub open spec fn exposed(&self, pos: BlockPos, face: Face) -> bool {
        self.block_at(pos) != Block::Air && self.open_side(pos, face)
    }

    /// `exposed`, as a test on a face and its cell.
    pub open spec fn exposure(&self) -> spec_fn((Face, BlockPos)) -> bool {
        |e: (Face, BlockPos)| self.exposed(e.1, e.0)
    }

    /// Every side of every cell: cell after cell in the order of the view,
    /// and for each cell its six faces in their enumeration order.
    pub open spec fn face_candidates() -> Seq<(Face, BlockPos)> {
        Seq::new(6 * Self::cell_count(), |k: int| (Face::from_ordinal(k % 6), Self::index_pos(k / 6)))
    }

    /// The faces that can be seen, in the order of `face_candidates`.
    pub open spec fn visible_faces(&self) -> Seq<(Face, BlockPos)> {
        Self::face_candidates().filter(self.exposure())
    }

    /// The visible faces among the first `k` candidates, where the cell at
    /// `pos` is the only solid one: none before that cell's six, then one
    /// more for each of them.
    proof fn lemma_single_block_prefix(&self, pos: BlockPos, k: int)
        requires
            Self::in_bounds(pos),
            self.block_at(pos) != Block::Air,
            forall|q: BlockPos| Self::in_bounds(q) && q != pos ==> self.block_at(q) == Block::Air,
            0 <= k <= 6 * Self::cell_count(),
        ensures
            Self::face_candidates().take(k).filter(self.exposure()) == Seq::new(
                (if k <= 6 * Self::cell_index(pos) {
                    0int
                } else if k >= 6 * Self::cell_index(pos) + 6 {
                    6int
                } else {
                    k - 6 * Self::cell_index(pos)
                }) as nat,
                |j: int| (Face::from_ordinal(j), pos),
            ),
        decreases k,
    {
        let all = Self::face_candidates();
        let seen = self.exposure();
        let n = Self::cell_index(pos);
        Self::lemma_cell_index(pos);
        if k == 0 {
            reveal(Seq::filter);
            assert(all.take(0).filter(seen) =~= Seq::new(0nat, |j: int| (Face::from_ordinal(j), pos)));
        } else {
            self.lemma_single_block_prefix(pos, k - 1);
            lemma_filter_step(all, seen, k - 1);
            let (face, at) = all[k - 1];
            Self::lemma_index_pos((k - 1) / 6);
            if (k - 1) / 6 == n {
                assert(at == pos);
                match Self::neighbor_pos(pos, face) {
                    Some(q) => {
                        assert(q != pos);
                    },
                    None => {},
                }
                assert(seen(all[k - 1]));
                assert(all.take(k).filter(seen) =~= Seq::new(
                    (k - 6 * n) as nat,
                    |j: int| (Face::from_ordinal(j), pos),
                ));
            } else {
                assert(Self::cell_index(at) != n);
                assert(!seen(all[k - 1]));
                assert(all.take(k).filter(seen) =~= Seq::new(
                    (if k <= 6 * n {
                        0int
                    } else {
                        6int
                    }) as nat,
                    |j: int| (Face::from_ordinal(j), pos),
                ));
            }
        }
    }

    /// A chunk that holds a single solid block shows exactly the six faces
    /// of that block, once each, in their enumeration order.
    pub proof fn lemma_single_block_six_faces(&self, pos: BlockPos)
        requires
            Self::in_bounds(pos),
            self.block_at(pos) != Block::Air,
            forall|q: BlockPos| Self::in_bounds(q) && q != pos ==> self.block_at(q) == Block::Air,
        ensures
            self.visible_faces() == seq![
                (Face::Front, pos),
                (Face::Back, pos),
                (Face::Up, pos),
                (Face::Down, pos),
                (Face::Left, pos),
                (Face::Right, pos),
            ],
    {
        let all = Self::face_candidates();
        Self::lemma_cell_index(pos);
        self.lemma_single_block_prefix(pos, all.len() as int);
        assert(all.take(all.len() as int) =~= all);
        assert(Seq::new(6nat, |j: int| (Face::from_ordinal(j), pos)) =~= seq![
            (Face::Front, pos),
            (Face::Back, pos),
            (Face::Up, pos),
            (Face::Down, pos),
            (Face::Left, pos),
            (Face::Right, pos),
        ]);
    }

    /// What can be seen of a chunk depends on its cells alone: two chunks
    /// with the same cells show the same faces.
    pub proof fn lemma_visible_faces_of_cells(&self, other: &Chunk<L, H>)
        requires
            self@ == other@,
        ensures
            self.visible_faces() == other.visible_faces(),
    {
        assert(self.exposure() =~= other.exposure());
    }
}

/// Whether a list of faces can be made into a mesh: it holds at most
/// `MAX_FACES` faces, none further out than `MAX_COORD`.
pub open spec fn meshable_faces(faces: Seq<(Face, BlockPos)>) -> bool {
    &&& faces.len() <= MAX_FACES
    &&& forall|i: int|
        0 <= i < faces.len() ==> {
            &&& (#[trigger] faces[i]).1.x <= MAX_COORD
            &&& faces[i].1.y <= MAX_COORD
            &&& faces[i].1.z <= MAX_COORD
        }
}

/// The mesh of a list of faces: for each face its four corners, moved to
/// its block, and its two triangles over those corners.
pub open spec fn face_mesh(faces: Seq<(Face, BlockPos)>) -> MeshView {
    MeshView {
        vertices: Seq::new(
            4 * faces.len(),
            |k: int| faces[k / 4].0.corners()[k % 4].moved(faces[k / 4].1),
        ),
        indices: Seq::new(6 * faces.len(), |k: int| (4 * (k / 6) + quad_indices()[k % 6]) as u16),
    }
}

/// The mesh of a list of faces is what a builder gathers from the faces'
/// quads, pushed in order.
pub proof fn lemma_face_mesh_push(faces: Seq<(Face, BlockPos)>)
    requires
        faces.len() > 0,
        4 * faces.len() <= u16::MAX,
    ensures
        (BuilderState { mesh: face_mesh(faces.drop_last()), next_index: 4 * (faces.len() - 1) }).push(
            faces.last().0.quad(),
            faces.last().1,
        ) == (BuilderState { mesh: face_mesh(faces), next_index: 4 * faces.len() as int }),
{
    let before = BuilderState { mesh: face_mesh(faces.drop_last()), next_index: 4 * (faces.len() - 1) };
    let (face, at) = faces.last();
    let after = before.push(face.quad(), at);
    let n = faces.len() - 1;
    assert(face.corners().len() == 4);
    lemma_quad_index_span();
    assert forall|k: int| 0 <= k < 4 * faces.len() implies after.mesh.vertices[k] == face_mesh(
        faces,
    ).vertices[k] by {
        if k < 4 * n {
            assert(faces.drop_last()[k / 4] == faces[k / 4]);
        } else {
            assert(k / 4 == n && k % 4 == k - 4 * n);
        }
    }
    assert(after.mesh.vertices =~= face_mesh(faces).vertices);
    assert forall|k: int| 0 <= k < 6 * faces.len() implies after.mesh.indices[k] == face_mesh(
        faces,
    ).indices[k] by {
        if k >= 6 * n {
            assert(k / 6 == n && k % 6 == k - 6 * n);
        }
    }
    assert(after.mesh.indices =~= face_mesh(faces).indices);
}

/// The faces of a chunk that can be seen, each with the block it belongs to.
///
/// The list is made anew by every `serialize_chunk`. Faces and blocks are
/// kept side by side, so that the two can never fall out of step.
pub struct VoxelMesh {
    entries: Vec<(Face, BlockPos)>,
}

impl View for VoxelMesh {
    type V = Seq<(Face, BlockPos)>;

    closed spec fn view(&self) -> Seq<(Face, BlockPos)> {
        self.entries@
    }
}

impl VoxelMesh {
    /// An empty list.
    pub fn new() -> (mesher: Self)
        ensures
            mesher@ == Seq::<(Face, BlockPos)>::empty(),
    {
        Self { entries: Vec::new() }
    }

    /// Adds the side `face` of the cell `block` if that side is open.
    fn add_face<const L: usize, const H: usize>(&mut self, face: Face, block: &BlockRef<'_, L, H>)
        ensures
            final(self)@ == if block.chunk().open_side(block.pos(), face) {
                old(self)@.push((face, block.pos()))
            } else {
                old(self)@
            },
    {
        let pos = block.pos();
        match block.neighbor(face) {
            Some(neighbor) => {
                if neighbor.block() == Block::Air {
                    self.entries.push((face, pos));
                }
            },
            None => {
                self.entries.push((face, pos));
            },
        }
    }

    /// Replaces the list by the visible faces of `chunk`: for every solid
    /// cell, in the order of the chunk's view, those of its six faces, in
    /// their enumeration order, whose neighbour is air or lies outside the
    /// chunk.
    pub fn serialize_chunk<const L: usize, const H: usize>(&mut self, chunk: &Chunk<L, H>)
        ensures
            final(self)@ == chunk.visible_faces(),
    {
        self.entries.clear();
        let ghost all = Chunk::<L, H>::face_candidates();
        let ghost seen = chunk.exposure();
        let ghost mut done: int = 0;
        proof {
            reveal(Seq::filter);
            assert(all.take(0).filter(seen) =~= Seq::<(Face, BlockPos)>::empty());
        }
        let mut cells = chunk.iter();
        let mut next = cells.next();
        while next.is_some()
            invariant
                all == Chunk::<L, H>::face_candidates(),
                seen == chunk.exposure(),
                cells.chunk() == chunk,
                0 <= done <= Chunk::<L, H>::cell_count(),
                self.entries@ == all.take(6 * done).filter(seen),
                next matches Some(b) ==> done < Chunk::<L, H>::cell_count() && cells.index() == done
                    + 1 && b.chunk() == chunk && b.pos() == Chunk::<L, H>::index_pos(done)
                    && b.block() == chunk@[done],
                next is None ==> done == Chunk::<L, H>::cell_count(),
            decreases Chunk::<L, H>::cell_count() - done,
        {
            let block = next.unwrap();
            proof {
                Chunk::<L, H>::lemma_index_pos(done);
                lemma_filter_step(all, seen, 6 * done);
                lemma_filter_step(all, seen, 6 * done + 1);
                lemma_filter_step(all, seen, 6 * done + 2);
                lemma_filter_step(all, seen, 6 * done + 3);
                lemma_filter_step(all, seen, 6 * done + 4);
                lemma_filter_step(all, seen, 6 * done + 5);
                assert(all[6 * done] == (Face::Front, block.pos()));
                assert(all[6 * done + 1] == (Face::Back, block.pos()));
                assert(all[6 * done + 2] == (Face::Up, block.pos()));
                assert(all[6 * done + 3] == (Face::Down, block.pos()));
                assert(all[6 * done + 4] == (Face::Left, block.pos()));
                assert(all[6 * done + 5] == (Face::Right, block.pos()));
            }
            if block.block() != Block::Air {
                self.add_face(Face::Front, &block);
                self.add_face(Face::Back, &block);
                self.add_face(Face::Up, &block);
                self.add_face(Face::Down, &block);
                self.add_face(Face::Left, &block);
                self.add_face(Face::Right, &block);
            }
            proof {
                done = done + 1;
            }
            next = cells.next();
        }
        proof {
            assert(all.take(6 * done) =~= all);
        }
    }

    /// Whether the list can be made into a mesh (see `meshable_faces`).
    pub open spec fn meshable(&self) -> bool {
        meshable_faces(self@)
    }

    /// Tests `meshable`.
    pub fn is_meshable(&self) -> (ok: bool)
        ensures
            ok == self.meshable(),
    {
        if self.entries.len() > MAX_FACES {
            return false;
        }
        let mut i: usize = 0;
        while i < self.entries.len()
            invariant
                i <= self.entries.len(),
                self.entries.len() <= MAX_FACES,
                forall|j: int|
                    0 <= j < i ==> {
                        &&& (#[trigger] self@[j]).1.x <= MAX_COORD
                        &&& self@[j].1.y <= MAX_COORD
                        &&& self@[j].1.z <= MAX_COORD
                    },
            decreases self.entries.len() - i,
        {
            let pos = self.entries[i].1;
            if pos.x as u64 > MAX_COORD || pos.y as u64 > MAX_COORD || pos.z as u64 > MAX_COORD {
                assert(!({
                    &&& self@[i as int].1.x <= MAX_COORD
                    &&& self@[i as int].1.y <= MAX_COORD
                    &&& self@[i as int].1.z <= MAX_COORD
                }));
                return false;
            }
            i += 1;
        }
        true
    }

    /// The number of each face of the list, as a shader takes it.
    pub fn faces(&self) -> (codes: Vec<u32>)
        ensures
            codes@ == Seq::new(self@.len(), |i: int| self@[i].0.ordinal() as u32),
    {
        let mut codes: Vec<u32> = Vec::new();
        let mut i: usize = 0;
        while i < self.entries.len()
            invariant
                i <= self.entries.len(),
                codes@ == Seq::new(i as nat, |j: int| self@[j].0.ordinal() as u32),
            decreases self.entries.len() - i,
        {
            codes.push(self.entries[i].0.code());
            proof {
                assert(codes@ =~= Seq::new((i + 1) as nat, |j: int| self@[j].0.ordinal() as u32));
            }
            i += 1;
        }
        codes
    }

    /// The block of each face of the list.
    pub fn positions(&self) -> (positions: Vec<BlockPos>)
        ensures
            positions@ == Seq::new(self@.len(), |i: int| self@[i].1),
    {
        let mut positions: Vec<BlockPos> = Vec::new();
        let mut i: usize = 0;
        while i < self.entries.len()
            invariant
                i <= self.entries.len(),
                positions@ == Seq::new(i as nat, |j: int| self@[j].1),
            decreases self.entries.len() - i,
        {
            positions.push(self.entries[i].1);
            proof {
                assert(positions@ =~= Seq::new((i + 1) as nat, |j: int| self@[j].1));
            }
            i += 1;
        }
        positions
    }

    /// The mesh of the faces of the list, in their order.
    pub fn mesh(&mut self) -> (mesh: Mesh)
        requires
            old(self).meshable(),
        ensures
            final(self)@ == old(self)@,
            mesh@ == face_mesh(old(self)@),
            mesh@.well_formed(),
    {
        let mut builder = MeshBuilder::new();
        let mut i: usize = 0;
        proof {
            assert(builder@.mesh.vertices =~= face_mesh(self@.take(0)).vertices);
            assert(builder@.mesh.indices =~= face_mesh(self@.take(0)).indices);
        }
        while i < self.entries.len()
            invariant
                i <= self.entries.len(),
                self.meshable(),
                self@ == old(self)@,
                builder.well_formed(),
                builder@ == (BuilderState { mesh: face_mesh(self@.take(i as int)), next_index: 4 * i as int }),
            decreases self.entries.len() - i,
        {
            let (face, position) = self.entries[i];
            let quad = face.mesh();
            proof {
                let upto = self@.take(i + 1);
                assert(upto.drop_last() =~= self@.take(i as int));
                assert(upto.last() == (face, position));
                lemma_face_mesh_push(upto);
                assert(self@[i as int].1.x <= MAX_COORD);
                assert forall|j: int| 0 <= j < quad@.vertices.len() implies (
                #[trigger] quad@.vertices[j]).fits(position) by {
                    face.lemma_corners_face_outward(j);
                    assert(-5 <= quad@.vertices[j].position[0] <= 5);
                    assert(-5 <= quad@.vertices[j].position[1] <= 5);
                    assert(-5 <= quad@.vertices[j].position[2] <= 5);
                }
                lemma_quad_index_span();
            }
            builder.push(quad, position);
            i += 1;
        }
        proof {
            assert(self@.take(i as int) =~= self@);
        }
        builder.build()
    }
}

/// Meshing the same cells twice gives the same faces and the same mesh.
pub proof fn lemma_remesh_unchanged<const L: usize, const H: usize>(
    before: &Chunk<L, H>,
    after: &Chunk<L, H>,
    first: &VoxelMesh,
    second: &VoxelMesh,
)
    requires
        before@ == after@,
        first@ == before.visible_faces(),
        second@ == after.visible_faces(),
    ensures
        first@ == second@,
        face_mesh(first@) == face_mesh(second@),
{
    before.lemma_visible_faces_of_cells(after);
}

} // verus!
