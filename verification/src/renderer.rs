//! The registry of chunk renderers: which chunks have a mesh, which wait for
//! one, and what is to be drawn.
//!
//! The registry decides and keeps the meshes; whoever owns the graphics
//! device uploads what the registry has built and issues the draw calls
//! that it lists.

use vstd::prelude::*;
use crate::chunk::{BlockPos, Chunk, ChunkPos, Face};
use crate::face_bound::lemma_always_meshable;
use crate::mesh::{Mesh, MeshView};
use crate::search::{first_index, lemma_filter_step, lemma_first_index, lemma_first_index_is};
use crate::voxel_mesh::{face_mesh, meshable_faces, VoxelMesh};

verus! {

/// Where a chunk stands with the registry.
#[derive(Debug, Clone, Copy, PartialEq, Eq, Hash, Structural)]
pub enum ChunkState {
    /// The registry holds nothing for the chunk.
    Unloaded,
    /// The chunk has an entry, and no mesh yet.
    Scheduled,
    /// The chunk has a mesh that shows its blocks as they are.
    Loaded,
    /// The chunk has a mesh, and its blocks have changed since.
    Dirty,
}

/// Why the registry did not do what it was asked.
#[derive(Debug, Clone, Copy, PartialEq, Eq, Hash, Structural)]
pub enum RenderError {
    /// The chunk to load has an entry already.
    AlreadyLoaded,
    /// The chunk has no entry.
    NotFound,
    /// The chunk shows more faces than one mesh can hold.
    TooManyFaces,
}

impl RenderError {
    /// The error in words.
    pub fn message(&self) -> (text: &'static str)
        ensures
            text@ == match *self {
                RenderError::AlreadyLoaded => "chunk already loaded"@,
                RenderError::NotFound => "ChunkRenderer not found"@,
                RenderError::TooManyFaces => "chunk shows too many faces for one mesh"@,
            },
    {
        match self {
            RenderError::AlreadyLoaded => "chunk already loaded",
            RenderError::NotFound => "ChunkRenderer not found",
            RenderError::TooManyFaces => "chunk shows too many faces for one mesh",
        }
    }
}

/// One draw call: the chunk to draw and how many indices its mesh has.
#[derive(Debug, Clone, Copy, PartialEq, Eq, Structural)]
pub struct DrawCall {
    pub pos: ChunkPos,
    pub index_count: u32,
}

/// What a shader needs of one chunk before it is drawn.
#[derive(Debug, PartialEq, Eq)]
pub struct ChunkUniforms {
    /// Where the chunk's cell (0, 0, 0) lies in the world, in blocks.
    pub translation: (i128, i128, i128),
    /// The number of each visible face.
    pub faces: Vec<u32>,
}

/// What the registry holds for one chunk.
pub struct EntryView {
    pub pos: ChunkPos,
    pub faces: Seq<(Face, BlockPos)>,
    pub model: Option<MeshView>,
    pub dirty: bool,
}

impl EntryView {
    /// The entry of a chunk that was just loaded.
    pub open spec fn fresh(pos: ChunkPos) -> EntryView {
        EntryView { pos, faces: Seq::empty(), model: None, dirty: false }
    }

    /// Where the chunk of the entry stands.
    pub open spec fn state(self) -> ChunkState {
        if self.model is None {
            ChunkState::Scheduled
        } else if self.dirty {
            ChunkState::Dirty
        } else {
            ChunkState::Loaded
        }
    }

    /// The entry after `chunk` has been meshed for it: it holds the visible
    /// faces of the chunk, and their mesh if one mesh can hold them.
    pub open spec fn remeshed<const L: usize, const H: usize>(self, chunk: &Chunk<L, H>) -> EntryView {
        let faces = chunk.visible_faces();
        EntryView {
            pos: self.pos,
            faces,
            model: if meshable_faces(faces) {
                Some(face_mesh(faces))
            } else {
                None
            },
            dirty: false,
        }
    }

    /// The entry after the blocks of its chunk have changed.
    pub open spec fn marked_dirty(self) -> EntryView {
        EntryView { dirty: self.model is Some, ..self }
    }

    /// The draw call for the entry.
    pub open spec fn draw_call(self) -> DrawCall {
        DrawCall { pos: self.pos, index_count: self.model.unwrap().indices.len() as u32 }
    }
}

/// What meshing `chunk` for an entry returns.
pub open spec fn remesh_outcome<const L: usize, const H: usize>(chunk: &Chunk<L, H>) -> Result<
    (),
    RenderError,
> {
    if meshable_faces(chunk.visible_faces()) {
        Ok(())
    } else {
        Err(RenderError::TooManyFaces)
    }
}

/// A chunk of sixteen blocks a side, as the world holds them, can always
/// be meshed.
pub proof fn lemma_world_chunk_remeshes(chunk: &Chunk<16, 16>)
    ensures
        remesh_outcome(chunk) == Ok::<(), RenderError>(()),
{
    lemma_always_meshable(chunk);
}

/// The test for the entry of the chunk at `pos`.
pub open spec fn at(pos: ChunkPos) -> spec_fn(EntryView) -> bool {
    |e: EntryView| e.pos == pos
}

/// The test for an entry that is to be drawn.
pub open spec fn is_loaded() -> spec_fn(EntryView) -> bool {
    |e: EntryView| e.state() == ChunkState::Loaded
}

/// Where the entry of the chunk at `pos` stands; the number of entries if
/// the chunk has none.
pub open spec fn index_of(entries: Seq<EntryView>, pos: ChunkPos) -> int {
    first_index(entries, at(pos))
}

/// Whether the chunk at `pos` has an entry.
pub open spec fn has_entry(entries: Seq<EntryView>, pos: ChunkPos) -> bool {
    index_of(entries, pos) < entries.len()
}

/// No two entries are for the same chunk.
pub open spec fn distinct(entries: Seq<EntryView>) -> bool {
    forall|i: int, j: int|
        0 <= i < entries.len() && 0 <= j < entries.len() && i != j ==> (#[trigger] entries[i]).pos != (
        #[trigger] entries[j]).pos
}

/// The state of the chunk at `pos`.
pub open spec fn state_of(entries: Seq<EntryView>, pos: ChunkPos) -> ChunkState {
    if has_entry(entries, pos) {
        entries[index_of(entries, pos)].state()
    } else {
        ChunkState::Unloaded
    }
}

/// The entries after the chunk at `pos` was asked to be loaded.
pub open spec fn loaded(entries: Seq<EntryView>, pos: ChunkPos) -> Seq<EntryView> {
    if has_entry(entries, pos) {
        entries
    } else {
        entries.push(EntryView::fresh(pos))
    }
}

/// The entries after the chunk at `pos` was asked to be unloaded.
pub open spec fn unloaded(entries: Seq<EntryView>, pos: ChunkPos) -> Seq<EntryView> {
    if has_entry(entries, pos) {
        entries.remove(index_of(entries, pos))
    } else {
        entries
    }
}

/// The entries after `chunk` was asked to be meshed anew.
pub open spec fn updated<const L: usize, const H: usize>(
    entries: Seq<EntryView>,
    chunk: &Chunk<L, H>,
) -> Seq<EntryView> {
    if has_entry(entries, chunk.pos()) {
        let i = index_of(entries, chunk.pos());
        entries.update(i, entries[i].remeshed(chunk))
    } else {
        entries
    }
}

/// What asking for `chunk` to be meshed anew returns.
pub open spec fn update_outcome<const L: usize, const H: usize>(
    entries: Seq<EntryView>,
    chunk: &Chunk<L, H>,
) -> Result<(), RenderError> {
    if has_entry(entries, chunk.pos()) {
        remesh_outcome(chunk)
    } else {
        Err(RenderError::NotFound)
    }
}

/// The entries after the blocks of the chunk at `pos` were said to have changed.
pub open spec fn dirtied(entries: Seq<EntryView>, pos: ChunkPos) -> Seq<EntryView> {
    if has_entry(entries, pos) {
        let i = index_of(entries, pos);
        entries.update(i, entries[i].marked_dirty())
    } else {
        entries
    }
}

/// The entries after the scheduled `chunk` was loaded and meshed; a chunk
/// that has an entry already is left as it is.
pub open spec fn scheduled_one<const L: usize, const H: usize>(
    entries: Seq<EntryView>,
    chunk: &Chunk<L, H>,
) -> Seq<EntryView> {
    if has_entry(entries, chunk.pos()) {
        entries
    } else {
        entries.push(EntryView::fresh(chunk.pos()).remeshed(chunk))
    }
}

/// What loading and meshing the scheduled `chunk` returns.
pub open spec fn schedule_outcome<const L: usize, const H: usize>(
    entries: Seq<EntryView>,
    chunk: &Chunk<L, H>,
) -> Result<(), RenderError> {
    if has_entry(entries, chunk.pos()) {
        Err(RenderError::AlreadyLoaded)
    } else {
        remesh_outcome(chunk)
    }
}

/// The entries after each of the scheduled `chunks` was loaded and meshed,
/// first to last.
pub open spec fn scheduled_all<const L: usize, const H: usize>(
    entries: Seq<EntryView>,
    chunks: Seq<Chunk<L, H>>,
) -> Seq<EntryView>
    decreases chunks.len(),
{
    if chunks.len() == 0 {
        entries
    } else {
        scheduled_one(scheduled_all(entries, chunks.drop_last()), &chunks.last())
    }
}

/// The entries after each of the dirty `chunks` was meshed anew, first to last.
pub open spec fn updated_all<const L: usize, const H: usize>(
    entries: Seq<EntryView>,
    chunks: Seq<Chunk<L, H>>,
) -> Seq<EntryView>
    decreases chunks.len(),
{
    if chunks.len() == 0 {
        entries
    } else {
        updated(updated_all(entries, chunks.drop_last()), &chunks.last())
    }
}

/// The draw calls of a frame: one for each loaded entry, in the order of
/// the entries.
pub open spec fn draw_calls(entries: Seq<EntryView>) -> Seq<DrawCall> {
    entries.filter(is_loaded()).map_values(|e: EntryView| e.draw_call())
}

/// Loading keeps the entries distinct, and gives the chunk an entry.
pub proof fn lemma_loaded_distinct(entries: Seq<EntryView>, pos: ChunkPos)
    requires
        distinct(entries),
    ensures
        distinct(loaded(entries, pos)),
        has_entry(loaded(entries, pos), pos),
        !has_entry(entries, pos) ==> state_of(loaded(entries, pos), pos) == ChunkState::Scheduled,
        has_entry(entries, pos) ==> state_of(loaded(entries, pos), pos) == state_of(entries, pos),
{
    lemma_first_index(entries, at(pos));
    if !has_entry(entries, pos) {
        let after = entries.push(EntryView::fresh(pos));
        assert forall|i: int, j: int|
            0 <= i < after.len() && 0 <= j < after.len() && i != j implies (#[trigger] after[i]).pos != (
        #[trigger] after[j]).pos by {
            if i < entries.len() {
                assert(!at(pos)(entries[i]));
            }
            if j < entries.len() {
                assert(!at(pos)(entries[j]));
            }
        }
        assert forall|j: int| 0 <= j < entries.len() implies !at(pos)(#[trigger] after[j]) by {
            assert(!at(pos)(entries[j]));
        }
        lemma_first_index_is(after, at(pos), entries.len() as int);
    }
}

/// Unloading keeps the entries distinct, and leaves the chunk without an entry.
pub proof fn lemma_unloaded_distinct(entries: Seq<EntryView>, pos: ChunkPos)
    requires
        distinct(entries),
    ensures
        distinct(unloaded(entries, pos)),
        !has_entry(unloaded(entries, pos), pos),
        state_of(unloaded(entries, pos), pos) == ChunkState::Unloaded,
{
    lemma_first_index(entries, at(pos));
    if has_entry(entries, pos) {
        let i = index_of(entries, pos);
        let after = entries.remove(i);
        assert forall|j: int| 0 <= j < after.len() implies !at(pos)(#[trigger] after[j]) by {
            if j < i {
                assert(after[j] == entries[j]);
            } else {
                assert(after[j] == entries[j + 1]);
            }
        }
        lemma_first_index_is(after, at(pos), after.len() as int);
        assert forall|a: int, b: int|
            0 <= a < after.len() && 0 <= b < after.len() && a != b implies (#[trigger] after[a]).pos != (
        #[trigger] after[b]).pos by {
            let a0 = if a < i {
                a
            } else {
                a + 1
            };
            let b0 = if b < i {
                b
            } else {
                b + 1
            };
            assert(after[a] == entries[a0]);
            assert(after[b] == entries[b0]);
        }
    }
}

/// Meshing a chunk anew changes no entry but its own, and leaves that
/// entry loaded or, where the mesh could not be made, scheduled.
pub proof fn lemma_updated_distinct<const L: usize, const H: usize>(
    entries: Seq<EntryView>,
    chunk: &Chunk<L, H>,
)
    requires
        distinct(entries),
    ensures
        distinct(updated(entries, chunk)),
        updated(entries, chunk).len() == entries.len(),
        forall|j: int|
            0 <= j < entries.len() ==> (#[trigger] updated(entries, chunk)[j]).pos == entries[j].pos,
        has_entry(entries, chunk.pos()) ==> state_of(updated(entries, chunk), chunk.pos()) == (
        if remesh_outcome(chunk) is Ok {
            ChunkState::Loaded
        } else {
            ChunkState::Scheduled
        }),
{
    lemma_first_index(entries, at(chunk.pos()));
    if has_entry(entries, chunk.pos()) {
        let i = index_of(entries, chunk.pos());
        let after = updated(entries, chunk);
        assert forall|j: int| 0 <= j < i implies !at(chunk.pos())(#[trigger] after[j]) by {
            assert(!at(chunk.pos())(entries[j]));
        }
        lemma_first_index_is(after, at(chunk.pos()), i);
    }
}

/// A change of blocks turns a loaded chunk dirty, and leaves every other
/// chunk, and a chunk without a mesh, as it was.
pub proof fn lemma_dirtied_distinct(entries: Seq<EntryView>, pos: ChunkPos)
    requires
        distinct(entries),
    ensures
        distinct(dirtied(entries, pos)),
        state_of(dirtied(entries, pos), pos) == match state_of(entries, pos) {
            ChunkState::Loaded => ChunkState::Dirty,
            other => other,
        },
        forall|q: ChunkPos| q != pos ==> state_of(dirtied(entries, pos), q) == state_of(entries, q),
{
    lemma_first_index(entries, at(pos));
    if has_entry(entries, pos) {
        let i = index_of(entries, pos);
        let after = dirtied(entries, pos);
        assert forall|j: int| 0 <= j < i implies !at(pos)(#[trigger] after[j]) by {
            assert(!at(pos)(entries[j]));
        }
        lemma_first_index_is(after, at(pos), i);
        assert forall|q: ChunkPos| q != pos implies state_of(after, q) == state_of(entries, q) by {
            lemma_first_index(entries, at(q));
            let k = index_of(entries, q);
            assert forall|j: int| 0 <= j < k implies !at(q)(#[trigger] after[j]) by {
                assert(!at(q)(entries[j]));
            }
            if k < entries.len() {
                assert(at(q)(entries[k]));
                assert(k != i);
            }
            lemma_first_index_is(after, at(q), k);
        }
    }
}

/// What the renderer of one chunk holds: the visible faces of the chunk,
/// and the mesh of them once it has been built.
pub struct ChunkRenderer {
    pos: ChunkPos,
    model: Option<Mesh>,
    voxel_mesh: VoxelMesh,
    dirty: bool,
}

impl View for ChunkRenderer {
    type V = EntryView;

    closed spec fn view(&self) -> EntryView {
        EntryView {
            pos: self.pos,
            faces: self.voxel_mesh@,
            model: match self.model {
                Some(mesh) => Some(mesh@),
                None => None,
            },
            dirty: self.dirty,
        }
    }
}

impl ChunkRenderer {
    /// A renderer for the chunk at `pos`, without a mesh.
    pub fn new(pos: ChunkPos) -> (renderer: Self)
        ensures
            renderer@ == EntryView::fresh(pos),
    {
        Self { pos, model: None, voxel_mesh: VoxelMesh::new(), dirty: false }
    }

    /// The chunk that the renderer is for.
    pub fn pos(&self) -> (pos: ChunkPos)
        ensures
            pos == self@.pos,
    {
        self.pos
    }

    /// Where the chunk stands: scheduled, loaded or dirty.
    pub fn state(&self) -> (state: ChunkState)
        ensures
            state == self@.state(),
    {
        if self.model.is_none() {
            ChunkState::Scheduled
        } else if self.dirty {
            ChunkState::Dirty
        } else {
            ChunkState::Loaded
        }
    }

    /// Finds the visible faces of `chunk` and builds their mesh. Where one
    /// mesh cannot hold them, the renderer is left without a mesh.
    pub fn update_model<const L: usize, const H: usize>(&mut self, chunk: &Chunk<L, H>) -> (done:
        Result<(), RenderError>)
        ensures
            final(self)@ == old(self)@.remeshed(chunk),
            done == remesh_outcome(chunk),
    {
        self.voxel_mesh.serialize_chunk(chunk);
        self.dirty = false;
        if self.voxel_mesh.is_meshable() {
            let mesh = self.voxel_mesh.mesh();
            self.model = Some(mesh);
            Ok(())
        } else {
            self.model = None;
            Err(RenderError::TooManyFaces)
        }
    }

    /// Notes that the blocks of the chunk have changed since it was meshed.
    pub fn mark_dirty(&mut self)
        ensures
            final(self)@ == old(self)@.marked_dirty(),
    {
        self.dirty = self.model.is_some();
    }

    /// The mesh of the chunk, once it has been built.
    pub fn model(&self) -> (model: Option<&Mesh>)
        ensures
            model is Some <==> self@.model is Some,
            model matches Some(mesh) ==> Some(mesh@) == self@.model,
    {
        self.model.as_ref()
    }

    /// The number of each visible face of the chunk.
    pub fn faces(&self) -> (codes: Vec<u32>)
        ensures
            codes@ == Seq::new(self@.faces.len(), |i: int| self@.faces[i].0.ordinal() as u32),
    {
        self.voxel_mesh.faces()
    }

    /// How many indices to draw for the chunk; `None` unless it is loaded.
    pub fn render(&self) -> (count: Option<u32>)
        ensures
            count == if self@.state() == ChunkState::Loaded {
                Some(self@.draw_call().index_count)
            } else {
                None
            },
    {
        if self.dirty {
            return None;
        }
        match &self.model {
            Some(mesh) => Some(mesh.indices_count()),
            None => None,
        }
    }
}

/// The renderers of all loaded chunks, in the order in which the chunks
/// were loaded. No two are for the same chunk.
pub struct ChunksRenderer {
    renderers: Vec<ChunkRenderer>,
}

impl View for ChunksRenderer {
    type V = Seq<EntryView>;

    closed spec fn view(&self) -> Seq<EntryView> {
        Seq::new(self.renderers@.len(), |i: int| self.renderers@[i]@)
    }
}

impl ChunksRenderer {
    /// No two entries are for the same chunk.
    pub open spec fn well_formed(&self) -> bool {
        distinct(self@)
    }

    /// A registry without entries.
    pub fn new() -> (registry: Self)
        ensures
            registry@ == Seq::<EntryView>::empty(),
            registry.well_formed(),
    {
        let registry = Self { renderers: Vec::new() };
        proof {
            assert(registry@ =~= Seq::<EntryView>::empty());
        }
        registry
    }

    /// Where the renderer of the chunk at `pos` stands, if there is one.
    fn find(&self, pos: ChunkPos) -> (found: Option<usize>)
        ensures
            match found {
                Some(i) => i == index_of(self@, pos) && i < self.renderers@.len(),
                None => !has_entry(self@, pos),
            },
            self@.len() == self.renderers@.len(),
    {
        let mut i: usize = 0;
        while i < self.renderers.len()
            invariant
                i <= self.renderers.len(),
                self@.len() == self.renderers@.len(),
                forall|j: int| 0 <= j < i ==> !at(pos)(#[trigger] self@[j]),
            decreases self.renderers.len() - i,
        {
            if self.renderers[i].pos() == pos {
                proof {
                    lemma_first_index_is(self@, at(pos), i as int);
                }
                return Some(i);
            }
            i += 1;
        }
        proof {
            lemma_first_index_is(self@, at(pos), i as int);
        }
        None
    }

    /// Where the chunk at `pos` stands with the registry.
    pub fn state(&self, pos: ChunkPos) -> (state: ChunkState)
        ensures
            state == state_of(self@, pos),
    {
        match self.find(pos) {
            Some(i) => self.renderers[i].state(),
            None => ChunkState::Unloaded,
        }
    }

    /// Gives the chunk at `chunk_pos` a renderer. A chunk that has one
    /// keeps it, and the call fails.
    pub fn load_chunk(&mut self, chunk_pos: ChunkPos) -> (done: Result<(), RenderError>)
        ensures
            final(self)@ == loaded(old(self)@, chunk_pos),
            done == if has_entry(old(self)@, chunk_pos) {
                Err::<(), RenderError>(RenderError::AlreadyLoaded)
            } else {
                Ok::<(), RenderError>(())
            },
            old(self).well_formed() ==> final(self).well_formed(),
    {
        proof {
            if old(self).well_formed() {
                lemma_loaded_distinct(old(self)@, chunk_pos);
            }
        }
        match self.find(chunk_pos) {
            Some(_) => Err(RenderError::AlreadyLoaded),
            None => {
                self.renderers.push(ChunkRenderer::new(chunk_pos));
                proof {
                    assert(self@ =~= old(self)@.push(EntryView::fresh(chunk_pos)));
                }
                Ok(())
            },
        }
    }

    /// Takes the renderer of the chunk at `chunk_pos` away. Fails if the
    /// chunk has none.
    pub fn unload_chunk(&mut self, chunk_pos: ChunkPos) -> (done: Result<(), RenderError>)
        ensures
            final(self)@ == unloaded(old(self)@, chunk_pos),
            done == if has_entry(old(self)@, chunk_pos) {
                Ok::<(), RenderError>(())
            } else {
                Err::<(), RenderError>(RenderError::NotFound)
            },
            old(self).well_formed() ==> final(self).well_formed(),
    {
        proof {
            if old(self).well_formed() {
                lemma_unloaded_distinct(old(self)@, chunk_pos);
            }
        }
        match self.find(chunk_pos) {
            Some(i) => {
                let _ = self.renderers.remove(i);
                proof {
                    assert(self@ =~= old(self)@.remove(i as int));
                }
                Ok(())
            },
            None => Err(RenderError::NotFound),
        }
    }

    /// Meshes `chunk` anew for its renderer. Fails if the chunk has no
    /// renderer, or shows more faces than one mesh can hold.
    pub fn update_chunk<const L: usize, const H: usize>(&mut self, chunk: &Chunk<L, H>) -> (done:
        Result<(), RenderError>)
        ensures
            final(self)@ == updated(old(self)@, chunk),
            done == update_outcome(old(self)@, chunk),
            old(self).well_formed() ==> final(self).well_formed(),
    {
        proof {
            if old(self).well_formed() {
                lemma_updated_distinct(old(self)@, chunk);
            }
        }
        match self.find(chunk.pos()) {
            Some(i) => {
                let mut renderer = self.renderers.remove(i);
                let done = renderer.update_model(chunk);
                self.renderers.insert(i, renderer);
                proof {
                    assert(self@ =~= old(self)@.update(i as int, old(self)@[i as int].remeshed(chunk)));
                }
                done
            },
            None => Err(RenderError::NotFound),
        }
    }

    /// Notes that the blocks of the chunk at `chunk_pos` have changed.
    /// Fails if the chunk has no renderer.
    pub fn mark_dirty(&mut self, chunk_pos: ChunkPos) -> (done: Result<(), RenderError>)
        ensures
            final(self)@ == dirtied(old(self)@, chunk_pos),
            done == if has_entry(old(self)@, chunk_pos) {
                Ok::<(), RenderError>(())
            } else {
                Err::<(), RenderError>(RenderError::NotFound)
            },
            old(self).well_formed() ==> final(self).well_formed(),
    {
        match self.find(chunk_pos) {
            Some(i) => {
                let mut renderer = self.renderers.remove(i);
                renderer.mark_dirty();
                self.renderers.insert(i, renderer);
                proof {
                    assert(self@ =~= old(self)@.update(i as int, old(self)@[i as int].marked_dirty()));
                }
                Ok(())
            },
            None => Err(RenderError::NotFound),
        }
    }

    /// The mesh of the chunk at `pos`, once it has been built.
    pub fn model(&self, pos: ChunkPos) -> (model: Option<&Mesh>)
        ensures
            model is Some <==> has_entry(self@, pos) && self@[index_of(self@, pos)].model is Some,
            model matches Some(mesh) ==> Some(mesh@) == self@[index_of(self@, pos)].model,
    {
        match self.find(pos) {
            Some(i) => self.renderers[i].model(),
            None => None,
        }
    }

    /// What the shader needs of `chunk` before it is drawn. Fails if the
    /// chunk has no renderer.
    pub fn prepare_chunk<const L: usize, const H: usize>(&self, chunk: &Chunk<L, H>) -> (uniforms:
        Result<ChunkUniforms, RenderError>)
        ensures
            !has_entry(self@, chunk.pos()) ==> uniforms == Err::<ChunkUniforms, RenderError>(
                RenderError::NotFound,
            ),
            has_entry(self@, chunk.pos()) ==> {
                &&& uniforms matches Ok(u)
                &&& u.translation.0 == chunk.pos().x * L
                &&& u.translation.1 == 0
                &&& u.translation.2 == chunk.pos().z * L
                &&& u.faces@ == Seq::new(
                    self@[index_of(self@, chunk.pos())].faces.len(),
                    |i: int| self@[index_of(self@, chunk.pos())].faces[i].0.ordinal() as u32,
                )
            },
    {
        match self.find(chunk.pos()) {
            Some(i) => Ok(
                ChunkUniforms { translation: chunk.translation(), faces: self.renderers[i].faces() },
            ),
            None => Err(RenderError::NotFound),
        }
    }

    /// Loads and meshes the scheduled chunks, then meshes the dirty chunks
    /// anew, each once and in the order given. Returns what came of each:
    /// first of the scheduled chunks, then of the dirty ones.
    pub fn prepare_frame<const L: usize, const H: usize>(
        &mut self,
        dirty_chunks: &[Chunk<L, H>],
        scheduled_chunks: &[Chunk<L, H>],
    ) -> (outcomes: Vec<Result<(), RenderError>>)
        ensures
            final(self)@ == updated_all(scheduled_all(old(self)@, scheduled_chunks@), dirty_chunks@),
            outcomes@.len() == scheduled_chunks@.len() + dirty_chunks@.len(),
            forall|i: int|
                0 <= i < scheduled_chunks@.len() ==> #[trigger] outcomes@[i] == schedule_outcome(
                    scheduled_all(old(self)@, scheduled_chunks@.take(i)),
                    &scheduled_chunks@[i],
                ),
            forall|i: int|
                0 <= i < dirty_chunks@.len() ==> #[trigger] outcomes@[scheduled_chunks@.len() + i]
                    == update_outcome(
                    updated_all(scheduled_all(old(self)@, scheduled_chunks@), dirty_chunks@.take(i)),
                    &dirty_chunks@[i],
                ),
            old(self).well_formed() ==> final(self).well_formed(),
    {
        let mut outcomes: Vec<Result<(), RenderError>> = Vec::new();
        let mut i: usize = 0;
        while i < scheduled_chunks.len()
            invariant
                i <= scheduled_chunks@.len(),
                self@ == scheduled_all(old(self)@, scheduled_chunks@.take(i as int)),
                outcomes@.len() == i,
                forall|k: int|
                    0 <= k < i ==> #[trigger] outcomes@[k] == schedule_outcome(
                        scheduled_all(old(self)@, scheduled_chunks@.take(k)),
                        &scheduled_chunks@[k],
                    ),
                old(self).well_formed() ==> self.well_formed(),
            decreases scheduled_chunks@.len() - i,
        {
            let chunk = &scheduled_chunks[i];
            let ghost before = self@;
            proof {
                assert(scheduled_chunks@.take(i + 1).drop_last() =~= scheduled_chunks@.take(i as int));
                lemma_first_index(before, at(chunk.pos()));
                if distinct(before) {
                    lemma_loaded_distinct(before, chunk.pos());
                }
            }
            let outcome = match self.load_chunk(chunk.pos()) {
                Ok(()) => {
                    proof {
                        let mid = before.push(EntryView::fresh(chunk.pos()));
                        assert forall|j: int| 0 <= j < before.len() implies !at(chunk.pos())(
                            #[trigger] mid[j],
                        ) by {
                            assert(!at(chunk.pos())(before[j]));
                        }
                        lemma_first_index_is(mid, at(chunk.pos()), before.len() as int);
                        assert(updated(mid, chunk) =~= scheduled_one(before, chunk));
                    }
                    self.update_chunk(chunk)
                },
                Err(e) => Err(e),
            };
            outcomes.push(outcome);
            i += 1;
        }
        proof {
            assert(scheduled_chunks@.take(i as int) =~= scheduled_chunks@);
        }
        let ghost base = self@;
        let mut d: usize = 0;
        while d < dirty_chunks.len()
            invariant
                d <= dirty_chunks@.len(),
                base == scheduled_all(old(self)@, scheduled_chunks@),
                self@ == updated_all(base, dirty_chunks@.take(d as int)),
                outcomes@.len() == scheduled_chunks@.len() + d,
                forall|k: int|
                    0 <= k < scheduled_chunks@.len() ==> #[trigger] outcomes@[k] == schedule_outcome(
                        scheduled_all(old(self)@, scheduled_chunks@.take(k)),
                        &scheduled_chunks@[k],
                    ),
                forall|k: int|
                    0 <= k < d ==> #[trigger] outcomes@[scheduled_chunks@.len() + k] == update_outcome(
                        updated_all(base, dirty_chunks@.take(k)),
                        &dirty_chunks@[k],
                    ),
                old(self).well_formed() ==> self.well_formed(),
            decreases dirty_chunks@.len() - d,
        {
            proof {
                assert(dirty_chunks@.take(d + 1).drop_last() =~= dirty_chunks@.take(d as int));
            }
            let outcome = self.update_chunk(&dirty_chunks[d]);
            outcomes.push(outcome);
            d += 1;
        }
        proof {
            assert(dirty_chunks@.take(d as int) =~= dirty_chunks@);
        }
        outcomes
    }

    /// The draw calls of a frame: one for each loaded chunk, in the order
    /// in which the chunks were loaded.
    pub fn render(&self) -> (calls: Vec<DrawCall>)
        ensures
            calls@ == draw_calls(self@),
    {
        let mut calls: Vec<DrawCall> = Vec::new();
        let mut i: usize = 0;
        proof {
            reveal(Seq::filter);
            assert(self@.take(0).filter(is_loaded()) =~= Seq::<EntryView>::empty());
            assert(calls@ =~= self@.take(0).filter(is_loaded()).map_values(|e: EntryView| e.draw_call()));
        }
        while i < self.renderers.len()
            invariant
                i <= self.renderers.len(),
                self@.len() == self.renderers@.len(),
                calls@ == self@.take(i as int).filter(is_loaded()).map_values(
                    |e: EntryView| e.draw_call(),
                ),
            decreases self.renderers.len() - i,
        {
            proof {
                lemma_filter_step(self@, is_loaded(), i as int);
            }
            let ghost kept = self@.take(i as int).filter(is_loaded());
            match self.renderers[i].render() {
                Some(index_count) => {
                    calls.push(DrawCall { pos: self.renderers[i].pos(), index_count });
                    proof {
                        assert(kept.push(self@[i as int]).map_values(|e: EntryView| e.draw_call())
                            =~= kept.map_values(|e: EntryView| e.draw_call()).push(
                            self@[i as int].draw_call(),
                        ));
                    }
                },
                None => {},
            }
            i += 1;
        }
        proof {
            assert(self@.take(i as int) =~= self@);
        }
        calls
    }
}

} // verus!
