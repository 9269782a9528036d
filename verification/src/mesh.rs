//! Vertices, indexed triangle meshes, and the builder that joins meshes into one.

use vstd::prelude::*;
use crate::chunk::{BlockPos, Face};

verus! {

/// Fixed-point steps per unit: a stored coordinate or colour channel is the
/// real value times `UNIT`, so 5 stands for one half and 10 for one.
pub const UNIT: i64 = 10;

/// A corner of a triangle: where it lies and what colour it has, both in
/// fixed-point steps of `1 / UNIT`.
#[derive(Debug, Clone, Copy, PartialEq, Eq)]
pub struct Vertex {
    pub position: [i64; 3],
    pub color: [i64; 3],
}

impl Vertex {
    /// Whether the vertex can be moved by `by` blocks without leaving the
    /// range of its coordinates.
    pub open spec fn fits(self, by: BlockPos) -> bool {
        &&& self.position[0] + UNIT * by.x <= i64::MAX
        &&& self.position[1] + UNIT * by.y <= i64::MAX
        &&& self.position[2] + UNIT * by.z <= i64::MAX
    }

    /// The vertex moved by `by` blocks: each coordinate grows by the like
    /// coordinate of `by`, the colour stays.
    pub open spec fn moved(self, by: BlockPos) -> Vertex {
        Vertex {
            position: [
                (self.position[0] + UNIT * by.x) as i64,
                (self.position[1] + UNIT * by.y) as i64,
                (self.position[2] + UNIT * by.z) as i64,
            ],
            color: self.color,
        }
    }

    /// The vertex at `position` with the colour `color`.
    pub fn new(position: [i64; 3], color: [i64; 3]) -> (v: Self)
        ensures
            v == (Vertex { position, color }),
    {
        Self { position, color }
    }

    /// A vertex at the origin corner of the block at `pos`.
    pub fn from_blockpos(pos: BlockPos, color: [i64; 3]) -> (v: Self)
        requires
            UNIT * pos.x <= i64::MAX,
            UNIT * pos.y <= i64::MAX,
            UNIT * pos.z <= i64::MAX,
        ensures
            v.position[0] == UNIT * pos.x,
            v.position[1] == UNIT * pos.y,
            v.position[2] == UNIT * pos.z,
            v.color == color,
    {
        let BlockPos { x, y, z } = pos;
        Self { position: [UNIT * (x as i64), UNIT * (y as i64), UNIT * (z as i64)], color }
    }

    /// Moves the vertex by `position` blocks.
    pub fn translate(&self, position: BlockPos) -> (v: Self)
        requires
            self.fits(position),
        ensures
            v == self.moved(position),
            v.position[0] == self.position[0] + UNIT * position.x,
            v.position[1] == self.position[1] + UNIT * position.y,
            v.position[2] == self.position[2] + UNIT * position.z,
            v.color == self.color,
    {
        let x = (self.position[0] as i128 + (UNIT as i128) * (position.x as i128)) as i64;
        let y = (self.position[1] as i128 + (UNIT as i128) * (position.y as i128)) as i64;
        let z = (self.position[2] as i128 + (UNIT as i128) * (position.z as i128)) as i64;
        Self { position: [x, y, z], color: self.color }
    }
}

/// The vertex at (x, y, z) with the colour (r, g, b), all in steps of `1 / UNIT`.
pub open spec fn corner(x: int, y: int, z: int, r: int, g: int, b: int) -> Vertex {
    Vertex { position: [x as i64, y as i64, z as i64], color: [r as i64, g as i64, b as i64] }
}

/// The least number above every index of `indices`; 0 where there is none.
pub open spec fn index_span(indices: Seq<u16>) -> int
    decreases indices.len(),
{
    if indices.len() == 0 {
        0
    } else {
        let rest = index_span(indices.drop_last());
        if indices.last() + 1 > rest {
            indices.last() + 1
        } else {
            rest
        }
    }
}

/// `index_span` bounds every index, and is the least such bound.
pub proof fn lemma_index_span(indices: Seq<u16>)
    ensures
        0 <= index_span(indices) <= u16::MAX + 1,
        forall|i: int| 0 <= i < indices.len() ==> indices[i] < index_span(indices),
        indices.len() == 0 ==> index_span(indices) == 0,
        indices.len() > 0 ==> exists|i: int| 0 <= i < indices.len() && indices[i] + 1 == index_span(indices),
    decreases indices.len(),
{
    if indices.len() > 0 {
        let rest = indices.drop_last();
        lemma_index_span(rest);
        assert forall|i: int| 0 <= i < indices.len() implies indices[i] < index_span(indices) by {
            if i < rest.len() {
                assert(indices[i] == rest[i]);
            }
        }
        if indices.last() + 1 > index_span(rest) {
            assert(indices[indices.len() - 1] + 1 == index_span(indices));
        } else {
            let i = choose|i: int| 0 <= i < rest.len() && rest[i] + 1 == index_span(rest);
            assert(indices[i] + 1 == index_span(indices));
        }
    }
}

/// `vertices`, each moved by `by` blocks.
pub open spec fn moved_vertices(vertices: Seq<Vertex>, by: BlockPos) -> Seq<Vertex> {
    Seq::new(vertices.len(), |i: int| vertices[i].moved(by))
}

/// `indices`, each raised by `base`.
pub open spec fn raised_indices(indices: Seq<u16>, base: int) -> Seq<u16> {
    Seq::new(indices.len(), |i: int| (base + indices[i]) as u16)
}

/// The corners of a mesh and the triangles between them, three indices each.
pub struct MeshView {
    pub vertices: Seq<Vertex>,
    pub indices: Seq<u16>,
}

impl MeshView {
    /// The indices come in threes, and each names a vertex of the mesh.
    pub open spec fn well_formed(self) -> bool {
        &&& self.indices.len() % 3 == 0
        &&& forall|i: int| 0 <= i < self.indices.len() ==> self.indices[i] < self.vertices.len()
    }

    /// Whether every vertex can be moved by `by` blocks.
    pub open spec fn fits(self, by: BlockPos) -> bool {
        forall|i: int| 0 <= i < self.vertices.len() ==> (#[trigger] self.vertices[i]).fits(by)
    }
}

/// An indexed triangle list, ready to be drawn.
#[derive(Debug, PartialEq, Eq)]
pub struct Mesh {
    vertices: Vec<Vertex>,
    indices: Vec<u16>,
}

impl View for Mesh {
    type V = MeshView;

    closed spec fn view(&self) -> MeshView {
        MeshView { vertices: self.vertices@, indices: self.indices@ }
    }
}

impl Clone for Mesh {
    fn clone(&self) -> (mesh: Self)
        ensures
            mesh@ == self@,
    {
        proof {
            use_type_invariant(self);
        }
        let vertices = self.vertices.clone();
        let indices = self.indices.clone();
        proof {
            assert(vertices@ =~= self.vertices@);
            assert(indices@ =~= self.indices@);
        }
        Self { vertices, indices }
    }
}

/// The two bytes of each index, low byte first.
pub open spec fn index_bytes(indices: Seq<u16>) -> Seq<u8> {
    Seq::new(
        2 * indices.len(),
        |k: int|
            if k % 2 == 0 {
                (indices[k / 2] % 256) as u8
            } else {
                (indices[k / 2] / 256) as u8
            },
    )
}

impl Mesh {
    #[verifier::type_invariant]
    spec fn inv(&self) -> bool {
        self@.well_formed()
    }

    /// A mesh of the given vertices and triangle indices, which come in
    /// threes and each name one of the vertices.
    pub fn new(vertices: Vec<Vertex>, indices: Vec<u16>) -> (mesh: Self)
        requires
            (MeshView { vertices: vertices@, indices: indices@ }).well_formed(),
        ensures
            mesh@ == (MeshView { vertices: vertices@, indices: indices@ }),
    {
        Self { vertices, indices }
    }

    /// A triangle in the plane z = 0.
    pub fn triangle() -> (mesh: Self)
        ensures
            mesh@.vertices == seq![
                corner(5, -5, 0, 10, 0, 0),
                corner(0, 5, 0, 0, 10, 0),
                corner(-5, -5, 0, 0, 0, 10),
            ],
            mesh@.indices == seq![0u16, 1, 2],
    {
        Self {
            vertices: vec![
                Vertex::new([5, -5, 0], [10, 0, 0]),
                Vertex::new([0, 5, 0], [0, 10, 0]),
                Vertex::new([-5, -5, 0], [0, 0, 10]),
            ],
            indices: vec![0, 1, 2],
        }
    }

    /// A unit square in the plane z = 0.
    pub fn quad() -> (mesh: Self)
        ensures
            mesh@.vertices == seq![
                corner(-5, 5, 0, 10, 0, 0),
                corner(-5, -5, 0, 0, 10, 0),
                corner(5, -5, 0, 0, 0, 10),
                corner(5, 5, 0, 10, 10, 10),
            ],
            mesh@.indices == seq![0u16, 1, 2, 0, 2, 3],
    {
        Self {
            vertices: vec![
                Vertex::new([-5, 5, 0], [10, 0, 0]),
                Vertex::new([-5, -5, 0], [0, 10, 0]),
                Vertex::new([5, -5, 0], [0, 0, 10]),
                Vertex::new([5, 5, 0], [10, 10, 10]),
            ],
            indices: vec![0, 1, 2, 0, 2, 3],
        }
    }

    /// Two triangles that meet at the origin, as a marker.
    pub fn weird() -> (mesh: Self)
        ensures
            mesh@.vertices == seq![
                corner(-5, -5, 0, 10, 0, 0),
                corner(0, -5, 0, 0, 10, 0),
                corner(-5, 0, 0, 0, 0, 10),
                corner(5, 5, 0, 10, 0, 0),
                corner(0, 5, 0, 0, 10, 0),
                corner(5, 0, 0, 0, 0, 10),
            ],
            mesh@.indices == seq![0u16, 1, 2, 3, 4, 5],
    {
        Self {
            vertices: vec![
                Vertex::new([-5, -5, 0], [10, 0, 0]),
                Vertex::new([0, -5, 0], [0, 10, 0]),
                Vertex::new([-5, 0, 0], [0, 0, 10]),
                Vertex::new([5, 5, 0], [10, 0, 0]),
                Vertex::new([0, 5, 0], [0, 10, 0]),
                Vertex::new([5, 0, 0], [0, 0, 10]),
            ],
            indices: vec![0, 1, 2, 3, 4, 5],
        }
    }

    /// The vertices of the mesh.
    pub fn vertices(&self) -> (vertices: &Vec<Vertex>)
        ensures
            vertices@ == self@.vertices,
            self@.well_formed(),
    {
        proof {
            use_type_invariant(self);
        }
        &self.vertices
    }

    /// The triangle indices of the mesh.
    pub fn indices(&self) -> (indices: &Vec<u16>)
        ensures
            indices@ == self@.indices,
            self@.well_formed(),
    {
        proof {
            use_type_invariant(self);
        }
        &self.indices
    }

    /// How many indices a draw call for the mesh covers, as the 32-bit
    /// number that a draw call takes.
    pub fn indices_count(&self) -> (count: u32)
        ensures
            count == self@.indices.len() as u32,
    {
        self.indices.len() as u32
    }

    /// The index buffer as bytes: two for each index, low byte first.
    pub fn index_data(&self) -> (bytes: Vec<u8>)
        ensures
            bytes@ == index_bytes(self@.indices),
    {
        let mut bytes: Vec<u8> = Vec::new();
        let mut i: usize = 0;
        while i < self.indices.len()
            invariant
                i <= self.indices.len(),
                bytes@ == index_bytes(self.indices@.take(i as int)),
            decreases self.indices.len() - i,
        {
            let index = self.indices[i];
            bytes.push((index % 256) as u8);
            bytes.push((index / 256) as u8);
            proof {
                assert(bytes@ =~= index_bytes(self.indices@.take(i + 1)));
            }
            i += 1;
        }
        proof {
            assert(self.indices@.take(i as int) =~= self.indices@);
        }
        bytes
    }
}

/// What a builder has gathered: the mesh so far, and the number from which
/// the indices of the next mesh are counted.
pub struct BuilderState {
    pub mesh: MeshView,
    pub next_index: int,
}

impl BuilderState {
    /// Nothing gathered yet.
    pub open spec fn empty() -> BuilderState {
        BuilderState {
            mesh: MeshView { vertices: Seq::empty(), indices: Seq::empty() },
            next_index: 0,
        }
    }

    /// Every index is below `next_index`, which is at most the number of
    /// vertices and fits an index; the indices come in threes.
    pub open spec fn well_formed(self) -> bool {
        &&& 0 <= self.next_index <= self.mesh.vertices.len()
        &&& self.next_index <= u16::MAX
        &&& self.mesh.indices.len() % 3 == 0
        &&& forall|i: int| 0 <= i < self.mesh.indices.len() ==> self.mesh.indices[i] < self.next_index
    }

    /// The state after `mesh` has been added at the block `at`: its
    /// vertices follow, moved by `at`; its indices follow, raised by
    /// `next_index`; and `next_index` moves past the highest of them.
    pub open spec fn push(self, mesh: MeshView, at: BlockPos) -> BuilderState {
        BuilderState {
            mesh: MeshView {
                vertices: self.mesh.vertices + moved_vertices(mesh.vertices, at),
                indices: self.mesh.indices + raised_indices(mesh.indices, self.next_index),
            },
            next_index: self.next_index + index_span(mesh.indices),
        }
    }

    /// The state after each of `pushes` has been added, first to last.
    pub open spec fn push_all(self, pushes: Seq<(MeshView, BlockPos)>) -> BuilderState
        decreases pushes.len(),
    {
        if pushes.len() == 0 {
            self
        } else {
            self.push_all(pushes.drop_last()).push(pushes.last().0, pushes.last().1)
        }
    }

    /// Adding a well-formed mesh keeps the state well-formed, as long as the
    /// indices still fit.
    pub proof fn lemma_push_well_formed(self, mesh: MeshView, at: BlockPos)
        requires
            self.well_formed(),
            mesh.well_formed(),
            self.next_index + index_span(mesh.indices) <= u16::MAX,
        ensures
            self.push(mesh, at).well_formed(),
            (MeshView {
                vertices: self.push(mesh, at).mesh.vertices,
                indices: self.push(mesh, at).mesh.indices,
            }).well_formed(),
    {
        lemma_index_span(mesh.indices);
        let after = self.push(mesh, at);
        if mesh.indices.len() > 0 {
            let i = choose|i: int| 0 <= i < mesh.indices.len() && mesh.indices[i] + 1 == index_span(mesh.indices);
            assert(mesh.indices[i] < mesh.vertices.len());
        }
        assert forall|i: int| 0 <= i < after.mesh.indices.len() implies after.mesh.indices[i]
            < after.next_index by {
            if i >= self.mesh.indices.len() {
                let j = i - self.mesh.indices.len();
                assert(after.mesh.indices[i] == raised_indices(mesh.indices, self.next_index)[j]);
                assert(mesh.indices[j] < index_span(mesh.indices));
            }
        }
    }
}

impl BuilderState {
    /// Pushing N meshes of four vertices and six indices each gives 4N
    /// vertices and 6N indices, and every index is below 4N.
    pub proof fn lemma_quad_pushes(pushes: Seq<(MeshView, BlockPos)>)
        requires
            forall|i: int|
                0 <= i < pushes.len() ==> {
                    &&& (#[trigger] pushes[i]).0.well_formed()
                    &&& pushes[i].0.vertices.len() == 4
                    &&& pushes[i].0.indices.len() == 6
                },
            4 * pushes.len() <= u16::MAX,
        ensures
            ({
                let built = Self::empty().push_all(pushes);
                &&& built.mesh.vertices.len() == 4 * pushes.len()
                &&& built.mesh.indices.len() == 6 * pushes.len()
                &&& forall|k: int|
                    0 <= k < built.mesh.indices.len() ==> built.mesh.indices[k] < 4 * pushes.len()
                &&& 0 <= built.next_index <= 4 * pushes.len()
                &&& built.well_formed()
                &&& built.mesh.well_formed()
            }),
        decreases pushes.len(),
    {
        if pushes.len() > 0 {
            let before = pushes.drop_last();
            assert forall|i: int| 0 <= i < before.len() implies {
                &&& (#[trigger] before[i]).0.well_formed()
                &&& before[i].0.vertices.len() == 4
                &&& before[i].0.indices.len() == 6
            } by {
                assert(before[i] == pushes[i]);
            }
            Self::lemma_quad_pushes(before);
            let state = Self::empty().push_all(before);
            let (mesh, at) = pushes.last();
            assert(pushes[pushes.len() - 1].0.well_formed());
            lemma_index_span(mesh.indices);
            if mesh.indices.len() > 0 {
                let i = choose|i: int|
                    0 <= i < mesh.indices.len() && mesh.indices[i] + 1 == index_span(mesh.indices);
                assert(mesh.indices[i] < mesh.vertices.len());
            }
            state.lemma_push_well_formed(mesh, at);
        }
    }
}

/// Gathers meshes into one, in the order in which they are pushed.
pub struct MeshBuilder {
    vertices: Vec<Vertex>,
    indices: Vec<u16>,
    curr_idx: u16,
}

impl View for MeshBuilder {
    type V = BuilderState;

    closed spec fn view(&self) -> BuilderState {
        BuilderState {
            mesh: MeshView { vertices: self.vertices@, indices: self.indices@ },
            next_index: self.curr_idx as int,
        }
    }
}

impl MeshBuilder {
    /// What has been gathered is well-formed (see `BuilderState`).
    pub open spec fn well_formed(&self) -> bool {
        self@.well_formed()
    }

    /// A builder that has gathered nothing.
    pub fn new() -> (builder: Self)
        ensures
            builder@ == BuilderState::empty(),
            builder.well_formed(),
    {
        Self { vertices: Vec::new(), indices: Vec::new(), curr_idx: 0 }
    }

    /// Adds `mesh`, moved to the block at `position`, behind what has been
    /// gathered so far.
    pub fn push(&mut self, mesh: Mesh, position: BlockPos)
        requires
            old(self).well_formed(),
            old(self)@.next_index + index_span(mesh@.indices) <= u16::MAX,
            mesh@.fits(position),
        ensures
            final(self)@ == old(self)@.push(mesh@, position),
            final(self).well_formed(),
    {
        proof {
            use_type_invariant(&mesh);
            lemma_index_span(mesh@.indices);
            old(self)@.lemma_push_well_formed(mesh@, position);
        }
        let mut span: u32 = 0;
        let mut i: usize = 0;
        while i < mesh.indices.len()
            invariant
                i <= mesh.indices.len(),
                span == index_span(mesh.indices@.take(i as int)),
                span <= index_span(mesh.indices@),
                self.curr_idx == old(self).curr_idx,
                self.vertices == old(self).vertices,
                self.indices@ == old(self).indices@ + raised_indices(
                    mesh.indices@.take(i as int),
                    old(self).curr_idx as int,
                ),
                old(self).curr_idx + index_span(mesh.indices@) <= u16::MAX,
                forall|j: int| 0 <= j < mesh.indices@.len() ==> mesh.indices@[j] < index_span(mesh.indices@),
            decreases mesh.indices.len() - i,
        {
            let index = mesh.indices[i];
            proof {
                assert(mesh.indices@.take(i + 1).drop_last() =~= mesh.indices@.take(i as int));
                assert(mesh.indices@.take(i + 1).last() == index);
            }
            if index as u32 + 1 > span {
                span = index as u32 + 1;
            }
            self.indices.push(self.curr_idx + index);
            proof {
                assert(self.indices@ =~= old(self).indices@ + raised_indices(
                    mesh.indices@.take(i + 1),
                    old(self).curr_idx as int,
                ));
            }
            i += 1;
        }
        proof {
            assert(mesh.indices@.take(i as int) =~= mesh.indices@);
        }
        self.curr_idx = self.curr_idx + span as u16;
        let mut k: usize = 0;
        while k < mesh.vertices.len()
            invariant
                k <= mesh.vertices.len(),
                self.curr_idx == old(self).curr_idx + index_span(mesh.indices@),
                self.indices@ == old(self).indices@ + raised_indices(
                    mesh.indices@,
                    old(self).curr_idx as int,
                ),
                self.vertices@ == old(self).vertices@ + moved_vertices(
                    mesh.vertices@.take(k as int),
                    position,
                ),
                mesh@.fits(position),
            decreases mesh.vertices.len() - k,
        {
            proof {
                assert(mesh@.vertices[k as int].fits(position));
            }
            let vertex = mesh.vertices[k].translate(position);
            self.vertices.push(vertex);
            proof {
                assert(self.vertices@ =~= old(self).vertices@ + moved_vertices(
                    mesh.vertices@.take(k + 1),
                    position,
                ));
            }
            k += 1;
        }
        proof {
            assert(mesh.vertices@.take(k as int) =~= mesh.vertices@);
        }
    }

    /// The mesh of everything that was pushed.
    pub fn build(self) -> (mesh: Mesh)
        requires
            self.well_formed(),
        ensures
            mesh@ == self@.mesh,
            mesh@.well_formed(),
    {
        Mesh::new(self.vertices, self.indices)
    }
}

/// The two triangles of a face, over its four corners.
pub open spec fn quad_indices() -> Seq<u16> {
    seq![0u16, 1, 2, 0, 3, 1]
}

/// The indices of a face run over its four corners.
pub proof fn lemma_quad_index_span()
    ensures
        quad_indices().len() == 6,
        index_span(quad_indices()) == 4,
{
    let q = quad_indices();
    reveal_with_fuel(index_span, 8);
    assert(q.drop_last() =~= seq![0u16, 1, 2, 0, 3]);
    assert(q.drop_last().drop_last() =~= seq![0u16, 1, 2, 0]);
    assert(q.drop_last().drop_last().drop_last() =~= seq![0u16, 1, 2]);
    assert(q.drop_last().drop_last().drop_last().drop_last() =~= seq![0u16, 1]);
    assert(q.drop_last().drop_last().drop_last().drop_last().drop_last() =~= seq![0u16]);
}

impl Face {
    /// The four corners of the face on the unit cube around the origin. The
    /// colours are red, green, blue and white, in this order.
    pub open spec fn corners(self) -> Seq<Vertex> {
        match self {
            Face::Front => seq![
                corner(5, -5, 5, 10, 0, 0),
                corner(5, 5, -5, 0, 10, 0),
                corner(5, -5, -5, 0, 0, 10),
                corner(5, 5, 5, 10, 10, 10),
            ],
            Face::Back => seq![
                corner(-5, -5, 5, 10, 0, 0),
                corner(-5, 5, -5, 0, 10, 0),
                corner(-5, -5, -5, 0, 0, 10),
                corner(-5, 5, 5, 10, 10, 10),
            ],
            Face::Up => seq![
                corner(-5, 5, 5, 10, 0, 0),
                corner(5, 5, -5, 0, 10, 0),
                corner(-5, 5, -5, 0, 0, 10),
                corner(5, 5, 5, 10, 10, 10),
            ],
            Face::Down => seq![
                corner(-5, -5, 5, 10, 0, 0),
                corner(5, -5, -5, 0, 10, 0),
                corner(-5, -5, -5, 0, 0, 10),
                corner(5, -5, 5, 10, 10, 10),
            ],
            Face::Left => seq![
                corner(5, -5, -5, 10, 0, 0),
                corner(-5, 5, -5, 0, 10, 0),
                corner(-5, -5, -5, 0, 0, 10),
                corner(5, 5, -5, 10, 10, 10),
            ],
            Face::Right => seq![
                corner(5, -5, 5, 10, 0, 0),
                corner(-5, 5, 5, 0, 10, 0),
                corner(-5, -5, 5, 0, 0, 10),
                corner(5, 5, 5, 10, 10, 10),
            ],
        }
    }

    /// The face as a mesh: its corners and `quad_indices`.
    pub open spec fn quad(self) -> MeshView {
        MeshView { vertices: self.corners(), indices: quad_indices() }
    }

    /// Every corner of a face lies half a block from the centre, on the side
    /// to which the face's offset points.
    pub proof fn lemma_corners_face_outward(self, i: int)
        requires
            0 <= i < 4,
        ensures
            self.corners().len() == 4,
            self.offset().0 != 0 ==> self.corners()[i].position[0] * 2 == UNIT * self.offset().0,
            self.offset().1 != 0 ==> self.corners()[i].position[1] * 2 == UNIT * self.offset().1,
            self.offset().2 != 0 ==> self.corners()[i].position[2] * 2 == UNIT * self.offset().2,
    {
    }

    /// The geometry of the face on the unit cube around the origin.
    pub fn mesh(&self) -> (mesh: Mesh)
        ensures
            mesh@ == self.quad(),
            index_span(mesh@.indices) == 4,
    {
        proof {
            lemma_quad_index_span();
        }
        let red: [i64; 3] = [10, 0, 0];
        let green: [i64; 3] = [0, 10, 0];
        let blue: [i64; 3] = [0, 0, 10];
        let white: [i64; 3] = [10, 10, 10];
        let vertices = match self {
            Face::Front => vec![
                Vertex::new([5, -5, 5], red),
                Vertex::new([5, 5, -5], green),
                Vertex::new([5, -5, -5], blue),
                Vertex::new([5, 5, 5], white),
            ],
            Face::Back => vec![
                Vertex::new([-5, -5, 5], red),
                Vertex::new([-5, 5, -5], green),
                Vertex::new([-5, -5, -5], blue),
                Vertex::new([-5, 5, 5], white),
            ],
            Face::Up => vec![
                Vertex::new([-5, 5, 5], red),
                Vertex::new([5, 5, -5], green),
                Vertex::new([-5, 5, -5], blue),
                Vertex::new([5, 5, 5], white),
            ],
            Face::Down => vec![
                Vertex::new([-5, -5, 5], red),
                Vertex::new([5, -5, -5], green),
                Vertex::new([-5, -5, -5], blue),
                Vertex::new([5, -5, 5], white),
            ],
            Face::Left => vec![
                Vertex::new([5, -5, -5], red),
                Vertex::new([-5, 5, -5], green),
                Vertex::new([-5, -5, -5], blue),
                Vertex::new([5, 5, -5], white),
            ],
            Face::Right => vec![
                Vertex::new([5, -5, 5], red),
                Vertex::new([-5, 5, 5], green),
                Vertex::new([-5, -5, 5], blue),
                Vertex::new([5, 5, 5], white),
            ],
        };
        let indices: Vec<u16> = vec![0, 1, 2, 0, 3, 1];
        proof {
            assert(vertices@ =~= self.corners());
            assert(indices@ =~= quad_indices());
        }
        Mesh::new(vertices, indices)
    }
}

} // verus!
