//! How many faces a chunk of sixteen blocks a side can show: never more
//! than one mesh holds.
//!
//! Of two cells that touch, at most one shows the side between them. So
//! along each axis the cells show at most one face for each cell, and one
//! more for each cell of the layer at the low end.

use vstd::prelude::*;
use crate::chunk::{Block, BlockPos, Chunk, Face};
use crate::search::{
    lemma_filter_step, lemma_sum_add, lemma_sum_le, lemma_sum_pairs, sum,
};
use crate::voxel_mesh::meshable_faces;

verus! {

/// 1 where `chunk` shows the side `face` of its `n`-th cell, else 0.
pub open spec fn shows(chunk: &Chunk<16, 16>, face: Face) -> spec_fn(int) -> int {
    |n: int|
        if chunk.exposed(Chunk::<16, 16>::index_pos(n), face) {
            1int
        } else {
            0int
        }
}

/// 1 where `chunk` shows the side `face` of its `n`-th cell and the cell
/// has a neighbour on that side, else 0.
pub open spec fn shows_inside(chunk: &Chunk<16, 16>, face: Face) -> spec_fn(int) -> int {
    |n: int|
        if Chunk::<16, 16>::neighbor_pos(Chunk::<16, 16>::index_pos(n), face) is Some
            && chunk.exposed(Chunk::<16, 16>::index_pos(n), face) {
            1int
        } else {
            0int
        }
}

/// 1 where the `n`-th cell has no neighbour through `face`, else 0.
pub open spec fn at_border(face: Face) -> spec_fn(int) -> int {
    |n: int|
        if Chunk::<16, 16>::neighbor_pos(Chunk::<16, 16>::index_pos(n), face) is None {
            1int
        } else {
            0int
        }
}

/// How far apart two cells that touch through `face` stand in the view.
pub open spec fn stride(face: Face) -> int {
    match face {
        Face::Front | Face::Back => 1,
        Face::Left | Face::Right => 16,
        Face::Up | Face::Down => 256,
    }
}

/// Whether `face` looks to the low end of its axis.
pub open spec fn looks_down(face: Face) -> bool {
    face == Face::Back || face == Face::Left || face == Face::Down
}

/// Among the first `n` cells, those without a neighbour on a low side.
proof fn lemma_border_count(away: Face, n: int)
    requires
        looks_down(away),
        0 <= n <= 4096,
    ensures
        sum(at_border(away), n) == match away {
            Face::Back => (n + 15) / 16,
            Face::Left => 16 * (n / 256) + if n % 256 < 16 {
                n % 256
            } else {
                16
            },
            _ => if n < 256 {
                n
            } else {
                256
            },
        },
    decreases n,
{
    if n > 0 {
        lemma_border_count(away, n - 1);
        Chunk::<16, 16>::lemma_index_pos(n - 1);
    }
}

/// Along one axis, a chunk shows at most one face for each cell and one
/// more for each cell of the low layer.
proof fn lemma_axis(chunk: &Chunk<16, 16>, toward: Face, away: Face)
    requires
        looks_down(away),
        toward == away.opposite(),
    ensures
        sum(shows(chunk, toward), 4096) + sum(shows(chunk, away), 4096) <= 4096 + 256,
{
    let f = shows(chunk, toward);
    let s = shows(chunk, away);
    let u = shows_inside(chunk, away);
    let b = at_border(away);
    let w = |i: int| u(i) + b(i);
    let d = stride(away);
    lemma_border_count(away, 4096);
    lemma_sum_add(u, b, w, 4096);
    lemma_sum_le(s, w, 4096);
    assert forall|i: int| 0 <= i < d implies #[trigger] u(i) == 0 by {
        Chunk::<16, 16>::lemma_index_pos(i);
    }
    assert forall|j: int| 0 <= j < 4096 - d implies #[trigger] f(j) + u(j + d) <= 1 by {
        Chunk::<16, 16>::lemma_index_pos(j);
        Chunk::<16, 16>::lemma_index_pos(j + d);
        let p = Chunk::<16, 16>::index_pos(j);
        let q = Chunk::<16, 16>::index_pos(j + d);
        if u(j + d) == 1 {
            let r = Chunk::<16, 16>::neighbor_pos(q, away).unwrap();
            Chunk::<16, 16>::lemma_cell_index(r);
            assert(Chunk::<16, 16>::cell_index(r) == j);
            assert(chunk.block_at(r) == Block::Air);
            assert(chunk.block_at(p) == Block::Air);
        }
    }
    lemma_sum_pairs(f, u, d, 4096);
}

/// The faces shown among the first `n` cells, counted face by face.
proof fn lemma_shown_by_face(chunk: &Chunk<16, 16>, n: int)
    requires
        0 <= n <= 4096,
    ensures
        Chunk::<16, 16>::face_candidates().take(6 * n).filter(chunk.exposure()).len() == sum(
            shows(chunk, Face::Front),
            n,
        ) + sum(shows(chunk, Face::Back), n) + sum(shows(chunk, Face::Up), n) + sum(
            shows(chunk, Face::Down),
            n,
        ) + sum(shows(chunk, Face::Left), n) + sum(shows(chunk, Face::Right), n),
    decreases n,
{
    let all = Chunk::<16, 16>::face_candidates();
    let seen = chunk.exposure();
    if n == 0 {
        reveal(Seq::filter);
        assert(all.take(0).filter(seen) =~= Seq::<(Face, BlockPos)>::empty());
    } else {
        lemma_shown_by_face(chunk, n - 1);
        let k = 6 * (n - 1);
        lemma_filter_step(all, seen, k);
        lemma_filter_step(all, seen, k + 1);
        lemma_filter_step(all, seen, k + 2);
        lemma_filter_step(all, seen, k + 3);
        lemma_filter_step(all, seen, k + 4);
        lemma_filter_step(all, seen, k + 5);
        let p = Chunk::<16, 16>::index_pos(n - 1);
        assert(all[k] == (Face::Front, p));
        assert(all[k + 1] == (Face::Back, p));
        assert(all[k + 2] == (Face::Up, p));
        assert(all[k + 3] == (Face::Down, p));
        assert(all[k + 4] == (Face::Left, p));
        assert(all[k + 5] == (Face::Right, p));
    }
}

/// A chunk of sixteen blocks a side never shows more than 13056 faces.
pub proof fn lemma_shows_at_most(chunk: &Chunk<16, 16>)
    ensures
        chunk.visible_faces().len() <= 13056,
{
    let all = Chunk::<16, 16>::face_candidates();
    lemma_shown_by_face(chunk, 4096);
    assert(all.take(24576) =~= all);
    lemma_axis(chunk, Face::Front, Face::Back);
    lemma_axis(chunk, Face::Up, Face::Down);
    lemma_axis(chunk, Face::Right, Face::Left);
}

/// A chunk of sixteen blocks a side can always be meshed.
pub proof fn lemma_always_meshable(chunk: &Chunk<16, 16>)
    ensures
        meshable_faces(chunk.visible_faces()),
{
    let all = Chunk::<16, 16>::face_candidates();
    let shown = chunk.visible_faces();
    lemma_shows_at_most(chunk);
    assert forall|i: int| 0 <= i < shown.len() implies {
        &&& (#[trigger] shown[i]).1.x < 16
        &&& shown[i].1.y < 16
        &&& shown[i].1.z < 16
    } by {
        assert(shown.contains(shown[i]));
        all.lemma_filter_contains_rev(chunk.exposure(), shown[i]);
        let k = choose|k: int| 0 <= k < all.len() && all[k] == shown[i];
        Chunk::<16, 16>::lemma_index_pos(k / 6);
    }
}

} // verus!
