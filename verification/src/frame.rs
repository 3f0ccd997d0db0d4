//! The per-frame synchronization protocol between demand and supply.
//!
//! Within one frame, all releases from all observing views are applied to
//! the atlas before any requests from any view, so a slot freed by one
//! view is immediately reusable by another view's request in the same
//! frame. A fatal atlas error (capacity exhaustion, unbalanced release)
//! stops the frame at once so the pipeline can halt deterministically.

use vstd::prelude::*;
use crate::atlas::{AtlasError, AtlasModel, TileAtlas};
use crate::coord::TileCoordinate;
use crate::tree::TileTree;

verus! {

/// The atlas after releasing the coordinates of `cs` in order, or the
/// first fatal error.
pub open spec fn spec_apply_releases(m: AtlasModel, cs: Seq<TileCoordinate>) -> Result<
    AtlasModel,
    AtlasError,
>
    decreases cs.len(),
{
    if cs.len() == 0 {
        Ok(m)
    } else {
        match m.spec_release(cs[0]) {
            Ok(m2) => spec_apply_releases(m2, cs.drop_first()),
            Err(e) => Err(e),
        }
    }
}

/// The atlas after requesting the coordinates of `cs` in order, or the
/// first fatal error.
pub open spec fn spec_apply_requests(m: AtlasModel, cs: Seq<TileCoordinate>) -> Result<
    AtlasModel,
    AtlasError,
>
    decreases cs.len(),
{
    if cs.len() == 0 {
        Ok(m)
    } else {
        match m.spec_request(cs[0]) {
            Ok(m2) => spec_apply_requests(m2, cs.drop_first()),
            Err(e) => Err(e),
        }
    }
}

/// The release events of the first `t` views, in view order.
pub open spec fn spec_frame_releases(trees: Seq<TileTree>, t: int) -> Seq<TileCoordinate>
    decreases t,
{
    if t <= 0 {
        Seq::empty()
    } else {
        spec_frame_releases(trees, t - 1) + trees[t - 1].released_tiles@
    }
}

/// The request events of the first `t` views, in view order.
pub open spec fn spec_frame_requests(trees: Seq<TileTree>, t: int) -> Seq<TileCoordinate>
    decreases t,
{
    if t <= 0 {
        Seq::empty()
    } else {
        spec_frame_requests(trees, t - 1) + trees[t - 1].requested_tiles@
    }
}

/// The atlas after one frame: all views' releases, then all views'
/// requests, or the first fatal error.
pub open spec fn spec_apply_frame(m: AtlasModel, trees: Seq<TileTree>) -> Result<
    AtlasModel,
    AtlasError,
> {
    match spec_apply_releases(m, spec_frame_releases(trees, trees.len() as int)) {
        Ok(m1) => spec_apply_requests(m1, spec_frame_requests(trees, trees.len() as int)),
        Err(e) => Err(e),
    }
}

/// Releasing a concatenation releases the first part, then the second.
proof fn lemma_apply_releases_append(m: AtlasModel, s1: Seq<TileCoordinate>, s2: Seq<
    TileCoordinate,
>)
    ensures
        spec_apply_releases(m, s1 + s2) == match spec_apply_releases(m, s1) {
            Ok(m1) => spec_apply_releases(m1, s2),
            Err(e) => Err(e),
        },
    decreases s1.len(),
{
    if s1.len() == 0 {
        assert(s1 + s2 =~= s2);
    } else {
        assert((s1 + s2)[0] == s1[0]);
        assert((s1 + s2).drop_first() =~= s1.drop_first() + s2);
        match m.spec_release(s1[0]) {
            Ok(m2) => {
                lemma_apply_releases_append(m2, s1.drop_first(), s2);
            },
            Err(_) => {},
        }
    }
}

/// Requesting a concatenation requests the first part, then the second.
proof fn lemma_apply_requests_append(m: AtlasModel, s1: Seq<TileCoordinate>, s2: Seq<
    TileCoordinate,
>)
    ensures
        spec_apply_requests(m, s1 + s2) == match spec_apply_requests(m, s1) {
            Ok(m1) => spec_apply_requests(m1, s2),
            Err(e) => Err(e),
        },
    decreases s1.len(),
{
    if s1.len() == 0 {
        assert(s1 + s2 =~= s2);
    } else {
        assert((s1 + s2)[0] == s1[0]);
        assert((s1 + s2).drop_first() =~= s1.drop_first() + s2);
        match m.spec_request(s1[0]) {
            Ok(m2) => {
                lemma_apply_requests_append(m2, s1.drop_first(), s2);
            },
            Err(_) => {},
        }
    }
}

/// The release events of the first `t` views are a prefix of those of the
/// first `n` views.
proof fn lemma_frame_releases_prefix(trees: Seq<TileTree>, t: int, n: int)
    requires
        0 <= t <= n,
    ensures
        exists|s: Seq<TileCoordinate>|
            spec_frame_releases(trees, n) == #[trigger] (spec_frame_releases(trees, t) + s),
    decreases n - t,
{
    if t == n {
        assert(spec_frame_releases(trees, n) == spec_frame_releases(trees, t) + Seq::<
            TileCoordinate,
        >::empty()) by {
            assert(spec_frame_releases(trees, t) + Seq::<TileCoordinate>::empty()
                =~= spec_frame_releases(trees, t));
        }
    } else {
        lemma_frame_releases_prefix(trees, t, n - 1);
        let s = choose|s: Seq<TileCoordinate>|
            spec_frame_releases(trees, n - 1) == spec_frame_releases(trees, t) + s;
        assert(spec_frame_releases(trees, n) == spec_frame_releases(trees, t) + (s + trees[n
            - 1].released_tiles@)) by {
            assert((spec_frame_releases(trees, t) + s) + trees[n - 1].released_tiles@
                =~= spec_frame_releases(trees, t) + (s + trees[n - 1].released_tiles@));
        }
    }
}

/// The request events of the first `t` views are a prefix of those of the
/// first `n` views.
proof fn lemma_frame_requests_prefix(trees: Seq<TileTree>, t: int, n: int)
    requires
        0 <= t <= n,
    ensures
        exists|s: Seq<TileCoordinate>|
            spec_frame_requests(trees, n) == #[trigger] (spec_frame_requests(trees, t) + s),
    decreases n - t,
{
    if t == n {
        assert(spec_frame_requests(trees, n) == spec_frame_requests(trees, t) + Seq::<
            TileCoordinate,
        >::empty()) by {
            assert(spec_frame_requests(trees, t) + Seq::<TileCoordinate>::empty()
                =~= spec_frame_requests(trees, t));
        }
    } else {
        lemma_frame_requests_prefix(trees, t, n - 1);
        let s = choose|s: Seq<TileCoordinate>|
            spec_frame_requests(trees, n - 1) == spec_frame_requests(trees, t) + s;
        assert(spec_frame_requests(trees, n) == spec_frame_requests(trees, t) + (s + trees[n
            - 1].requested_tiles@)) by {
            assert((spec_frame_requests(trees, t) + s) + trees[n - 1].requested_tiles@
                =~= spec_frame_requests(trees, t) + (s + trees[n - 1].requested_tiles@));
        }
    }
}

/// Applies a list of releases to the atlas in order, stopping at the first
/// fatal error.
pub fn apply_releases(atlas: &mut TileAtlas, events: &Vec<TileCoordinate>) -> (r: Result<
    (),
    AtlasError,
>)
    requires
        old(atlas).wf(),
    ensures
        final(atlas).wf(),
        final(atlas).attachments == old(atlas).attachments,
        match spec_apply_releases(old(atlas).model(), events@) {
            Ok(m) => r is Ok && final(atlas).model() == m,
            Err(e) => r == Err::<(), AtlasError>(e),
        },
{
    let n = events.len();
    let mut i: usize = 0;
    while i < n
        invariant
            i <= n,
            n == events@.len(),
            old(atlas).wf(),
            atlas.wf(),
            atlas.attachments == old(atlas).attachments,
            spec_apply_releases(old(atlas).model(), events@.take(i as int)) == Ok::<
                AtlasModel,
                AtlasError,
            >(atlas.model()),
        decreases n - i,
    {
        let ghost pre = atlas.model();
        let res = atlas.release_tile(events[i]);
        proof {
            lemma_apply_releases_append(
                old(atlas).model(),
                events@.take(i as int),
                seq![events@[i as int]],
            );
            assert(events@.take(i as int + 1) =~= events@.take(i as int) + seq![events@[i as int]]);
            assert(spec_apply_releases(pre, seq![events@[i as int]]) == match pre.spec_release(
                events@[i as int],
            ) {
                Ok(m2) => Ok::<AtlasModel, AtlasError>(m2),
                Err(e) => Err(e),
            }) by {
                reveal_with_fuel(spec_apply_releases, 2);
                assert(seq![events@[i as int]].drop_first() =~= Seq::<TileCoordinate>::empty());
            }
        }
        match res {
            Ok(_) => {},
            Err(e) => {
                proof {
                    assert(events@ =~= events@.take(i as int + 1) + events@.skip(i as int + 1));
                    lemma_apply_releases_append(
                        old(atlas).model(),
                        events@.take(i as int + 1),
                        events@.skip(i as int + 1),
                    );
                }
                return Err(e);
            },
        }
        i = i + 1;
    }
    proof {
        assert(events@.take(n as int) =~= events@);
    }
    Ok(())
}

/// Applies a list of requests to the atlas in order, stopping at the first
/// fatal error.
pub fn apply_requests(atlas: &mut TileAtlas, events: &Vec<TileCoordinate>) -> (r: Result<
    (),
    AtlasError,
>)
    requires
        old(atlas).wf(),
    ensures
        final(atlas).wf(),
        final(atlas).attachments == old(atlas).attachments,
        match spec_apply_requests(old(atlas).model(), events@) {
            Ok(m) => r is Ok && final(atlas).model() == m,
            Err(e) => r == Err::<(), AtlasError>(e),
        },
{
    let n = events.len();
    let mut i: usize = 0;
    while i < n
        invariant
            i <= n,
            n == events@.len(),
            old(atlas).wf(),
            atlas.wf(),
            atlas.attachments == old(atlas).attachments,
            spec_apply_requests(old(atlas).model(), events@.take(i as int)) == Ok::<
                AtlasModel,
                AtlasError,
            >(atlas.model()),
        decreases n - i,
    {
        let ghost pre = atlas.model();
        let res = atlas.request_tile(events[i]);
        proof {
            lemma_apply_requests_append(
                old(atlas).model(),
                events@.take(i as int),
                seq![events@[i as int]],
            );
            assert(events@.take(i as int + 1) =~= events@.take(i as int) + seq![events@[i as int]]);
            assert(spec_apply_requests(pre, seq![events@[i as int]]) == match pre.spec_request(
                events@[i as int],
            ) {
                Ok(m2) => Ok::<AtlasModel, AtlasError>(m2),
                Err(e) => Err(e),
            }) by {
                reveal_with_fuel(spec_apply_requests, 2);
                assert(seq![events@[i as int]].drop_first() =~= Seq::<TileCoordinate>::empty());
            }
        }
        match res {
            Ok(_) => {},
            Err(e) => {
                proof {
                    assert(events@ =~= events@.take(i as int + 1) + events@.skip(i as int + 1));
                    lemma_apply_requests_append(
                        old(atlas).model(),
                        events@.take(i as int + 1),
                        events@.skip(i as int + 1),
                    );
                }
                return Err(e);
            },
        }
        i = i + 1;
    }
    proof {
        assert(events@.take(n as int) =~= events@);
    }
    Ok(())
}

/// Applies one frame's demand changes from all views to their shared
/// atlas: every view's releases first, then every view's requests, each
/// in view order, draining the views' event queues.
///
/// A fatal error stops the frame at once and is handed to the caller,
/// which is expected to halt the pipeline; the atlas then reflects the
/// events applied up to the error and stays well formed.
pub fn apply_frame(atlas: &mut TileAtlas, trees: &mut Vec<TileTree>) -> (r: Result<
    (),
    AtlasError,
>)
    requires
        old(atlas).wf(),
    ensures
        final(atlas).wf(),
        final(atlas).attachments == old(atlas).attachments,
        match spec_apply_frame(old(atlas).model(), old(trees)@) {
            Ok(m) => {
                &&& r is Ok
                &&& final(atlas).model() == m
                &&& final(trees)@.len() == old(trees)@.len()
                &&& forall|t: int|
                    0 <= t < old(trees)@.len() ==> {
                        let t0 = old(trees)@[t];
                        let t1 = #[trigger] final(trees)@[t];
                        &&& t1.cells == t0.cells
                        &&& t1.tree_size == t0.tree_size
                        &&& t1.lod_count == t0.lod_count
                        &&& t1.shape == t0.shape
                        &&& t1.released_tiles@.len() == 0
                        &&& t1.requested_tiles@.len() == 0
                    }
            },
            Err(e) => r == Err::<(), AtlasError>(e),
        },
{
    let n = trees.len();
    let ghost m0 = old(atlas).model();
    let ghost trees0 = old(trees)@;
    let mut drained: Vec<TileTree> = Vec::new();
    let mut t: usize = 0;
    while t < n
        invariant
            t <= n,
            n == trees0.len(),
            m0 == old(atlas).model(),
            trees0 == old(trees)@,
            old(atlas).wf(),
            atlas.wf(),
            atlas.attachments == old(atlas).attachments,
            trees@ =~= trees0.skip(t as int),
            drained@.len() == t,
            forall|k: int|
                0 <= k < t ==> {
                    let t0 = trees0[k];
                    let t1 = #[trigger] drained@[k];
                    &&& t1.cells == t0.cells
                    &&& t1.tree_size == t0.tree_size
                    &&& t1.lod_count == t0.lod_count
                    &&& t1.shape == t0.shape
                    &&& t1.released_tiles@.len() == 0
                    &&& t1.requested_tiles@ == t0.requested_tiles@
                },
            spec_apply_releases(m0, spec_frame_releases(trees0, t as int)) == Ok::<
                AtlasModel,
                AtlasError,
            >(atlas.model()),
        decreases n - t,
    {
        let ghost pre = atlas.model();
        let mut tree = trees.remove(0);
        proof {
            assert(tree == trees0[t as int]);
            assert(trees@ =~= trees0.skip(t as int + 1));
        }
        let res = apply_releases(atlas, &tree.released_tiles);
        proof {
            lemma_apply_releases_append(
                m0,
                spec_frame_releases(trees0, t as int),
                trees0[t as int].released_tiles@,
            );
            assert(spec_frame_releases(trees0, t as int + 1) == spec_frame_releases(
                trees0,
                t as int,
            ) + trees0[t as int].released_tiles@);
        }
        match res {
            Ok(_) => {},
            Err(e) => {
                proof {
                    assert(spec_apply_releases(m0, spec_frame_releases(trees0, t as int))
                        == Ok::<AtlasModel, AtlasError>(pre));
                    assert(spec_apply_releases(pre, trees0[t as int].released_tiles@)
                        == Err::<AtlasModel, AtlasError>(e));
                    assert(spec_apply_releases(m0, spec_frame_releases(trees0, t as int + 1))
                        == Err::<AtlasModel, AtlasError>(e));
                    lemma_frame_releases_prefix(trees0, t as int + 1, n as int);
                    let s = choose|s: Seq<TileCoordinate>|
                        spec_frame_releases(trees0, n as int) == #[trigger] (spec_frame_releases(
                            trees0,
                            t as int + 1,
                        ) + s);
                    lemma_apply_releases_append(
                        m0,
                        spec_frame_releases(trees0, t as int + 1),
                        s,
                    );
                    assert(spec_apply_releases(m0, spec_frame_releases(trees0, n as int))
                        == Err::<AtlasModel, AtlasError>(e));
                    assert(spec_apply_frame(m0, trees0) == Err::<AtlasModel, AtlasError>(e));
                    assert(spec_apply_frame(old(atlas).model(), old(trees)@) == Err::<
                        AtlasModel,
                        AtlasError,
                    >(e));
                }
                return Err(e);
            },
        }
        tree.released_tiles.clear();
        drained.push(tree);
        t = t + 1;
    }
    let ghost m_rel = atlas.model();
    let mut t: usize = 0;
    while t < n
        invariant
            t <= n,
            n == trees0.len(),
            m0 == old(atlas).model(),
            trees0 == old(trees)@,
            old(atlas).wf(),
            atlas.wf(),
            atlas.attachments == old(atlas).attachments,
            spec_apply_releases(m0, spec_frame_releases(trees0, n as int)) == Ok::<
                AtlasModel,
                AtlasError,
            >(m_rel),
            drained@.len() == n - t,
            forall|k: int|
                0 <= k < n - t ==> {
                    let t0 = trees0[k + t];
                    let t1 = #[trigger] drained@[k];
                    &&& t1.cells == t0.cells
                    &&& t1.tree_size == t0.tree_size
                    &&& t1.lod_count == t0.lod_count
                    &&& t1.shape == t0.shape
                    &&& t1.released_tiles@.len() == 0
                    &&& t1.requested_tiles@ == t0.requested_tiles@
                },
            trees@.len() == t,
            forall|k: int|
                0 <= k < t ==> {
                    let t0 = trees0[k];
                    let t1 = #[trigger] trees@[k];
                    &&& t1.cells == t0.cells
                    &&& t1.tree_size == t0.tree_size
                    &&& t1.lod_count == t0.lod_count
                    &&& t1.shape == t0.shape
                    &&& t1.released_tiles@.len() == 0
                    &&& t1.requested_tiles@.len() == 0
                },
            spec_apply_requests(m_rel, spec_frame_requests(trees0, t as int)) == Ok::<
                AtlasModel,
                AtlasError,
            >(atlas.model()),
        decreases n - t,
    {
        let ghost dpre = drained@;
        let mut tree = drained.remove(0);
        proof {
            assert forall|k: int| 0 <= k < n - (t + 1) implies {
                let t0 = trees0[k + t + 1];
                let t1 = #[trigger] drained@[k];
                &&& t1.cells == t0.cells
                &&& t1.tree_size == t0.tree_size
                &&& t1.lod_count == t0.lod_count
                &&& t1.shape == t0.shape
                &&& t1.released_tiles@.len() == 0
                &&& t1.requested_tiles@ == t0.requested_tiles@
            } by {
                assert(drained@[k] == dpre[k + 1]);
            }
        }
        let res = apply_requests(atlas, &tree.requested_tiles);
        proof {
            lemma_apply_requests_append(
                m_rel,
                spec_frame_requests(trees0, t as int),
                trees0[t as int].requested_tiles@,
            );
        }
        match res {
            Ok(_) => {},
            Err(e) => {
                proof {
                    lemma_frame_requests_prefix(trees0, t as int + 1, n as int);
                    let s = choose|s: Seq<TileCoordinate>|
                        spec_frame_requests(trees0, n as int) == #[trigger] (spec_frame_requests(
                            trees0,
                            t as int + 1,
                        ) + s);
                    lemma_apply_requests_append(
                        m_rel,
                        spec_frame_requests(trees0, t as int + 1),
                        s,
                    );
                }
                return Err(e);
            },
        }
        tree.requested_tiles.clear();
        trees.push(tree);
        t = t + 1;
    }
    Ok(())
}

} // verus!
