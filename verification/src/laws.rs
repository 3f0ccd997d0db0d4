//! The central laws of the tile cache, stated and proved once over the
//! atlas model.
//!
//! Each operation of [`crate::atlas::TileAtlas`] promises in its own
//! contract that it preserves the invariant [`AtlasModel::wf`] and matches
//! its model transformer, so the laws below hold of every reachable atlas
//! state, in every frame.

use vstd::prelude::*;
use crate::atlas::{live_count, AtlasModel, LoadingState};
use crate::coord::TileCoordinate;
use crate::tree::TileTreeEntry;

verus! {

/// Uniqueness: no two resident tiles with live requests share an atlas
/// slot. (A well-formed atlas in fact keeps all resident slots distinct,
/// pinned or cached.)
pub proof fn lemma_slot_uniqueness(m: AtlasModel)
    requires
        m.wf(),
    ensures
        forall|i: int, j: int|
            0 <= i < j < m.states.len() && (#[trigger] m.states[i]).1.requests > 0 && (
            #[trigger] m.states[j]).1.requests > 0 ==> m.states[i].1.atlas_index
                != m.states[j].1.atlas_index,
{
}

/// Conservation: the free list and the tiles with live requests together
/// account for exactly the atlas capacity, at all times.
pub proof fn lemma_conservation(m: AtlasModel)
    requires
        m.wf(),
    ensures
        m.unused.len() + live_count(m.states) == m.atlas_size,
{
}

/// Fallback monotonicity, on the ancestor walk itself: the entry resolved
/// from `c` is the invalid entry or belongs to a loaded tile on `c`'s
/// ancestor chain (the tile itself included), at a level no finer than
/// `c`'s.
proof fn lemma_best_from_ancestor(m: AtlasModel, c: TileCoordinate)
    ensures
        ({
            let r = m.spec_best_from(c);
            r == TileTreeEntry::spec_invalid() || {
                &&& r.atlas_lod <= c.lod
                &&& exists|anc: TileCoordinate|
                    {
                        &&& #[trigger] c.is_ancestor_or_self(anc)
                        &&& anc.lod == r.atlas_lod
                        &&& m.has_state(anc)
                        &&& m.state_of(anc).state == LoadingState::Loaded
                        &&& m.state_of(anc).atlas_index == r.atlas_index
                    }
            }
        }),
    decreases c.lod,
{
    let r = m.spec_best_from(c);
    if m.has_state(c) && m.state_of(c).state == LoadingState::Loaded {
        assert(c.spec_ancestor(0) == c);
        assert(c.is_ancestor_or_self(c));
    } else if c.lod == 0 {
    } else {
        let p = c.spec_parent();
        lemma_best_from_ancestor(m, p);
        if r != TileTreeEntry::spec_invalid() {
            let anc = choose|anc: TileCoordinate|
                {
                    &&& #[trigger] p.is_ancestor_or_self(anc)
                    &&& anc.lod == r.atlas_lod
                    &&& m.has_state(anc)
                    &&& m.state_of(anc).state == LoadingState::Loaded
                    &&& m.state_of(anc).atlas_index == r.atlas_index
                };
            assert(c.spec_ancestor((c.lod - anc.lod) as nat) == p.spec_ancestor(
                (p.lod - anc.lod) as nat,
            ));
            assert(c.is_ancestor_or_self(anc));
        }
    }
}

/// Fallback monotonicity: resolving any coordinate yields the invalid
/// entry or the entry of a loaded tile on the coordinate's own ancestor
/// chain, at a level no finer than the coordinate's.
pub proof fn lemma_fallback_monotonic(m: AtlasModel, c: TileCoordinate)
    requires
        m.wf(),
    ensures
        ({
            let r = m.spec_best(c);
            r == TileTreeEntry::spec_invalid() || {
                &&& r.atlas_lod <= c.lod
                &&& exists|anc: TileCoordinate|
                    {
                        &&& #[trigger] c.is_ancestor_or_self(anc)
                        &&& anc.lod == r.atlas_lod
                        &&& m.has_state(anc)
                        &&& m.state_of(anc).state == LoadingState::Loaded
                        &&& m.state_of(anc).atlas_index == r.atlas_index
                    }
            }
        }),
{
    if m.existing.contains(c) {
        lemma_best_from_ancestor(m, c);
    }
}

/// Reference counting across views: after a fresh request from one view
/// and a second request from another, one release leaves the tile
/// resident with one live request and its slot off the free list; only
/// the second release parks the slot for reuse.
pub proof fn lemma_shared_reference_counting(m0: AtlasModel, c: TileCoordinate)
    requires
        m0.wf(),
        m0.existing.contains(c),
        !m0.has_state(c),
        m0.unused.len() > 0,
    ensures
        ({
            let m1 = m0.spec_request(c).unwrap();
            let m2 = m1.spec_request(c).unwrap();
            let m3 = m2.spec_release(c).unwrap();
            let m4 = m3.spec_release(c).unwrap();
            &&& m0.spec_request(c) is Ok
            &&& m1.spec_request(c) is Ok
            &&& m2.spec_release(c) is Ok
            &&& m3.spec_release(c) is Ok
            &&& m3.has_state(c)
            &&& m3.state_of(c).requests == 1
            &&& !m3.unused.contains(m3.state_of(c).atlas_index)
            &&& m4.has_state(c)
            &&& m4.state_of(c).requests == 0
            &&& m4.unused.contains(m4.state_of(c).atlas_index)
        }),
{
    let slot = m0.unused[0];
    let m1 = m0.spec_request(c).unwrap();
    crate::atlas::lemma_request_preserves_wf(m0, c);
    let last = m1.states.len() - 1;
    crate::atlas::lemma_state_index_is(m1, c, last);
    assert(m1.state_of(c).requests == 1);
    assert(m1.existing.contains(c));

    let m2 = m1.spec_request(c).unwrap();
    crate::atlas::lemma_request_preserves_wf(m1, c);
    crate::atlas::lemma_state_index_is(m2, c, m1.state_index(c));
    assert(m2.state_of(c).requests == 2);

    let m3 = m2.spec_release(c).unwrap();
    crate::atlas::lemma_release_preserves_wf(m2, c);
    crate::atlas::lemma_state_index_is(m3, c, m2.state_index(c));
    assert(m3.state_of(c).requests == 1);
    assert(m3.state_of(c).atlas_index < m3.atlas_size);
    assert(m3.slot_live(m3.state_of(c).atlas_index)) by {
        let i = m3.state_index(c);
        assert(m3.states[i].1.atlas_index == m3.state_of(c).atlas_index
            && m3.states[i].1.requests > 0);
    }
    assert(!m3.unused.contains(m3.state_of(c).atlas_index));

    let m4 = m3.spec_release(c).unwrap();
    crate::atlas::lemma_release_preserves_wf(m3, c);
    crate::atlas::lemma_state_index_is(m4, c, m3.state_index(c));
    assert(m4.state_of(c).requests == 0);
    assert(m4.unused.contains(m4.state_of(c).atlas_index)) by {
        assert(m4.unused[m4.unused.len() - 1] == m3.state_of(c).atlas_index);
    }
}

/// Release-before-request ordering pays off within one frame: when one
/// view drops its last demand for a tile, a fresh request from any other
/// view succeeds right away — and when no other slot was free, the new
/// tile takes exactly the slot the release freed.
pub proof fn lemma_freed_slot_immediately_reusable(
    m: AtlasModel,
    c: TileCoordinate,
    d: TileCoordinate,
)
    requires
        m.wf(),
        m.existing.contains(c),
        m.has_state(c),
        m.state_of(c).requests == 1,
        m.existing.contains(d),
        !m.has_state(d),
    ensures
        m.spec_release(c) is Ok,
        m.spec_release(c).unwrap().spec_request(d) is Ok,
        m.unused.len() == 0 ==> m.spec_release(c).unwrap().spec_request(d).unwrap().state_of(
            d,
        ).atlas_index == m.state_of(c).atlas_index,
{
    let slot = m.state_of(c).atlas_index;
    let i = m.state_index(c);
    let m1 = m.spec_release(c).unwrap();
    crate::atlas::lemma_release_preserves_wf(m, c);
    assert(m1.unused.len() > 0);
    assert(!m1.has_state(d)) by {
        if m1.has_state(d) {
            let k = choose|k: int|
                0 <= k < m1.states.len() && (#[trigger] m1.states[k]).0 == d;
            assert(k != i);
            assert(m.states[k].0 == d);
            assert(m.has_state(d));
        }
    }
    let m2 = m1.spec_request(d).unwrap();
    crate::atlas::lemma_request_preserves_wf(m1, d);
    if m.unused.len() == 0 {
        assert(m1.unused[0] == slot);
        crate::atlas::lemma_state_index_is(m2, d, m2.states.len() - 1);
    }
}

} // verus!
