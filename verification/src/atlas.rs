//! The tile atlas: a fixed pool of texture slots shared by all views of one
//! dataset.
//!
//! A tile is assigned a slot the first time any view requests it and keeps
//! it while its reference count is positive. Released tiles stay resident
//! (their slot moves to the back of the free list) and are evicted lazily,
//! oldest release first, only when a fresh coordinate needs a slot.

use vstd::prelude::*;
use crate::attachment::{
    Attachment, AttachmentConfig, AttachmentData, AttachmentFormat, AttachmentLabel,
    AttachmentTile, AttachmentTileWithData,
};
use crate::config::{EarthConfig, EarthShape};
use crate::coord::TileCoordinate;
use crate::tree::TileTreeEntry;
use std::collections::VecDeque;

verus! {

/// Whether a resident tile is still loading attachments or complete.
#[derive(Clone, Copy, Debug, PartialEq, Eq, Structural)]
pub enum LoadingState {
    /// The tile still waits for this many attachments.
    Loading(u32),
    /// All attachments of the tile are loaded; it can be rendered.
    Loaded,
}

/// The state of one resident tile of the atlas.
#[derive(Clone, Copy, Debug, PartialEq, Eq, Structural)]
pub struct TileState {
    /// Whether the tile is loading or loaded.
    pub state: LoadingState,
    /// The slot of the atlas the tile occupies.
    pub atlas_index: u32,
    /// The number of views currently demanding this tile.
    pub requests: u32,
}

/// The fatal error classes of the atlas. Each one indicates a configuration
/// or programming error of the embedding pipeline; the frame driver is
/// expected to halt on any of them.
#[derive(Clone, Copy, Debug, PartialEq, Eq, Structural)]
pub enum AtlasError {
    /// A fresh tile was requested while no slot was free: the atlas is
    /// undersized for the demand of its views.
    OutOfIndices,
    /// The reference count of a tile would exceed its machine range.
    TooManyRequests,
    /// A tile was released that has no live request: request and release
    /// emission is unbalanced.
    ReleaseUnderflow,
    /// More attachment loads finished for a tile than the atlas tracks
    /// attachments.
    ExtraLoad,
}

/// The mathematical state of a tile atlas.
#[verifier::ext_equal]
pub ghost struct AtlasModel {
    /// The number of slots of the pool.
    pub atlas_size: u32,
    /// The number of faces of the dataset's surface.
    pub face_count: u32,
    /// The number of levels of detail of the dataset.
    pub lod_count: u32,
    /// The labels of the attachment channels, in registration order.
    pub labels: Seq<AttachmentLabel>,
    /// The existence set: the coordinates for which data exists.
    pub existing: Seq<TileCoordinate>,
    /// The resident tiles: coordinate and tile state, in residence order.
    pub states: Seq<(TileCoordinate, TileState)>,
    /// The free list, front first: slots not held by any live tile.
    pub unused: Seq<u32>,
    /// The pending load jobs, in emission order.
    pub to_load: Seq<AttachmentTile>,
    /// The finished loads waiting for upload: slot, label, format and bytes.
    pub uploads: Seq<(u32, AttachmentLabel, AttachmentFormat, Seq<u8>)>,
}

/// Counts 1 for a tile state with live requests.
pub open spec fn live1(p: (TileCoordinate, TileState)) -> nat {
    if p.1.requests > 0 {
        1
    } else {
        0
    }
}

/// The number of resident tiles with live requests.
pub open spec fn live_count(s: Seq<(TileCoordinate, TileState)>) -> nat
    decreases s.len(),
{
    if s.len() == 0 {
        0
    } else {
        live_count(s.drop_last()) + live1(s.last())
    }
}

impl AtlasModel {
    /// Whether a tile state is resident for `c`.
    pub open spec fn has_state(self, c: TileCoordinate) -> bool {
        exists|i: int| 0 <= i < self.states.len() && (#[trigger] self.states[i]).0 == c
    }

    /// The index of the resident tile state of `c`.
    pub open spec fn state_index(self, c: TileCoordinate) -> int {
        choose|i: int| 0 <= i < self.states.len() && (#[trigger] self.states[i]).0 == c
    }

    /// The resident tile state of `c`.
    pub open spec fn state_of(self, c: TileCoordinate) -> TileState {
        self.states[self.state_index(c)].1
    }

    /// Whether slot `s` is held by a tile with live requests.
    pub open spec fn slot_live(self, s: u32) -> bool {
        exists|i: int|
            0 <= i < self.states.len() && (#[trigger] self.states[i]).1.atlas_index == s
                && self.states[i].1.requests > 0
    }

    /// The invariant of the atlas.
    ///
    /// Resident coordinates and their slots are unique, all slots are in
    /// range, the free list holds exactly the slots of no live tile, the
    /// free list and the live tiles together account for the whole pool,
    /// and every resident coordinate exists in the dataset.
    pub open spec fn wf(self) -> bool {
        &&& forall|i: int, j: int|
            0 <= i < j < self.states.len() ==> (#[trigger] self.states[i]).0 != (
            #[trigger] self.states[j]).0
        &&& forall|i: int, j: int|
            0 <= i < j < self.states.len() ==> (#[trigger] self.states[i]).1.atlas_index != (
            #[trigger] self.states[j]).1.atlas_index
        &&& forall|i: int|
            0 <= i < self.states.len() ==> (#[trigger] self.states[i]).1.atlas_index
                < self.atlas_size
        &&& forall|i: int, j: int|
            0 <= i < j < self.unused.len() ==> #[trigger] self.unused[i] != #[trigger] self.unused[j]
        &&& forall|i: int| 0 <= i < self.unused.len() ==> #[trigger] self.unused[i] < self.atlas_size
        &&& forall|s: u32| s < self.atlas_size ==> (self.unused.contains(s) <==> !self.slot_live(s))
        &&& self.unused.len() + live_count(self.states) == self.atlas_size
        &&& forall|i: int| 0 <= i < self.states.len() ==> self.existing.contains(
            (#[trigger] self.states[i]).0,
        )
        &&& forall|i: int|
            0 <= i < self.existing.len() ==> (#[trigger] self.existing[i]).wf(
                self.face_count as nat,
                self.lod_count as nat,
            )
        &&& self.labels.len() < u32::MAX
        &&& forall|i: int, j: int|
            0 <= i < j < self.labels.len() ==> !crate::attachment::label_eq(
                #[trigger] self.labels[i],
                #[trigger] self.labels[j],
            )
    }

    /// The effect of requesting `c`: a no-op outside the existence set; a
    /// reference count increment on a resident tile, un-evicting it when it
    /// was cached; otherwise residence in the slot at the front of the free
    /// list, evicting that slot's stale tile, with one load job per
    /// attachment.
    pub open spec fn spec_request(self, c: TileCoordinate) -> Result<AtlasModel, AtlasError> {
        if !self.existing.contains(c) {
            Ok(self)
        } else if self.has_state(c) {
            let i = self.state_index(c);
            let st = self.states[i].1;
            if st.requests == u32::MAX {
                Err(AtlasError::TooManyRequests)
            } else if st.requests == 0 {
                Ok(
                    AtlasModel {
                        states: self.states.update(
                            i,
                            (c, TileState { requests: 1, ..st }),
                        ),
                        unused: self.unused.remove_value(st.atlas_index),
                        ..self
                    },
                )
            } else {
                Ok(
                    AtlasModel {
                        states: self.states.update(
                            i,
                            (c, TileState { requests: (st.requests + 1) as u32, ..st }),
                        ),
                        ..self
                    },
                )
            }
        } else if self.unused.len() == 0 {
            Err(AtlasError::OutOfIndices)
        } else {
            let slot = self.unused[0];
            let evicted = if self.slot_resident(slot) {
                self.states.remove(self.slot_index(slot))
            } else {
                self.states
            };
            Ok(
                AtlasModel {
                    states: evicted.push(
                        (
                            c,
                            TileState {
                                state: LoadingState::Loading(self.labels.len() as u32),
                                atlas_index: slot,
                                requests: 1,
                            },
                        ),
                    ),
                    unused: self.unused.drop_first(),
                    to_load: self.to_load + self.labels.map_values(
                        |l: AttachmentLabel| AttachmentTile { coordinate: c, label: l },
                    ),
                    ..self
                },
            )
        }
    }

    /// Whether any resident tile occupies slot `s`.
    pub open spec fn slot_resident(self, s: u32) -> bool {
        exists|i: int| 0 <= i < self.states.len() && (#[trigger] self.states[i]).1.atlas_index == s
    }

    /// The index of the resident tile occupying slot `s`.
    pub open spec fn slot_index(self, s: u32) -> int {
        choose|i: int| 0 <= i < self.states.len() && (#[trigger] self.states[i]).1.atlas_index == s
    }

    /// The effect of releasing `c`: a no-op outside the existence set; an
    /// error when no live request is held; otherwise a reference count
    /// decrement, parking the slot at the back of the free list when the
    /// count reaches zero.
    pub open spec fn spec_release(self, c: TileCoordinate) -> Result<AtlasModel, AtlasError> {
        if !self.existing.contains(c) {
            Ok(self)
        } else if !self.has_state(c) {
            Err(AtlasError::ReleaseUnderflow)
        } else {
            let i = self.state_index(c);
            let st = self.states[i].1;
            if st.requests == 0 {
                Err(AtlasError::ReleaseUnderflow)
            } else if st.requests == 1 {
                Ok(
                    AtlasModel {
                        states: self.states.update(i, (c, TileState { requests: 0, ..st })),
                        unused: self.unused.push(st.atlas_index),
                        ..self
                    },
                )
            } else {
                Ok(
                    AtlasModel {
                        states: self.states.update(
                            i,
                            (c, TileState { requests: (st.requests - 1) as u32, ..st }),
                        ),
                        ..self
                    },
                )
            }
        }
    }

    /// The effect of one finished attachment load for `c`: discarded when
    /// the tile is no longer resident; an error when more loads finish than
    /// attachments are tracked; otherwise the pending counter falls, the
    /// tile flips to loaded at zero, and the data joins the upload queue.
    pub open spec fn spec_loaded(
        self,
        c: TileCoordinate,
        label: AttachmentLabel,
        format: AttachmentFormat,
        bytes: Seq<u8>,
    ) -> Result<AtlasModel, AtlasError> {
        if !self.has_state(c) {
            Ok(self)
        } else {
            let i = self.state_index(c);
            let st = self.states[i].1;
            match st.state {
                LoadingState::Loading(n) => if n == 0 {
                    Err(AtlasError::ExtraLoad)
                } else {
                    let new_state = if n == 1 {
                        LoadingState::Loaded
                    } else {
                        LoadingState::Loading((n - 1) as u32)
                    };
                    Ok(
                        AtlasModel {
                            states: self.states.update(
                                i,
                                (c, TileState { state: new_state, ..st }),
                            ),
                            uploads: self.uploads.push((st.atlas_index, label, format, bytes)),
                            ..self
                        },
                    )
                },
                LoadingState::Loaded => Err(AtlasError::ExtraLoad),
            }
        }
    }

    /// The best loaded tile on the ancestor chain of `c`, the tile itself
    /// included; the invalid entry when none is loaded up to the root.
    pub open spec fn spec_best_from(self, c: TileCoordinate) -> TileTreeEntry
        decreases c.lod,
    {
        if self.has_state(c) && self.state_of(c).state == LoadingState::Loaded {
            TileTreeEntry { atlas_index: self.state_of(c).atlas_index, atlas_lod: c.lod }
        } else if c.lod == 0 {
            TileTreeEntry::spec_invalid()
        } else {
            self.spec_best_from(c.spec_parent())
        }
    }

    /// The entry `get_best_tile` owes for `c`: invalid outside the existence
    /// set, else the best loaded tile on the ancestor chain.
    pub open spec fn spec_best(self, c: TileCoordinate) -> TileTreeEntry {
        if self.existing.contains(c) {
            self.spec_best_from(c)
        } else {
            TileTreeEntry::spec_invalid()
        }
    }
}

/// A sparse store of tiles for one dataset, shared by all its views.
///
/// Tiles are requested and released by tile trees; the atlas assigns slots,
/// tracks loading progress per attachment, and serves the best loaded
/// ancestor of any coordinate.
pub struct TileAtlas {
    /// The attachment channels: label and static metadata.
    pub attachments: Vec<(AttachmentLabel, Attachment)>,
    /// The resident tiles: coordinate and tile state.
    pub tile_states: Vec<(TileCoordinate, TileState)>,
    /// The free list; slots are taken from the front and parked at the back.
    pub unused_indices: VecDeque<u32>,
    /// The existence set of the dataset.
    pub existing_tiles: Vec<TileCoordinate>,
    /// Finished loads waiting to be uploaded by the render path.
    pub uploading_tiles: Vec<AttachmentTileWithData>,
    /// Pending load jobs for the loader.
    pub to_load: Vec<AttachmentTile>,
    /// The number of slots of the pool.
    pub atlas_size: u32,
    /// The number of levels of detail of the dataset.
    pub lod_count: u32,
    /// The shape of the dataset's surface.
    pub shape: EarthShape,
}

impl TileAtlas {
    /// The mathematical state of the atlas.
    pub open spec fn model(self) -> AtlasModel {
        AtlasModel {
            atlas_size: self.atlas_size,
            face_count: self.shape.spec_face_count(),
            lod_count: self.lod_count,
            labels: self.attachments@.map_values(|p: (AttachmentLabel, Attachment)| p.0),
            existing: self.existing_tiles@,
            states: self.tile_states@,
            unused: self.unused_indices@,
            to_load: self.to_load@,
            uploads: self.uploading_tiles@.map_values(
                |u: AttachmentTileWithData| (u.atlas_index, u.label, u.data.format, u.data.bytes@),
            ),
        }
    }

    /// The invariant of the atlas.
    pub open spec fn wf(self) -> bool {
        self.model().wf()
    }

    /// Builds an empty atlas for one dataset: all `atlas_size` slots free
    /// (in slot order), no tile resident, and one attachment per configured
    /// channel rooted at the dataset directory.
    pub fn new(config: &EarthConfig, atlas_size: u32) -> (r: TileAtlas)
        requires
            config.wf(),
        ensures
            r.wf(),
            r.atlas_size == atlas_size,
            r.lod_count == config.lod_count,
            r.shape == config.shape,
            r.model().existing == config.tiles@,
            r.model().states == Seq::<(TileCoordinate, TileState)>::empty(),
            r.model().to_load == Seq::<AttachmentTile>::empty(),
            r.model().uploads == Seq::<(u32, AttachmentLabel, AttachmentFormat, Seq<u8>)>::empty(),
            r.model().unused == Seq::new(atlas_size as nat, |i: int| i as u32),
            r.model().labels == config.attachments@.map_values(
                |p: (AttachmentLabel, AttachmentConfig)| p.0,
            ),
            r.attachments@.len() == config.attachments@.len(),
            forall|j: int|
                0 <= j < config.attachments@.len() ==> {
                    let a = (#[trigger] r.attachments@[j]).1;
                    let cfg = config.attachments@[j].1;
                    &&& r.attachments@[j].0 == config.attachments@[j].0
                    &&& a.path@ == config.path@
                    &&& a.texture_size == cfg.texture_size
                    &&& a.center_size == cfg.texture_size - 2 * cfg.border_size
                    &&& a.border_size == cfg.border_size
                    &&& a.mip_level_count == cfg.mip_level_count
                    &&& a.format == cfg.format
                    &&& a.mask == cfg.mask
                },
    {
        let mut attachments: Vec<(AttachmentLabel, Attachment)> = Vec::new();
        let n = config.attachments.len();
        let mut i: usize = 0;
        while i < n
            invariant
                i <= n,
                n == config.attachments@.len(),
                config.wf(),
                attachments@.len() == i,
                forall|j: int|
                    0 <= j < i ==> {
                        let a = (#[trigger] attachments@[j]).1;
                        let cfg = config.attachments@[j].1;
                        &&& attachments@[j].0 == config.attachments@[j].0
                        &&& a.path@ == config.path@
                        &&& a.texture_size == cfg.texture_size
                        &&& a.center_size == cfg.texture_size - 2 * cfg.border_size
                        &&& a.border_size == cfg.border_size
                        &&& a.mip_level_count == cfg.mip_level_count
                        &&& a.format == cfg.format
                        &&& a.mask == cfg.mask
                    },
            decreases n - i,
        {
            let label = config.attachments[i].0.clone();
            let attachment = Attachment::new(&config.attachments[i].1, &config.path);
            attachments.push((label, attachment));
            i = i + 1;
        }
        let mut unused_indices: VecDeque<u32> = VecDeque::new();
        let mut s: u32 = 0;
        while s < atlas_size
            invariant
                s <= atlas_size,
                unused_indices@.len() == s,
                forall|j: int| 0 <= j < s ==> #[trigger] unused_indices@[j] == j as u32,
            decreases atlas_size - s,
        {
            unused_indices.push_back(s);
            s = s + 1;
        }
        let r = TileAtlas {
            attachments,
            tile_states: Vec::new(),
            unused_indices,
            existing_tiles: config.tiles.clone(),
            uploading_tiles: Vec::new(),
            to_load: Vec::new(),
            atlas_size,
            lod_count: config.lod_count,
            shape: config.shape,
        };
        proof {
            let m = r.model();
            assert(m.unused =~= Seq::new(atlas_size as nat, |i: int| i as u32));
            assert(m.existing =~= config.tiles@);
            assert(m.labels =~= config.attachments@.map_values(
                |p: (AttachmentLabel, AttachmentConfig)| p.0,
            ));
            assert(m.uploads =~= Seq::<(u32, AttachmentLabel, AttachmentFormat, Seq<u8>)>::empty());
            assert(m.wf()) by {
                assert forall|t: u32| t < m.atlas_size implies (m.unused.contains(t)
                    <==> !m.slot_live(t)) by {
                    assert(m.unused[t as int] == t);
                }
                assert(live_count(m.states) == 0);
                assert(m.face_count == config.shape.spec_face_count());
            }
        }
        r
    }

    /// Whether `c` is a tile of the dataset.
    fn contains_existing(&self, c: TileCoordinate) -> (r: bool)
        ensures
            r == self.model().existing.contains(c),
    {
        let n = self.existing_tiles.len();
        let mut i: usize = 0;
        while i < n
            invariant
                i <= n,
                n == self.existing_tiles@.len(),
                forall|j: int| 0 <= j < i ==> self.existing_tiles@[j] != c,
            decreases n - i,
        {
            if self.existing_tiles[i] == c {
                return true;
            }
            i = i + 1;
        }
        false
    }

    /// The position of the resident tile state of `c`, if any.
    fn find_state_index(&self, c: TileCoordinate) -> (r: Option<usize>)
        ensures
            match r {
                Some(i) => i < self.tile_states@.len() && self.tile_states@[i as int].0 == c,
                None => !self.model().has_state(c),
            },
    {
        let n = self.tile_states.len();
        let mut i: usize = 0;
        while i < n
            invariant
                i <= n,
                n == self.tile_states@.len(),
                forall|j: int| 0 <= j < i ==> (#[trigger] self.tile_states@[j]).0 != c,
            decreases n - i,
        {
            if self.tile_states[i].0 == c {
                return Some(i);
            }
            i = i + 1;
        }
        None
    }

    /// Resolves the best loaded tile for `c`: the entry of the nearest
    /// loaded ancestor (the tile itself included), or the invalid entry
    /// outside the existence set or when no ancestor is loaded.
    pub fn get_best_tile(&self, coordinate: TileCoordinate) -> (r: TileTreeEntry)
        requires
            self.wf(),
        ensures
            r == self.model().spec_best(coordinate),
    {
        if !self.contains_existing(coordinate) {
            return TileTreeEntry::invalid();
        }
        let mut cur = coordinate;
        loop
            invariant
                self.wf(),
                self.model().existing.contains(coordinate),
                self.model().spec_best_from(cur) == self.model().spec_best_from(coordinate),
            decreases cur.lod,
        {
            match self.find_state_index(cur) {
                Some(i) => {
                    proof {
                        lemma_state_index_is(self.model(), cur, i as int);
                    }
                    let st = self.tile_states[i].1;
                    if matches!(st.state, LoadingState::Loaded) {
                        return TileTreeEntry { atlas_index: st.atlas_index, atlas_lod: cur.lod };
                    }
                },
                None => {},
            }
            if cur.lod == 0 {
                return TileTreeEntry::invalid();
            }
            cur = TileCoordinate { face: cur.face, lod: cur.lod - 1, x: cur.x / 2, y: cur.y / 2 };
        }
    }
}

impl TileAtlas {
    /// The position of the resident tile occupying `slot`, if any.
    fn find_slot_index(&self, slot: u32) -> (r: Option<usize>)
        ensures
            match r {
                Some(k) => k < self.tile_states@.len() && self.tile_states@[
                    k as int
                ].1.atlas_index == slot,
                None => !self.model().slot_resident(slot),
            },
    {
        let n = self.tile_states.len();
        let mut i: usize = 0;
        while i < n
            invariant
                i <= n,
                n == self.tile_states@.len(),
                forall|j: int| 0 <= j < i ==> (#[trigger] self.tile_states@[j]).1.atlas_index != slot,
            decreases n - i,
        {
            if self.tile_states[i].1.atlas_index == slot {
                return Some(i);
            }
            i = i + 1;
        }
        None
    }

    /// Removes the first occurrence of `slot` from the free list, if any.
    fn remove_unused(&mut self, slot: u32)
        ensures
            final(self).unused_indices@ == old(self).unused_indices@.remove_value(slot),
            final(self).tile_states == old(self).tile_states,
            final(self).attachments == old(self).attachments,
            final(self).existing_tiles == old(self).existing_tiles,
            final(self).uploading_tiles == old(self).uploading_tiles,
            final(self).to_load == old(self).to_load,
            final(self).atlas_size == old(self).atlas_size,
            final(self).lod_count == old(self).lod_count,
            final(self).shape == old(self).shape,
    {
        let n = self.unused_indices.len();
        let mut i: usize = 0;
        while i < n
            invariant
                i <= n,
                *self == *old(self),
                n == self.unused_indices@.len(),
                forall|j: int| 0 <= j < i ==> self.unused_indices@[j] != slot,
            decreases n - i,
        {
            if self.unused_indices[i] == slot {
                proof {
                    let q = self.unused_indices@;
                    q.index_of_first_ensures(slot);
                    assert(q.contains(slot));
                    let f = q.index_of_first(slot).unwrap();
                    assert(f == i as int) by {
                        if f < i as int {
                            assert(q[f] != slot);
                        }
                        if f > i as int {
                            assert(q[i as int] != slot);
                        }
                    }
                }
                self.unused_indices.remove(i);
                return;
            }
            i = i + 1;
        }
        proof {
            assert(!self.unused_indices@.contains(slot)) by {
                if self.unused_indices@.contains(slot) {
                    let j = choose|j: int|
                        0 <= j < self.unused_indices@.len() && self.unused_indices@[j] == slot;
                    assert(self.unused_indices@[j] != slot);
                }
            }
            self.unused_indices@.index_of_first_ensures(slot);
        }
    }

    /// Registers one demand for `coordinate`.
    ///
    /// Outside the existence set nothing changes. A resident tile's
    /// reference count rises, un-evicting the tile when it was cached.
    /// Otherwise the tile takes the slot at the front of the free list,
    /// evicting that slot's stale tile, and one load job per attachment is
    /// queued. Fails with [`AtlasError::OutOfIndices`] when a fresh tile is
    /// needed and no slot is free.
    pub fn request_tile(&mut self, coordinate: TileCoordinate) -> (r: Result<(), AtlasError>)
        requires
            old(self).wf(),
        ensures
            final(self).wf(),
            final(self).attachments == old(self).attachments,
            match old(self).model().spec_request(coordinate) {
                Ok(m) => r is Ok && final(self).model() == m,
                Err(e) => r == Err::<(), AtlasError>(e) && final(self).model() == old(
                    self,
                ).model(),
            },
    {
        if !self.contains_existing(coordinate) {
            return Ok(());
        }
        match self.find_state_index(coordinate) {
            Some(i) => {
                proof {
                    lemma_state_index_is(self.model(), coordinate, i as int);
                }
                let st = self.tile_states[i].1;
                if st.requests == u32::MAX {
                    return Err(AtlasError::TooManyRequests);
                }
                if st.requests == 0 {
                    self.remove_unused(st.atlas_index);
                    self.tile_states.set(i, (coordinate, TileState { requests: 1, ..st }));
                    proof {
                        lemma_request_cached_wf(old(self).model(), self.model(), coordinate, i as int);
                    }
                    Ok(())
                } else {
                    self.tile_states.set(
                        i,
                        (coordinate, TileState { requests: st.requests + 1, ..st }),
                    );
                    proof {
                        lemma_request_live_wf(old(self).model(), self.model(), coordinate, i as int);
                    }
                    Ok(())
                }
            },
            None => {
                let slot = match self.unused_indices.pop_front() {
                    Some(slot) => slot,
                    None => {
                        return Err(AtlasError::OutOfIndices);
                    },
                };
                match self.find_slot_index(slot) {
                    Some(k) => {
                        proof {
                            lemma_slot_index_is(old(self).model(), slot, k as int);
                        }
                        self.tile_states.remove(k);
                    },
                    None => {},
                }
                let ghost evicted = self.tile_states@;
                let attachment_count = self.attachments.len() as u32;
                self.tile_states.push(
                    (
                        coordinate,
                        TileState {
                            state: LoadingState::Loading(attachment_count),
                            atlas_index: slot,
                            requests: 1,
                        },
                    ),
                );
                let ghost mid = *self;
                let ghost jobs = self.attachments@.map_values(
                    |p: (AttachmentLabel, Attachment)| AttachmentTile {
                        coordinate,
                        label: p.0,
                    },
                );
                let n = self.attachments.len();
                let mut j: usize = 0;
                while j < n
                    invariant
                        j <= n,
                        n == self.attachments@.len(),
                        self.tile_states == mid.tile_states,
                        self.attachments == mid.attachments,
                        self.unused_indices == mid.unused_indices,
                        self.existing_tiles == mid.existing_tiles,
                        self.uploading_tiles == mid.uploading_tiles,
                        self.atlas_size == mid.atlas_size,
                        self.lod_count == mid.lod_count,
                        self.shape == mid.shape,
                        jobs == self.attachments@.map_values(
                            |p: (AttachmentLabel, Attachment)| AttachmentTile {
                                coordinate,
                                label: p.0,
                            },
                        ),
                        self.to_load@ == mid.to_load@ + jobs.take(j as int),
                    decreases n - j,
                {
                    let label = self.attachments[j].0.clone();
                    self.to_load.push(AttachmentTile { coordinate, label });
                    proof {
                        assert(self.to_load@ =~= mid.to_load@ + jobs.take(j as int + 1));
                    }
                    j = j + 1;
                }
                proof {
                    assert(jobs.take(n as int) =~= jobs);
                    let lbls = old(self).model().labels;
                    let lbl_jobs = lbls.map_values(
                        |l: AttachmentLabel| AttachmentTile { coordinate, label: l },
                    );
                    assert forall|k: int| 0 <= k < jobs.len() implies jobs[k] == lbl_jobs[k] by {
                        assert(lbls[k] == old(self).attachments@[k].0);
                    }
                    assert(jobs =~= lbl_jobs);
                    lemma_request_fresh_wf(old(self).model(), self.model(), coordinate, evicted);
                }
                Ok(())
            },
        }
    }

    /// Drops one demand for `coordinate`.
    ///
    /// Outside the existence set nothing changes. The tile's reference
    /// count falls; at zero its slot is parked at the back of the free
    /// list, the tile staying resident as a cache entry. Fails with
    /// [`AtlasError::ReleaseUnderflow`] when no live request is held.
    pub fn release_tile(&mut self, coordinate: TileCoordinate) -> (r: Result<(), AtlasError>)
        requires
            old(self).wf(),
        ensures
            final(self).wf(),
            final(self).attachments == old(self).attachments,
            match old(self).model().spec_release(coordinate) {
                Ok(m) => r is Ok && final(self).model() == m,
                Err(e) => r == Err::<(), AtlasError>(e) && final(self).model() == old(
                    self,
                ).model(),
            },
    {
        if !self.contains_existing(coordinate) {
            return Ok(());
        }
        match self.find_state_index(coordinate) {
            Some(i) => {
                proof {
                    lemma_state_index_is(self.model(), coordinate, i as int);
                }
                let st = self.tile_states[i].1;
                if st.requests == 0 {
                    return Err(AtlasError::ReleaseUnderflow);
                }
                if st.requests == 1 {
                    self.tile_states.set(i, (coordinate, TileState { requests: 0, ..st }));
                    self.unused_indices.push_back(st.atlas_index);
                    proof {
                        lemma_release_last_wf(old(self).model(), self.model(), coordinate, i as int);
                    }
                    Ok(())
                } else {
                    self.tile_states.set(
                        i,
                        (coordinate, TileState { requests: st.requests - 1, ..st }),
                    );
                    proof {
                        lemma_release_live_wf(old(self).model(), self.model(), coordinate, i as int);
                    }
                    Ok(())
                }
            },
            None => Err(AtlasError::ReleaseUnderflow),
        }
    }

    /// Merges one finished attachment load into the atlas.
    ///
    /// When the tile was evicted mid-flight the data is discarded silently.
    /// Otherwise the pending counter falls — the tile flips to loaded at
    /// zero — and the data joins the upload queue for the render path.
    /// Fails with [`AtlasError::ExtraLoad`] when more loads finish than the
    /// atlas tracks attachments.
    pub fn tile_loaded(&mut self, tile: AttachmentTile, data: AttachmentData) -> (r: Result<
        (),
        AtlasError,
    >)
        requires
            old(self).wf(),
        ensures
            final(self).wf(),
            final(self).attachments == old(self).attachments,
            match old(self).model().spec_loaded(
                tile.coordinate,
                tile.label,
                data.format,
                data.bytes@,
            ) {
                Ok(m) => r is Ok && final(self).model() == m,
                Err(e) => r == Err::<(), AtlasError>(e) && final(self).model() == old(
                    self,
                ).model(),
            },
    {
        match self.find_state_index(tile.coordinate) {
            Some(i) => {
                proof {
                    lemma_state_index_is(self.model(), tile.coordinate, i as int);
                }
                let st = self.tile_states[i].1;
                match st.state {
                    LoadingState::Loading(n) => {
                        if n == 0 {
                            return Err(AtlasError::ExtraLoad);
                        }
                        let new_state = if n == 1 {
                            LoadingState::Loaded
                        } else {
                            LoadingState::Loading(n - 1)
                        };
                        self.tile_states.set(
                            i,
                            (tile.coordinate, TileState { state: new_state, ..st }),
                        );
                        self.uploading_tiles.push(
                            AttachmentTileWithData {
                                atlas_index: st.atlas_index,
                                label: tile.label,
                                data,
                            },
                        );
                        proof {
                            lemma_loaded_wf(old(self).model(), self.model(), i as int);
                            assert(self.uploading_tiles@.map_values(
                                |u: AttachmentTileWithData| (
                                    u.atlas_index,
                                    u.label,
                                    u.data.format,
                                    u.data.bytes@,
                                ),
                            ) =~= old(self).uploading_tiles@.map_values(
                                |u: AttachmentTileWithData| (
                                    u.atlas_index,
                                    u.label,
                                    u.data.format,
                                    u.data.bytes@,
                                ),
                            ).push((st.atlas_index, tile.label, data.format, data.bytes@)));
                        }
                        Ok(())
                    },
                    LoadingState::Loaded => Err(AtlasError::ExtraLoad),
                }
            },
            None => Ok(()),
        }
    }
}

/// With unique resident coordinates, any index holding `c` is the index the
/// model designates for `c`.
pub proof fn lemma_state_index_is(m: AtlasModel, c: TileCoordinate, i: int)
    requires
        forall|k: int, l: int|
            0 <= k < l < m.states.len() ==> (#[trigger] m.states[k]).0 != (#[trigger] m.states[l]).0,
        0 <= i < m.states.len(),
        m.states[i].0 == c,
    ensures
        m.has_state(c),
        m.state_index(c) == i,
        m.state_of(c) == m.states[i].1,
{
    assert(m.has_state(c));
    let j = m.state_index(c);
    if j != i {
        if j < i {
            assert(m.states[j].0 != m.states[i].0);
        } else {
            assert(m.states[i].0 != m.states[j].0);
        }
    }
}

/// Every request that succeeds keeps the atlas invariant.
pub proof fn lemma_request_preserves_wf(m: AtlasModel, c: TileCoordinate)
    requires
        m.wf(),
        m.spec_request(c) is Ok,
    ensures
        m.spec_request(c).unwrap().wf(),
{
    let m1 = m.spec_request(c).unwrap();
    if !m.existing.contains(c) {
    } else if m.has_state(c) {
        let i = m.state_index(c);
        assert(0 <= i < m.states.len() && m.states[i].0 == c);
        let st = m.states[i].1;
        if st.requests == 0 {
            lemma_request_cached_wf(m, m1, c, i);
        } else {
            lemma_request_live_wf(m, m1, c, i);
        }
    } else {
        let evicted = if m.slot_resident(m.unused[0]) {
            m.states.remove(m.slot_index(m.unused[0]))
        } else {
            m.states
        };
        lemma_request_fresh_wf(m, m1, c, evicted);
    }
}

/// Every release that succeeds keeps the atlas invariant.
pub proof fn lemma_release_preserves_wf(m: AtlasModel, c: TileCoordinate)
    requires
        m.wf(),
        m.spec_release(c) is Ok,
    ensures
        m.spec_release(c).unwrap().wf(),
{
    let m1 = m.spec_release(c).unwrap();
    if !m.existing.contains(c) {
    } else {
        let i = m.state_index(c);
        assert(0 <= i < m.states.len() && m.states[i].0 == c);
        let st = m.states[i].1;
        if st.requests == 1 {
            lemma_release_last_wf(m, m1, c, i);
        } else {
            lemma_release_live_wf(m, m1, c, i);
        }
    }
}

/// Every load completion that succeeds keeps the atlas invariant.
pub proof fn lemma_loaded_preserves_wf(
    m: AtlasModel,
    c: TileCoordinate,
    label: AttachmentLabel,
    format: AttachmentFormat,
    bytes: Seq<u8>,
)
    requires
        m.wf(),
        m.spec_loaded(c, label, format, bytes) is Ok,
    ensures
        m.spec_loaded(c, label, format, bytes).unwrap().wf(),
{
    let m1 = m.spec_loaded(c, label, format, bytes).unwrap();
    if !m.has_state(c) {
    } else {
        let i = m.state_index(c);
        assert(0 <= i < m.states.len() && m.states[i].0 == c);
        lemma_loaded_wf(m, m1, i);
    }
}

/// The invariant does not read the load or upload queues: it carries over
/// between models that agree on everything else.
pub proof fn lemma_wf_ignores_queues(m0: AtlasModel, m1: AtlasModel)
    requires
        m0.wf(),
        m1.states == m0.states,
        m1.unused == m0.unused,
        m1.existing == m0.existing,
        m1.labels == m0.labels,
        m1.atlas_size == m0.atlas_size,
        m1.face_count == m0.face_count,
        m1.lod_count == m0.lod_count,
    ensures
        m1.wf(),
{
    assert forall|s: u32| s < m1.atlas_size implies (m1.unused.contains(s) <==> !m1.slot_live(
        s,
    )) by {
        assert(m0.unused.contains(s) <==> !m0.slot_live(s));
        assert(m1.slot_live(s) == m0.slot_live(s)) by {
            if m0.slot_live(s) {
                let k = choose|k: int|
                    0 <= k < m0.states.len() && (#[trigger] m0.states[k]).1.atlas_index == s
                        && m0.states[k].1.requests > 0;
                assert(m1.states[k].1.atlas_index == s && m1.states[k].1.requests > 0);
            }
            if m1.slot_live(s) {
                let k = choose|k: int|
                    0 <= k < m1.states.len() && (#[trigger] m1.states[k]).1.atlas_index == s
                        && m1.states[k].1.requests > 0;
                assert(m0.states[k].1.atlas_index == s && m0.states[k].1.requests > 0);
            }
        }
    }
}

/// With unique resident slots, any index holding `slot` is the index the
/// model designates for `slot`.
pub proof fn lemma_slot_index_is(m: AtlasModel, slot: u32, k: int)
    requires
        forall|a: int, b: int|
            0 <= a < b < m.states.len() ==> (#[trigger] m.states[a]).1.atlas_index != (
            #[trigger] m.states[b]).1.atlas_index,
        0 <= k < m.states.len(),
        m.states[k].1.atlas_index == slot,
    ensures
        m.slot_resident(slot),
        m.slot_index(slot) == k,
{
    assert(m.slot_resident(slot));
    let j = m.slot_index(slot);
    if j != k {
        if j < k {
            assert(m.states[j].1.atlas_index != m.states[k].1.atlas_index);
        } else {
            assert(m.states[k].1.atlas_index != m.states[j].1.atlas_index);
        }
    }
}

/// Updating one tile state changes the live count by the difference of the
/// old and the new entry.
proof fn lemma_live_count_update(
    s: Seq<(TileCoordinate, TileState)>,
    i: int,
    p: (TileCoordinate, TileState),
)
    requires
        0 <= i < s.len(),
    ensures
        live_count(s.update(i, p)) == live_count(s) - live1(s[i]) + live1(p),
    decreases s.len(),
{
    let t = s.update(i, p);
    if i == s.len() - 1 {
        assert(t.drop_last() =~= s.drop_last());
        assert(t.last() == p);
    } else {
        assert(t.drop_last() =~= s.drop_last().update(i, p));
        lemma_live_count_update(s.drop_last(), i, p);
        assert(t.last() == s.last());
    }
}

/// Removing one tile state lowers the live count by that entry's share.
proof fn lemma_live_count_remove(s: Seq<(TileCoordinate, TileState)>, i: int)
    requires
        0 <= i < s.len(),
    ensures
        live_count(s.remove(i)) == live_count(s) - live1(s[i]),
    decreases s.len(),
{
    let t = s.remove(i);
    if i == s.len() - 1 {
        assert(t =~= s.drop_last());
    } else {
        assert(t.drop_last() =~= s.drop_last().remove(i));
        lemma_live_count_remove(s.drop_last(), i);
        assert(t.last() == s.last());
    }
}

/// Appending one tile state raises the live count by that entry's share.
proof fn lemma_live_count_push(s: Seq<(TileCoordinate, TileState)>, p: (TileCoordinate, TileState))
    ensures
        live_count(s.push(p)) == live_count(s) + live1(p),
{
    assert(s.push(p).drop_last() =~= s);
    assert(s.push(p).last() == p);
}

/// Removing one value of a duplicate-free sequence: membership is kept for
/// every other value and lost for the removed one.
proof fn lemma_remove_contains_distinct(s: Seq<u32>, f: int)
    requires
        forall|a: int, b: int| 0 <= a < b < s.len() ==> #[trigger] s[a] != #[trigger] s[b],
        0 <= f < s.len(),
    ensures
        forall|x: u32| s.remove(f).contains(x) <==> (s.contains(x) && x != s[f]),
        forall|a: int, b: int|
            0 <= a < b < s.remove(f).len() ==> #[trigger] s.remove(f)[a] != #[trigger] s.remove(
                f,
            )[b],
        forall|a: int| 0 <= a < s.remove(f).len() ==> s.contains(#[trigger] s.remove(f)[a]),
{
    let t = s.remove(f);
    s.remove_ensures(f);
    assert forall|x: u32| t.contains(x) implies (s.contains(x) && x != s[f]) by {
        let k = choose|k: int| 0 <= k < t.len() && t[k] == x;
        if k < f {
            assert(s[k] == x);
            if x == s[f] {
                assert(s[k] != s[f]);
            }
        } else {
            assert(s[k + 1] == x);
            if x == s[f] {
                assert(s[f] != s[k + 1]);
            }
        }
    }
    assert forall|x: u32| (s.contains(x) && x != s[f]) implies t.contains(x) by {
        let j = choose|j: int| 0 <= j < s.len() && s[j] == x;
        if j < f {
            assert(t[j] == x);
        } else if j > f {
            assert(t[j - 1] == x);
        }
    }
    assert forall|a: int, b: int| 0 <= a < b < t.len() implies t[a] != t[b] by {
        let a0: int = if a < f { a } else { a + 1 };
        let b0: int = if b < f { b } else { b + 1 };
        assert(t[a] == s[a0]);
        assert(t[b] == s[b0]);
        assert(s[a0] != s[b0]);
    }
    assert forall|a: int| 0 <= a < t.len() implies s.contains(#[trigger] t[a]) by {
        let a0: int = if a < f { a } else { a + 1 };
        assert(t[a] == s[a0]);
    }
}

/// A request for a cached resident tile (no live requests) un-evicts it:
/// the invariant is kept and the step matches the request transformer.
proof fn lemma_request_cached_wf(m0: AtlasModel, m1: AtlasModel, c: TileCoordinate, i: int)
    requires
        m0.wf(),
        m0.existing.contains(c),
        0 <= i < m0.states.len(),
        m0.states[i].0 == c,
        m0.states[i].1.requests == 0,
        m1.atlas_size == m0.atlas_size,
        m1.face_count == m0.face_count,
        m1.lod_count == m0.lod_count,
        m1.labels == m0.labels,
        m1.existing == m0.existing,
        m1.states == m0.states.update(i, (c, TileState { requests: 1u32, ..m0.states[i].1 })),
        m1.unused == m0.unused.remove_value(m0.states[i].1.atlas_index),
        m1.to_load == m0.to_load,
        m1.uploads == m0.uploads,
    ensures
        m1.wf(),
        m0.spec_request(c) == Ok::<AtlasModel, AtlasError>(m1),
{
    let st = m0.states[i].1;
    let slot = st.atlas_index;
    lemma_state_index_is(m0, c, i);
    assert(m0.spec_request(c) == Ok::<AtlasModel, AtlasError>(m1)) by {
        let m2 = m0.spec_request(c).unwrap();
        assert(m2 =~= m1);
    }
    assert(!m0.slot_live(slot)) by {
        if m0.slot_live(slot) {
            let k = choose|k: int|
                0 <= k < m0.states.len() && (#[trigger] m0.states[k]).1.atlas_index == slot
                    && m0.states[k].1.requests > 0;
            assert(k != i);
            if k < i {
                assert(m0.states[k].1.atlas_index != m0.states[i].1.atlas_index);
            } else {
                assert(m0.states[i].1.atlas_index != m0.states[k].1.atlas_index);
            }
        }
    }
    assert(slot < m0.atlas_size);
    assert(m0.unused.contains(slot));
    m0.unused.index_of_first_ensures(slot);
    let f = m0.unused.index_of_first(slot).unwrap();
    assert(m1.unused == m0.unused.remove(f));
    m0.unused.remove_ensures(f);
    lemma_remove_contains_distinct(m0.unused, f);
    lemma_live_count_update(m0.states, i, (c, TileState { requests: 1u32, ..st }));
    assert(m1.states[i].1.atlas_index == slot);
    assert(m1.states[i].1.requests == 1);
    assert forall|s: u32| s < m1.atlas_size implies (m1.unused.contains(s) <==> !m1.slot_live(
        s,
    )) by {
        if s == slot {
            assert(m1.slot_live(slot)) by {
                assert(m1.states[i].1.atlas_index == slot && m1.states[i].1.requests > 0);
            }
            assert(!m1.unused.contains(slot));
        } else {
            assert(m1.unused.contains(s) == m0.unused.contains(s));
            assert(m1.slot_live(s) == m0.slot_live(s)) by {
                if m0.slot_live(s) {
                    let k = choose|k: int|
                        0 <= k < m0.states.len() && (#[trigger] m0.states[k]).1.atlas_index == s
                            && m0.states[k].1.requests > 0;
                    assert(k != i);
                    assert(m1.states[k] == m0.states[k]);
                    assert(m1.slot_live(s));
                }
                if m1.slot_live(s) {
                    let k = choose|k: int|
                        0 <= k < m1.states.len() && (#[trigger] m1.states[k]).1.atlas_index == s
                            && m1.states[k].1.requests > 0;
                    assert(k != i);
                    assert(m0.states[k] == m1.states[k]);
                    assert(m0.slot_live(s));
                }
            }
        }
    }
}

/// A request for a tile with live requests only raises the count: the
/// invariant is kept and the step matches the request transformer.
proof fn lemma_request_live_wf(m0: AtlasModel, m1: AtlasModel, c: TileCoordinate, i: int)
    requires
        m0.wf(),
        m0.existing.contains(c),
        0 <= i < m0.states.len(),
        m0.states[i].0 == c,
        0 < m0.states[i].1.requests < u32::MAX,
        m1.atlas_size == m0.atlas_size,
        m1.face_count == m0.face_count,
        m1.lod_count == m0.lod_count,
        m1.labels == m0.labels,
        m1.existing == m0.existing,
        m1.states == m0.states.update(
            i,
            (c, TileState { requests: (m0.states[i].1.requests + 1) as u32, ..m0.states[i].1 }),
        ),
        m1.unused == m0.unused,
        m1.to_load == m0.to_load,
        m1.uploads == m0.uploads,
    ensures
        m1.wf(),
        m0.spec_request(c) == Ok::<AtlasModel, AtlasError>(m1),
{
    let st = m0.states[i].1;
    lemma_state_index_is(m0, c, i);
    assert(m0.spec_request(c) == Ok::<AtlasModel, AtlasError>(m1)) by {
        let m2 = m0.spec_request(c).unwrap();
        assert(m2 =~= m1);
    }
    lemma_live_count_update(
        m0.states,
        i,
        (c, TileState { requests: (st.requests + 1) as u32, ..st }),
    );
    assert forall|s: u32| s < m1.atlas_size implies (m1.unused.contains(s) <==> !m1.slot_live(
        s,
    )) by {
        assert(m1.slot_live(s) == m0.slot_live(s)) by {
            if m0.slot_live(s) {
                let k = choose|k: int|
                    0 <= k < m0.states.len() && (#[trigger] m0.states[k]).1.atlas_index == s
                        && m0.states[k].1.requests > 0;
                if k == i {
                    assert(m1.states[i].1.atlas_index == s && m1.states[i].1.requests > 0);
                } else {
                    assert(m1.states[k] == m0.states[k]);
                }
                assert(m1.slot_live(s));
            }
            if m1.slot_live(s) {
                let k = choose|k: int|
                    0 <= k < m1.states.len() && (#[trigger] m1.states[k]).1.atlas_index == s
                        && m1.states[k].1.requests > 0;
                if k == i {
                    assert(m0.states[i].1.atlas_index == s && m0.states[i].1.requests > 0);
                } else {
                    assert(m0.states[k] == m1.states[k]);
                }
                assert(m0.slot_live(s));
            }
        }
    }
}

/// The last release of a tile parks its slot at the back of the free list:
/// the invariant is kept and the step matches the release transformer.
proof fn lemma_release_last_wf(m0: AtlasModel, m1: AtlasModel, c: TileCoordinate, i: int)
    requires
        m0.wf(),
        m0.existing.contains(c),
        0 <= i < m0.states.len(),
        m0.states[i].0 == c,
        m0.states[i].1.requests == 1,
        m1.atlas_size == m0.atlas_size,
        m1.face_count == m0.face_count,
        m1.lod_count == m0.lod_count,
        m1.labels == m0.labels,
        m1.existing == m0.existing,
        m1.states == m0.states.update(i, (c, TileState { requests: 0u32, ..m0.states[i].1 })),
        m1.unused == m0.unused.push(m0.states[i].1.atlas_index),
        m1.to_load == m0.to_load,
        m1.uploads == m0.uploads,
    ensures
        m1.wf(),
        m0.spec_release(c) == Ok::<AtlasModel, AtlasError>(m1),
{
    let st = m0.states[i].1;
    let slot = st.atlas_index;
    lemma_state_index_is(m0, c, i);
    assert(m0.spec_release(c) == Ok::<AtlasModel, AtlasError>(m1)) by {
        let m2 = m0.spec_release(c).unwrap();
        assert(m2 =~= m1);
    }
    assert(m0.slot_live(slot)) by {
        assert(m0.states[i].1.atlas_index == slot && m0.states[i].1.requests > 0);
    }
    assert(slot < m0.atlas_size);
    assert(!m0.unused.contains(slot));
    lemma_live_count_update(m0.states, i, (c, TileState { requests: 0u32, ..st }));
    // the appended slot is fresh, so the free list stays duplicate free
    assert forall|a: int, b: int| 0 <= a < b < m1.unused.len() implies #[trigger] m1.unused[a]
        != #[trigger] m1.unused[b] by {
        if b == m1.unused.len() - 1 {
            assert(m1.unused[b] == slot);
            assert(m0.unused[a] == m1.unused[a]);
            if m1.unused[a] == slot {
                assert(m0.unused.contains(slot));
            }
        } else {
            assert(m1.unused[a] == m0.unused[a]);
            assert(m1.unused[b] == m0.unused[b]);
        }
    }
    assert(!m1.slot_live(slot)) by {
        if m1.slot_live(slot) {
            let k = choose|k: int|
                0 <= k < m1.states.len() && (#[trigger] m1.states[k]).1.atlas_index == slot
                    && m1.states[k].1.requests > 0;
            assert(k != i);
            if k < i {
                assert(m0.states[k].1.atlas_index != m0.states[i].1.atlas_index);
            } else {
                assert(m0.states[i].1.atlas_index != m0.states[k].1.atlas_index);
            }
        }
    }
    assert forall|s: u32| s < m1.atlas_size implies (m1.unused.contains(s) <==> !m1.slot_live(
        s,
    )) by {
        if s == slot {
            assert(m1.unused.contains(slot)) by {
                assert(m1.unused[m1.unused.len() - 1] == slot);
            }
        } else {
            assert(m1.unused.contains(s) == m0.unused.contains(s)) by {
                if m0.unused.contains(s) {
                    let k = choose|k: int| 0 <= k < m0.unused.len() && m0.unused[k] == s;
                    assert(m1.unused[k] == s);
                }
                if m1.unused.contains(s) {
                    let k = choose|k: int| 0 <= k < m1.unused.len() && m1.unused[k] == s;
                    assert(k != m1.unused.len() - 1);
                    assert(m0.unused[k] == s);
                }
            }
            assert(m1.slot_live(s) == m0.slot_live(s)) by {
                if m0.slot_live(s) {
                    let k = choose|k: int|
                        0 <= k < m0.states.len() && (#[trigger] m0.states[k]).1.atlas_index == s
                            && m0.states[k].1.requests > 0;
                    assert(k != i);
                    assert(m1.states[k] == m0.states[k]);
                    assert(m1.slot_live(s));
                }
                if m1.slot_live(s) {
                    let k = choose|k: int|
                        0 <= k < m1.states.len() && (#[trigger] m1.states[k]).1.atlas_index == s
                            && m1.states[k].1.requests > 0;
                    assert(k != i);
                    assert(m0.states[k] == m1.states[k]);
                    assert(m0.slot_live(s));
                }
            }
        }
    }
}

/// A release that leaves live requests only lowers the count: the invariant
/// is kept and the step matches the release transformer.
proof fn lemma_release_live_wf(m0: AtlasModel, m1: AtlasModel, c: TileCoordinate, i: int)
    requires
        m0.wf(),
        m0.existing.contains(c),
        0 <= i < m0.states.len(),
        m0.states[i].0 == c,
        m0.states[i].1.requests > 1,
        m1.atlas_size == m0.atlas_size,
        m1.face_count == m0.face_count,
        m1.lod_count == m0.lod_count,
        m1.labels == m0.labels,
        m1.existing == m0.existing,
        m1.states == m0.states.update(
            i,
            (c, TileState { requests: (m0.states[i].1.requests - 1) as u32, ..m0.states[i].1 }),
        ),
        m1.unused == m0.unused,
        m1.to_load == m0.to_load,
        m1.uploads == m0.uploads,
    ensures
        m1.wf(),
        m0.spec_release(c) == Ok::<AtlasModel, AtlasError>(m1),
{
    let st = m0.states[i].1;
    lemma_state_index_is(m0, c, i);
    assert(m0.spec_release(c) == Ok::<AtlasModel, AtlasError>(m1)) by {
        let m2 = m0.spec_release(c).unwrap();
        assert(m2 =~= m1);
    }
    lemma_live_count_update(
        m0.states,
        i,
        (c, TileState { requests: (st.requests - 1) as u32, ..st }),
    );
    assert forall|s: u32| s < m1.atlas_size implies (m1.unused.contains(s) <==> !m1.slot_live(
        s,
    )) by {
        assert(m1.slot_live(s) == m0.slot_live(s)) by {
            if m0.slot_live(s) {
                let k = choose|k: int|
                    0 <= k < m0.states.len() && (#[trigger] m0.states[k]).1.atlas_index == s
                        && m0.states[k].1.requests > 0;
                if k == i {
                    assert(m1.states[i].1.atlas_index == s && m1.states[i].1.requests > 0);
                } else {
                    assert(m1.states[k] == m0.states[k]);
                }
                assert(m1.slot_live(s));
            }
            if m1.slot_live(s) {
                let k = choose|k: int|
                    0 <= k < m1.states.len() && (#[trigger] m1.states[k]).1.atlas_index == s
                        && m1.states[k].1.requests > 0;
                if k == i {
                    assert(m0.states[i].1.atlas_index == s && m0.states[i].1.requests > 0);
                } else {
                    assert(m0.states[k] == m1.states[k]);
                }
                assert(m0.slot_live(s));
            }
        }
    }
}

/// Merging one finished load touches only the loading counter and the
/// upload queue: the invariant is kept and the step matches the transformer.
proof fn lemma_loaded_wf(m0: AtlasModel, m1: AtlasModel, i: int)
    requires
        m0.wf(),
        0 <= i < m0.states.len(),
        m1.atlas_size == m0.atlas_size,
        m1.face_count == m0.face_count,
        m1.lod_count == m0.lod_count,
        m1.labels == m0.labels,
        m1.existing == m0.existing,
        m1.states.len() == m0.states.len(),
        m1.states[i].0 == m0.states[i].0,
        m1.states[i].1.atlas_index == m0.states[i].1.atlas_index,
        m1.states[i].1.requests == m0.states[i].1.requests,
        forall|k: int| 0 <= k < m0.states.len() && k != i ==> m1.states[k] == m0.states[k],
        m1.unused == m0.unused,
        m1.to_load == m0.to_load,
    ensures
        m1.wf(),
{
    assert(live_count(m1.states) == live_count(m0.states)) by {
        assert(m1.states =~= m0.states.update(i, m1.states[i]));
        lemma_live_count_update(m0.states, i, m1.states[i]);
    }
    assert forall|s: u32| s < m1.atlas_size implies (m1.unused.contains(s) <==> !m1.slot_live(
        s,
    )) by {
        assert(m1.slot_live(s) == m0.slot_live(s)) by {
            if m0.slot_live(s) {
                let k = choose|k: int|
                    0 <= k < m0.states.len() && (#[trigger] m0.states[k]).1.atlas_index == s
                        && m0.states[k].1.requests > 0;
                assert(m1.states[k].1.atlas_index == s && m1.states[k].1.requests > 0);
                assert(m1.slot_live(s));
            }
            if m1.slot_live(s) {
                let k = choose|k: int|
                    0 <= k < m1.states.len() && (#[trigger] m1.states[k]).1.atlas_index == s
                        && m1.states[k].1.requests > 0;
                assert(m0.states[k].1.atlas_index == s && m0.states[k].1.requests > 0);
                assert(m0.slot_live(s));
            }
        }
    }
    assert forall|k: int| 0 <= k < m1.states.len() implies m1.existing.contains(
        (#[trigger] m1.states[k]).0,
    ) by {
        assert(m1.states[k].0 == m0.states[k].0);
        assert(m0.existing.contains(m0.states[k].0));
    }
}

/// A fresh request takes the slot at the front of the free list, evicts
/// that slot's stale tile and queues one load job per attachment: the
/// invariant is kept and the step matches the request transformer.
proof fn lemma_request_fresh_wf(
    m0: AtlasModel,
    m1: AtlasModel,
    c: TileCoordinate,
    evicted: Seq<(TileCoordinate, TileState)>,
)
    requires
        m0.wf(),
        m0.existing.contains(c),
        !m0.has_state(c),
        m0.unused.len() > 0,
        evicted == (if m0.slot_resident(m0.unused[0]) {
            m0.states.remove(m0.slot_index(m0.unused[0]))
        } else {
            m0.states
        }),
        m1.atlas_size == m0.atlas_size,
        m1.face_count == m0.face_count,
        m1.lod_count == m0.lod_count,
        m1.labels == m0.labels,
        m1.existing == m0.existing,
        m1.states == evicted.push(
            (
                c,
                TileState {
                    state: LoadingState::Loading(m0.labels.len() as u32),
                    atlas_index: m0.unused[0],
                    requests: 1,
                },
            ),
        ),
        m1.unused == m0.unused.drop_first(),
        m1.to_load == m0.to_load + m0.labels.map_values(
            |l: AttachmentLabel| AttachmentTile { coordinate: c, label: l },
        ),
        m1.uploads == m0.uploads,
    ensures
        m1.wf(),
        m0.spec_request(c) == Ok::<AtlasModel, AtlasError>(m1),
{
    let slot = m0.unused[0];
    assert(m0.unused.contains(slot));
    assert(!m0.slot_live(slot));
    assert(slot < m0.atlas_size);
    assert(m0.spec_request(c) == Ok::<AtlasModel, AtlasError>(m1)) by {
        let m2 = m0.spec_request(c).unwrap();
        assert(m2 =~= m1);
    }
    let newp = (
        c,
        TileState {
            state: LoadingState::Loading(m0.labels.len() as u32),
            atlas_index: slot,
            requests: 1,
        },
    );
    let last = m1.states.len() - 1;
    assert(m1.states[last] == newp);
    if m0.slot_resident(slot) {
        let e = m0.slot_index(slot);
        assert(0 <= e < m0.states.len() && m0.states[e].1.atlas_index == slot);
        assert(m0.states[e].1.requests == 0) by {
            if m0.states[e].1.requests > 0 {
                assert(m0.slot_live(slot));
            }
        }
        m0.states.remove_ensures(e);
        lemma_live_count_remove(m0.states, e);
        lemma_live_count_push(evicted, newp);
        // every surviving entry keeps its place in the old sequence
        assert forall|k: int| 0 <= k < evicted.len() implies exists|k0: int|
            0 <= k0 < m0.states.len() && k0 != e && #[trigger] evicted[k] == m0.states[k0] by {
            if k < e {
                assert(evicted[k] == m0.states[k]);
            } else {
                assert(evicted[k] == m0.states[k + 1]);
            }
        }
    } else {
        lemma_live_count_push(evicted, newp);
    }
    // uniqueness of coordinates and slots in the new residence list
    assert forall|a: int, b: int| 0 <= a < b < m1.states.len() implies (#[trigger] m1.states[a]).0
        != (#[trigger] m1.states[b]).0 && m1.states[a].1.atlas_index
        != m1.states[b].1.atlas_index by {
        if b == last {
            let a0: int = if m0.slot_resident(slot) && a >= m0.slot_index(slot) {
                a + 1
            } else {
                a
            };
            if m0.slot_resident(slot) {
                m0.states.remove_ensures(m0.slot_index(slot));
            }
            assert(m1.states[a] == m0.states[a0]);
            // the fresh coordinate is not resident
            if m1.states[a].0 == c {
                assert(m0.has_state(c));
            }
            // the fresh slot's stale holder was evicted
            if m1.states[a].1.atlas_index == slot {
                if m0.slot_resident(slot) {
                    let e = m0.slot_index(slot);
                    assert(a0 != e);
                    if a0 < e {
                        assert(m0.states[a0].1.atlas_index != m0.states[e].1.atlas_index);
                    } else {
                        assert(m0.states[e].1.atlas_index != m0.states[a0].1.atlas_index);
                    }
                } else {
                    assert(m0.slot_resident(slot)) by {
                        assert(m0.states[a0].1.atlas_index == slot);
                    }
                }
            }
        } else {
            let (a0, b0): (int, int) = if m0.slot_resident(slot) {
                let e = m0.slot_index(slot);
                m0.states.remove_ensures(e);
                ((if a < e { a } else { a + 1 }), (if b < e { b } else { b + 1 }))
            } else {
                (a, b)
            };
            assert(m1.states[a] == m0.states[a0]);
            assert(m1.states[b] == m0.states[b0]);
            assert(a0 < b0);
            assert(m0.states[a0].0 != m0.states[b0].0);
            assert(m0.states[a0].1.atlas_index != m0.states[b0].1.atlas_index);
        }
    }
    // the free list shrinks at the front and stays duplicate free
    assert forall|a: int, b: int| 0 <= a < b < m1.unused.len() implies #[trigger] m1.unused[a]
        != #[trigger] m1.unused[b] by {
        assert(m1.unused[a] == m0.unused[a + 1]);
        assert(m1.unused[b] == m0.unused[b + 1]);
    }
    assert forall|a: int| 0 <= a < m1.unused.len() implies #[trigger] m1.unused[a]
        < m1.atlas_size by {
        assert(m1.unused[a] == m0.unused[a + 1]);
    }
    // the free list still holds exactly the slots of no live tile
    assert forall|s: u32| s < m1.atlas_size implies (m1.unused.contains(s) <==> !m1.slot_live(
        s,
    )) by {
        if s == slot {
            assert(m1.slot_live(slot)) by {
                assert(m1.states[last].1.atlas_index == slot && m1.states[last].1.requests > 0);
            }
            assert(!m1.unused.contains(slot)) by {
                if m1.unused.contains(slot) {
                    let k = choose|k: int| 0 <= k < m1.unused.len() && m1.unused[k] == slot;
                    assert(m1.unused[k] == m0.unused[k + 1]);
                    assert(m0.unused[0] != m0.unused[k + 1]);
                }
            }
        } else {
            assert(m1.unused.contains(s) == m0.unused.contains(s)) by {
                if m0.unused.contains(s) {
                    let k = choose|k: int| 0 <= k < m0.unused.len() && m0.unused[k] == s;
                    assert(k != 0);
                    assert(m1.unused[k - 1] == s);
                }
                if m1.unused.contains(s) {
                    let k = choose|k: int| 0 <= k < m1.unused.len() && m1.unused[k] == s;
                    assert(m0.unused[k + 1] == s);
                }
            }
            assert(m1.slot_live(s) == m0.slot_live(s)) by {
                if m0.slot_live(s) {
                    let k = choose|k: int|
                        0 <= k < m0.states.len() && (#[trigger] m0.states[k]).1.atlas_index == s
                            && m0.states[k].1.requests > 0;
                    let k1: int = if m0.slot_resident(slot) {
                        let e = m0.slot_index(slot);
                        if k == e {
                            assert(m0.states[e].1.atlas_index == slot);
                            0
                        } else if k < e {
                            k
                        } else {
                            k - 1
                        }
                    } else {
                        k
                    };
                    if m0.slot_resident(slot) {
                        m0.states.remove_ensures(m0.slot_index(slot));
                    }
                    assert(m1.states[k1] == m0.states[k]);
                    assert(m1.slot_live(s));
                }
                if m1.slot_live(s) {
                    let k = choose|k: int|
                        0 <= k < m1.states.len() && (#[trigger] m1.states[k]).1.atlas_index == s
                            && m1.states[k].1.requests > 0;
                    assert(k != last);
                    let k0: int = if m0.slot_resident(slot) && k >= m0.slot_index(slot) {
                        k + 1
                    } else {
                        k
                    };
                    if m0.slot_resident(slot) {
                        m0.states.remove_ensures(m0.slot_index(slot));
                    }
                    assert(m1.states[k] == m0.states[k0]);
                    assert(m0.slot_live(s));
                }
            }
        }
    }
    // every resident coordinate still exists in the dataset
    assert forall|k: int| 0 <= k < m1.states.len() implies m1.existing.contains(
        (#[trigger] m1.states[k]).0,
    ) by {
        if k != last {
            let k0: int = if m0.slot_resident(slot) && k >= m0.slot_index(slot) {
                k + 1
            } else {
                k
            };
            if m0.slot_resident(slot) {
                m0.states.remove_ensures(m0.slot_index(slot));
            }
            assert(m1.states[k] == m0.states[k0]);
            assert(m0.existing.contains(m0.states[k0].0));
        }
    }
}

} // verus!
