//! The tile loader: bounded-concurrency scheduling of tile fetches.
//!
//! The loader draws pending load jobs from the atlas while it has capacity
//! and merges finished fetches back into the atlas. The fetch itself
//! (reading a tile file asynchronously) is the embedding application's
//! affair; the loader accounts for the in-flight budget, decodes finished
//! bytes and applies the completion, dropping failed or malformed fetches
//! so the tile stays loading and is retried by a later request.

use vstd::prelude::*;
use crate::atlas::{AtlasError, AtlasModel, TileAtlas};
use crate::attachment::{label_eq, Attachment, AttachmentData, AttachmentFormat, AttachmentLabel, AttachmentTile};

verus! {

/// Tracks the in-flight fetch budget of one atlas.
pub struct DefaultLoader {
    /// The number of fetches currently in flight.
    pub loading_count: u32,
    /// The most fetches allowed in flight at once.
    pub capacity: u32,
}

impl DefaultLoader {
    /// The in-flight count never exceeds the budget.
    pub open spec fn wf(self) -> bool {
        self.loading_count <= self.capacity
    }
}

impl Default for DefaultLoader {
    /// An idle loader with a budget of 32 concurrent fetches.
    fn default() -> (r: Self)
        ensures
            r.loading_count == 0,
            r.capacity == 32,
            r.wf(),
    {
        DefaultLoader { loading_count: 0, capacity: 32 }
    }
}

/// The format of the attachment carrying `label`, if one does.
pub open spec fn spec_label_format(
    attachments: Seq<(AttachmentLabel, Attachment)>,
    label: AttachmentLabel,
) -> Option<AttachmentFormat> {
    if exists|i: int|
        0 <= i < attachments.len() && label_eq((#[trigger] attachments[i]).0, label) {
        Some(
            attachments[choose|i: int|
                0 <= i < attachments.len() && label_eq((#[trigger] attachments[i]).0, label)].1.format,
        )
    } else {
        None
    }
}

impl DefaultLoader {
    /// Pulls load jobs from the atlas's queue, newest first, until the
    /// in-flight budget is reached or the queue is empty, and returns them
    /// for the embedding application to fetch.
    pub fn start_loading(&mut self, atlas: &mut TileAtlas) -> (jobs: Vec<AttachmentTile>)
        requires
            old(self).wf(),
            old(atlas).wf(),
        ensures
            final(self).wf(),
            final(atlas).wf(),
            final(self).capacity == old(self).capacity,
            jobs@.len() == vstd::math::min(
                old(self).capacity - old(self).loading_count,
                old(atlas).to_load@.len() as int,
            ),
            final(self).loading_count == old(self).loading_count + jobs@.len(),
            final(atlas).to_load@ == old(atlas).to_load@.take(
                old(atlas).to_load@.len() - jobs@.len(),
            ),
            forall|i: int|
                0 <= i < jobs@.len() ==> #[trigger] jobs@[i] == old(atlas).to_load@[old(
                    atlas,
                ).to_load@.len() - 1 - i],
            final(atlas).tile_states == old(atlas).tile_states,
            final(atlas).unused_indices == old(atlas).unused_indices,
            final(atlas).attachments == old(atlas).attachments,
            final(atlas).existing_tiles == old(atlas).existing_tiles,
            final(atlas).uploading_tiles == old(atlas).uploading_tiles,
            final(atlas).atlas_size == old(atlas).atlas_size,
            final(atlas).lod_count == old(atlas).lod_count,
            final(atlas).shape == old(atlas).shape,
    {
        let mut jobs: Vec<AttachmentTile> = Vec::new();
        let queued = atlas.to_load.len();
        let room = (self.capacity - self.loading_count) as usize;
        let n = if room < queued {
            room
        } else {
            queued
        };
        let mut i: usize = 0;
        while i < n
            invariant
                i <= n,
                n <= queued,
                n <= room,
                room == old(self).capacity - old(self).loading_count,
                queued == old(atlas).to_load@.len(),
                jobs@.len() == i,
                atlas.to_load@ == old(atlas).to_load@.take(queued - i),
                forall|j: int|
                    0 <= j < i ==> #[trigger] jobs@[j] == old(atlas).to_load@[queued - 1 - j],
                atlas.tile_states == old(atlas).tile_states,
                atlas.unused_indices == old(atlas).unused_indices,
                atlas.attachments == old(atlas).attachments,
                atlas.existing_tiles == old(atlas).existing_tiles,
                atlas.uploading_tiles == old(atlas).uploading_tiles,
                atlas.atlas_size == old(atlas).atlas_size,
                atlas.lod_count == old(atlas).lod_count,
                atlas.shape == old(atlas).shape,
                *self == *old(self),
            decreases n - i,
        {
            proof {
                assert(atlas.to_load@.len() == queued - i);
            }
            match atlas.to_load.pop() {
                Some(t) => {
                    jobs.push(t);
                    proof {
                        assert(atlas.to_load@ =~= old(atlas).to_load@.take(queued - (i + 1)));
                    }
                },
                None => {
                    proof {
                        assert(false);
                    }
                },
            }
            i = i + 1;
        }
        proof {
            let m0 = old(atlas).model();
            let m1 = atlas.model();
            assert(m1.states == m0.states);
            assert(m1.unused == m0.unused);
            assert(m1.existing == m0.existing);
            assert(m1.labels == m0.labels);
            assert(m1.atlas_size == m0.atlas_size);
            assert(m1.face_count == m0.face_count);
            assert(m1.lod_count == m0.lod_count);
            crate::atlas::lemma_wf_ignores_queues(m0, m1);
        }
        self.loading_count = self.loading_count + n as u32;
        jobs
    }

    /// Merges the outcome of one fetch started by [`Self::start_loading`].
    ///
    /// `bytes` holds the fetched file contents, or nothing when the fetch
    /// failed. A failed fetch, one whose label matches no attachment, or
    /// one whose byte count does not fill whole pixels is dropped without
    /// touching the atlas: the tile stays loading and a later pass may
    /// retry it. Sound bytes are decoded and applied to the atlas.
    pub fn finish_tile(
        &mut self,
        atlas: &mut TileAtlas,
        tile: AttachmentTile,
        bytes: Option<Vec<u8>>,
    ) -> (r: Result<(), AtlasError>)
        requires
            old(self).wf(),
            old(self).loading_count >= 1,
            old(atlas).wf(),
        ensures
            final(self).wf(),
            final(atlas).wf(),
            final(self).capacity == old(self).capacity,
            final(self).loading_count == old(self).loading_count - 1,
            final(atlas).attachments == old(atlas).attachments,
            ({
                let fmt = spec_label_format(old(atlas).attachments@, tile.label);
                let dropped = bytes is None || fmt is None || !(bytes.unwrap()@.len() % (
                fmt.unwrap().spec_source_stride() as nat) == 0);
                if dropped {
                    r is Ok && *final(atlas) == *old(atlas)
                } else {
                    match old(atlas).model().spec_loaded(
                        tile.coordinate,
                        tile.label,
                        fmt.unwrap(),
                        crate::attachment::spec_decode(fmt.unwrap(), bytes.unwrap()@),
                    ) {
                        Ok(m) => r is Ok && final(atlas).model() == m,
                        Err(e) => r == Err::<(), AtlasError>(e) && final(atlas).model() == old(
                            atlas,
                        ).model(),
                    }
                }
            }),
    {
        self.loading_count = self.loading_count - 1;
        let data = match bytes {
            Some(b) => b,
            None => {
                return Ok(());
            },
        };
        let format = match find_format(atlas, &tile.label) {
            Some(f) => f,
            None => {
                return Ok(());
            },
        };
        let stride = format.source_stride();
        if data.len() % (stride as usize) != 0 {
            return Ok(());
        }
        let decoded = AttachmentData::from_bytes(data.as_slice(), format);
        atlas.tile_loaded(tile, decoded)
    }
}

/// Looks up the format of the attachment carrying `label`.
fn find_format(atlas: &TileAtlas, label: &AttachmentLabel) -> (r: Option<AttachmentFormat>)
    requires
        atlas.wf(),
    ensures
        r == spec_label_format(atlas.attachments@, *label),
{
    let n = atlas.attachments.len();
    let mut i: usize = 0;
    while i < n
        invariant
            atlas.wf(),
            i <= n,
            n == atlas.attachments@.len(),
            forall|j: int| 0 <= j < i ==> !label_eq((#[trigger] atlas.attachments@[j]).0, *label),
        decreases n - i,
    {
        if atlas.attachments[i].0.eq(label) {
            proof {
                lemma_labels_distinct(atlas);
                lemma_label_format_at(atlas.attachments@, *label, i as int);
            }
            return Some(atlas.attachments[i].1.format);
        }
        i = i + 1;
    }
    proof {
        if exists|j: int|
            0 <= j < atlas.attachments@.len() && label_eq(
                (#[trigger] atlas.attachments@[j]).0,
                *label,
            ) {
            let j = choose|j: int|
                0 <= j < atlas.attachments@.len() && label_eq(
                    (#[trigger] atlas.attachments@[j]).0,
                    *label,
                );
            assert(!label_eq(atlas.attachments@[j].0, *label));
        }
    }
    None
}

/// A well-formed atlas carries pairwise distinct attachment labels.
proof fn lemma_labels_distinct(atlas: &TileAtlas)
    requires
        atlas.wf(),
    ensures
        forall|a: int, b: int|
            0 <= a < b < atlas.attachments@.len() ==> !label_eq(
                (#[trigger] atlas.attachments@[a]).0,
                (#[trigger] atlas.attachments@[b]).0,
            ),
{
    let m = atlas.model();
    assert forall|a: int, b: int| 0 <= a < b < atlas.attachments@.len() implies !label_eq(
        (#[trigger] atlas.attachments@[a]).0,
        (#[trigger] atlas.attachments@[b]).0,
    ) by {
        assert(m.labels[a] == atlas.attachments@[a].0);
        assert(m.labels[b] == atlas.attachments@[b].0);
        assert(!label_eq(m.labels[a], m.labels[b]));
    }
}

/// With pairwise distinct labels, the attachment found at `i` is the one
/// the lookup designates.
proof fn lemma_label_format_at(
    attachments: Seq<(AttachmentLabel, Attachment)>,
    label: AttachmentLabel,
    i: int,
)
    requires
        forall|a: int, b: int|
            0 <= a < b < attachments.len() ==> !label_eq(
                (#[trigger] attachments[a]).0,
                (#[trigger] attachments[b]).0,
            ),
        0 <= i < attachments.len(),
        label_eq(attachments[i].0, label),
    ensures
        spec_label_format(attachments, label) == Some(attachments[i].1.format),
{
    let j = choose|j: int|
        0 <= j < attachments.len() && label_eq((#[trigger] attachments[j]).0, label);
    if j != i {
        let (a, b): (int, int) = if j < i {
            (j, i)
        } else {
            (i, j)
        };
        assert(!label_eq(attachments[a].0, attachments[b].0));
        lemma_label_eq_trans(attachments[a].0, attachments[b].0, label);
    }
}

/// Label equality is transitive through a shared right-hand side.
proof fn lemma_label_eq_trans(a: AttachmentLabel, b: AttachmentLabel, c: AttachmentLabel)
    ensures
        label_eq(a, c) && label_eq(b, c) ==> label_eq(a, b),
{
}

} // verus!
