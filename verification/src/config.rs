//! Dataset configuration: the shape of the planet, the level count, the
//! attachment channels and the existence set of tiles.

use vstd::prelude::*;
use crate::attachment::{label_eq, AttachmentConfig, AttachmentLabel};
use crate::coord::TileCoordinate;

verus! {

/// The geometric shape of the dataset's surface.
///
/// The dimensions of the surface (side length, radii) only matter to the
/// floating-point render path and are carried by the embedding application;
/// the cache itself reads only the face structure.
#[derive(Clone, Copy, Debug, PartialEq, Eq, Structural)]
pub enum EarthShape {
    /// A flat, single-face surface.
    Plane,
    /// A spherical surface, subdivided as a cube sphere.
    Sphere,
    /// An oblate spheroid (such as WGS84), subdivided as a cube sphere.
    Spheroid,
}

impl EarthShape {
    /// The number of quadtree faces of the surface: one for a plane, six
    /// for a cube sphere.
    pub open spec fn spec_face_count(self) -> u32 {
        if self == EarthShape::Plane {
            1
        } else {
            6
        }
    }

    /// Whether the surface is curved (a sphere or spheroid).
    pub fn is_spherical(self) -> (r: bool)
        ensures
            r == (self != EarthShape::Plane),
    {
        match self {
            EarthShape::Plane => false,
            EarthShape::Sphere => true,
            EarthShape::Spheroid => true,
        }
    }

    /// The number of quadtree faces of the surface.
    pub fn face_count(self) -> (r: u32)
        ensures
            r == self.spec_face_count(),
    {
        if self.is_spherical() {
            6
        } else {
            1
        }
    }
}

/// The configuration of one dataset: where its tile files live, how it is
/// shaped and subdivided, which channels it carries, and which tiles exist.
#[derive(Clone, Debug)]
pub struct EarthConfig {
    /// The directory that holds the dataset.
    pub path: String,
    /// The shape of the surface.
    pub shape: EarthShape,
    /// The number of levels of detail of the dataset.
    pub lod_count: u32,
    /// The attachment channels, with pairwise distinct labels.
    pub attachments: Vec<(AttachmentLabel, AttachmentConfig)>,
    /// The existence set: the tiles for which data exists.
    pub tiles: Vec<TileCoordinate>,
}

impl EarthConfig {
    /// The attachment labels are pairwise distinct.
    pub open spec fn labels_distinct(self) -> bool {
        forall|i: int, j: int|
            0 <= i < j < self.attachments@.len() ==> !label_eq(
                #[trigger] self.attachments@[i].0,
                #[trigger] self.attachments@[j].0,
            )
    }

    /// Labels are distinct, each channel configuration is well formed, the
    /// channel count fits the loading counter, and every tile of the
    /// existence set lies within the configured faces and levels.
    pub open spec fn wf(self) -> bool {
        &&& self.labels_distinct()
        &&& self.attachments@.len() < u32::MAX
        &&& forall|i: int|
            0 <= i < self.attachments@.len() ==> (#[trigger] self.attachments@[i].1).wf()
        &&& forall|i: int|
            0 <= i < self.tiles@.len() ==> (#[trigger] self.tiles@[i]).wf(
                self.shape.spec_face_count() as nat,
                self.lod_count as nat,
            )
    }

    /// Registers a channel under `label`, replacing the configuration of an
    /// existing channel with an equal label.
    pub fn add_attachment(&mut self, label: AttachmentLabel, attachment: AttachmentConfig)
        requires
            old(self).labels_distinct(),
        ensures
            ({
                let found = exists|i: int|
                    0 <= i < old(self).attachments@.len() && label_eq(
                        #[trigger] old(self).attachments@[i].0,
                        label,
                    );
                if found {
                    final(self).attachments@ == old(self).attachments@.update(
                        choose|i: int|
                            0 <= i < old(self).attachments@.len() && label_eq(
                                #[trigger] old(self).attachments@[i].0,
                                label,
                            ),
                        (label, attachment),
                    )
                } else {
                    final(self).attachments@ == old(self).attachments@.push((label, attachment))
                }
            }),
            final(self).path == old(self).path,
            final(self).shape == old(self).shape,
            final(self).lod_count == old(self).lod_count,
            final(self).tiles == old(self).tiles,
    {
        let n = self.attachments.len();
        let mut i: usize = 0;
        while i < n
            invariant
                i <= n,
                n == self.attachments@.len(),
                *self == *old(self),
                old(self).labels_distinct(),
                forall|j: int| 0 <= j < i ==> !label_eq(self.attachments@[j].0, label),
            decreases n - i,
        {
            if self.attachments[i].0.eq(&label) {
                proof {
                    assert(label_eq(self.attachments@[i as int].0, label));
                    let k = choose|k: int|
                        0 <= k < old(self).attachments@.len() && label_eq(
                            #[trigger] old(self).attachments@[k].0,
                            label,
                        );
                    assert(k == i as int) by {
                        if k < i as int {
                            assert(!label_eq(self.attachments@[k].0, label));
                        }
                        if k > i as int {
                            assert(!label_eq(
                                old(self).attachments@[i as int].0,
                                old(self).attachments@[k].0,
                            ));
                            lemma_label_eq_properties(
                                old(self).attachments@[i as int].0,
                                old(self).attachments@[k].0,
                                label,
                            );
                        }
                    }
                }
                self.attachments.set(i, (label, attachment));
                return;
            }
            i = i + 1;
        }
        self.attachments.push((label, attachment));
    }
}

/// Deployment-time settings of the cache: which channels are streamed and
/// how many slots the atlas pool holds. The pool size is a capacity-
/// planning parameter; exhausting it at runtime is a fatal error.
#[derive(Clone, Debug)]
pub struct EarthSettings {
    /// The attachment channels to stream.
    pub attachments: Vec<AttachmentLabel>,
    /// The number of slots of the tile atlas.
    pub atlas_size: u32,
}

impl Default for EarthSettings {
    /// The five standard channels and a pool of 1028 slots.
    fn default() -> (r: Self)
        ensures
            r.attachments@ == seq![
                AttachmentLabel::Topography,
                AttachmentLabel::DayTime,
                AttachmentLabel::NightTime,
                AttachmentLabel::OceanMask,
                AttachmentLabel::Bathyometry,
            ],
            r.atlas_size == 1028,
    {
        let mut attachments: Vec<AttachmentLabel> = Vec::new();
        attachments.push(AttachmentLabel::Topography);
        attachments.push(AttachmentLabel::DayTime);
        attachments.push(AttachmentLabel::NightTime);
        attachments.push(AttachmentLabel::OceanMask);
        attachments.push(AttachmentLabel::Bathyometry);
        proof {
            assert(attachments@ =~= seq![
                AttachmentLabel::Topography,
                AttachmentLabel::DayTime,
                AttachmentLabel::NightTime,
                AttachmentLabel::OceanMask,
                AttachmentLabel::Bathyometry,
            ]);
        }
        EarthSettings { attachments, atlas_size: 1028 }
    }
}

impl Default for EarthConfig {
    /// An empty spheroidal dataset with six levels of detail.
    fn default() -> (r: Self)
        ensures
            r.path@ == Seq::<char>::empty(),
            r.shape == EarthShape::Spheroid,
            r.lod_count == 6,
            r.attachments@ == Seq::<(AttachmentLabel, AttachmentConfig)>::empty(),
            r.tiles@ == Seq::<TileCoordinate>::empty(),
            r.wf(),
    {
        EarthConfig {
            path: String::new(),
            shape: EarthShape::Spheroid,
            lod_count: 6,
            attachments: Vec::new(),
            tiles: Vec::new(),
        }
    }
}

/// Label equality is symmetric and transitive.
proof fn lemma_label_eq_properties(a: AttachmentLabel, b: AttachmentLabel, c: AttachmentLabel)
    ensures
        label_eq(a, b) == label_eq(b, a),
        label_eq(a, c) && label_eq(b, c) ==> label_eq(a, b),
{
}

/// Records the outcome of preprocessing one attachment channel into a
/// dataset configuration: the channel is registered, the dataset path and
/// shape are pinned, and — when the channel is the topography, which is
/// preprocessed first and defines the dataset's extent — the existence set
/// and the level count are replaced by the freshly produced ones.
pub fn save_earth_config(
    config: &mut EarthConfig,
    tiles: Vec<TileCoordinate>,
    label: AttachmentLabel,
    attachment: AttachmentConfig,
    path: String,
    lod_count: u32,
)
    requires
        old(config).labels_distinct(),
    ensures
        final(config).shape == EarthShape::Spheroid,
        final(config).path == path,
        ({
            let found = exists|i: int|
                0 <= i < old(config).attachments@.len() && label_eq(
                    #[trigger] old(config).attachments@[i].0,
                    label,
                );
            if found {
                final(config).attachments@ == old(config).attachments@.update(
                    choose|i: int|
                        0 <= i < old(config).attachments@.len() && label_eq(
                            #[trigger] old(config).attachments@[i].0,
                            label,
                        ),
                    (label, attachment),
                )
            } else {
                final(config).attachments@ == old(config).attachments@.push((label, attachment))
            }
        }),
        label_eq(label, AttachmentLabel::Topography) ==> final(config).tiles == tiles
            && final(config).lod_count == lod_count,
        !label_eq(label, AttachmentLabel::Topography) ==> final(config).tiles == old(config).tiles
            && final(config).lod_count == old(config).lod_count,
{
    config.shape = EarthShape::Spheroid;
    config.path = path;
    let is_topography = label.eq(&AttachmentLabel::Topography);
    config.add_attachment(label, attachment);
    if is_topography {
        config.tiles = tiles;
        config.lod_count = lod_count;
    }
}

} // verus!
