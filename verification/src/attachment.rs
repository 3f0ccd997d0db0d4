//! Attachments: the independent data channels tracked per tile.
//!
//! Each tile of the atlas carries one texture per attachment (elevation,
//! imagery, masks, ...). The static per-channel metadata is configured once
//! at atlas construction and never mutated afterwards.

use vstd::prelude::*;
use vstd::string::StringExecFns;
use crate::coord::TileCoordinate;

verus! {

/// Identifies one data channel of the dataset.
#[derive(Debug, Hash)]
pub enum AttachmentLabel {
    DayTime,
    Topography,
    Bathyometry,
    OceanMask,
    NightTime,
    /// A user-defined channel, identified by its name.
    Custom(String),
    /// A placeholder channel, used to pad the channel set.
    Empty(usize),
}

impl Clone for AttachmentLabel {
    fn clone(&self) -> (r: Self)
        ensures
            r == *self,
    {
        match self {
            AttachmentLabel::DayTime => AttachmentLabel::DayTime,
            AttachmentLabel::Topography => AttachmentLabel::Topography,
            AttachmentLabel::Bathyometry => AttachmentLabel::Bathyometry,
            AttachmentLabel::OceanMask => AttachmentLabel::OceanMask,
            AttachmentLabel::NightTime => AttachmentLabel::NightTime,
            AttachmentLabel::Custom(s) => AttachmentLabel::Custom(s.clone()),
            AttachmentLabel::Empty(i) => AttachmentLabel::Empty(*i),
        }
    }
}

impl PartialEq for AttachmentLabel {
    fn eq(&self, other: &AttachmentLabel) -> (r: bool) {
        match (self, other) {
            (AttachmentLabel::DayTime, AttachmentLabel::DayTime) => true,
            (AttachmentLabel::Topography, AttachmentLabel::Topography) => true,
            (AttachmentLabel::Bathyometry, AttachmentLabel::Bathyometry) => true,
            (AttachmentLabel::OceanMask, AttachmentLabel::OceanMask) => true,
            (AttachmentLabel::NightTime, AttachmentLabel::NightTime) => true,
            (AttachmentLabel::Custom(a), AttachmentLabel::Custom(b)) => a.eq(b),
            (AttachmentLabel::Empty(a), AttachmentLabel::Empty(b)) => a == b,
            _ => false,
        }
    }
}

impl vstd::std_specs::cmp::PartialEqSpecImpl for AttachmentLabel {
    open spec fn obeys_eq_spec() -> bool {
        true
    }

    open spec fn eq_spec(&self, other: &AttachmentLabel) -> bool {
        label_eq(*self, *other)
    }
}

/// Equality of labels: custom labels are equal when their names hold the
/// same characters.
pub open spec fn label_eq(a: AttachmentLabel, b: AttachmentLabel) -> bool {
    match (a, b) {
        (AttachmentLabel::DayTime, AttachmentLabel::DayTime) => true,
        (AttachmentLabel::Topography, AttachmentLabel::Topography) => true,
        (AttachmentLabel::Bathyometry, AttachmentLabel::Bathyometry) => true,
        (AttachmentLabel::OceanMask, AttachmentLabel::OceanMask) => true,
        (AttachmentLabel::NightTime, AttachmentLabel::NightTime) => true,
        (AttachmentLabel::Custom(a), AttachmentLabel::Custom(b)) => a@ == b@,
        (AttachmentLabel::Empty(a), AttachmentLabel::Empty(b)) => a == b,
        _ => false,
    }
}

/// The letter naming the `k`-th placeholder channel; letters cycle after
/// `z`.
pub open spec fn spec_empty_letter(k: int) -> char {
    ((97 + (k % 26)) as u8) as char
}

/// The textual name of a label, as used in file paths and configuration.
pub open spec fn spec_label_name(l: AttachmentLabel) -> Seq<char> {
    match l {
        AttachmentLabel::DayTime => "daytime"@,
        AttachmentLabel::Topography => "topography"@,
        AttachmentLabel::Bathyometry => "bathyometry"@,
        AttachmentLabel::OceanMask => "ocean"@,
        AttachmentLabel::NightTime => "nighttime"@,
        AttachmentLabel::Custom(s) => s@,
        AttachmentLabel::Empty(i) => "empty_"@.push(spec_empty_letter(i as int)),
    }
}

impl AttachmentLabel {
    /// The textual name of the label, as used in file paths and
    /// configuration.
    pub fn name(&self) -> (r: String)
        ensures
            r@ == spec_label_name(*self),
    {
        match self {
            AttachmentLabel::DayTime => "daytime".to_owned(),
            AttachmentLabel::Topography => "topography".to_owned(),
            AttachmentLabel::Bathyometry => "bathyometry".to_owned(),
            AttachmentLabel::OceanMask => "ocean".to_owned(),
            AttachmentLabel::NightTime => "nighttime".to_owned(),
            AttachmentLabel::Custom(s) => s.clone(),
            AttachmentLabel::Empty(i) => {
                let mut r = "empty_".to_owned();
                let letter: u8 = 97 + (*i % 26) as u8;
                r.append(letter_str(letter));
                proof {
                    assert(r@ =~= "empty_"@.push(spec_empty_letter(*i as int)));
                }
                r
            },
        }
    }

    /// Reads a label back from its textual name: the five fixed channel
    /// names map to their labels, any other name to a custom channel of
    /// that name.
    pub fn from_str(s: &str) -> (r: AttachmentLabel)
        ensures
            match r {
                AttachmentLabel::Topography => s@ == "topography"@,
                AttachmentLabel::DayTime => s@ == "daytime"@,
                AttachmentLabel::OceanMask => s@ == "ocean"@,
                AttachmentLabel::Bathyometry => s@ == "bathyometry"@,
                AttachmentLabel::NightTime => s@ == "nighttime"@,
                AttachmentLabel::Custom(name) => {
                    &&& name@ == s@
                    &&& s@ != "topography"@
                    &&& s@ != "daytime"@
                    &&& s@ != "ocean"@
                    &&& s@ != "bathyometry"@
                    &&& s@ != "nighttime"@
                },
                AttachmentLabel::Empty(_) => false,
            },
    {
        let owned = s.to_owned();
        if owned.eq(&"topography".to_owned()) {
            AttachmentLabel::Topography
        } else if owned.eq(&"daytime".to_owned()) {
            AttachmentLabel::DayTime
        } else if owned.eq(&"ocean".to_owned()) {
            AttachmentLabel::OceanMask
        } else if owned.eq(&"bathyometry".to_owned()) {
            AttachmentLabel::Bathyometry
        } else if owned.eq(&"nighttime".to_owned()) {
            AttachmentLabel::NightTime
        } else {
            AttachmentLabel::Custom(owned)
        }
    }
}

/// The single-letter string for one lower-case letter byte.
fn letter_str(b: u8) -> (r: &'static str)
    requires
        97 <= b < 123,
    ensures
        r@ =~= seq![(b as char)],
{
    proof {
        reveal_strlit("a");
        reveal_strlit("b");
        reveal_strlit("c");
        reveal_strlit("d");
        reveal_strlit("e");
        reveal_strlit("f");
        reveal_strlit("g");
        reveal_strlit("h");
        reveal_strlit("i");
        reveal_strlit("j");
        reveal_strlit("k");
        reveal_strlit("l");
        reveal_strlit("m");
        reveal_strlit("n");
        reveal_strlit("o");
        reveal_strlit("p");
        reveal_strlit("q");
        reveal_strlit("r");
        reveal_strlit("s");
        reveal_strlit("t");
        reveal_strlit("u");
        reveal_strlit("v");
        reveal_strlit("w");
        reveal_strlit("x");
        reveal_strlit("y");
        reveal_strlit("z");
    }
    match b {
        97 => "a",
        98 => "b",
        99 => "c",
        100 => "d",
        101 => "e",
        102 => "f",
        103 => "g",
        104 => "h",
        105 => "i",
        106 => "j",
        107 => "k",
        108 => "l",
        109 => "m",
        110 => "n",
        111 => "o",
        112 => "p",
        113 => "q",
        114 => "r",
        115 => "s",
        116 => "t",
        117 => "u",
        118 => "v",
        119 => "w",
        120 => "x",
        121 => "y",
        _ => "z",
    }
}

/// The data format of an attachment.
#[derive(Clone, Copy, Debug, PartialEq, Eq, Structural, Hash)]
pub enum AttachmentFormat {
    /// One channel, 8 bit unsigned, normalised.
    R8Unorm,
    /// Three channels, 8 bit unsigned integer (stored expanded to four).
    Rgb8U,
    /// Four channels, 8 bit unsigned integer.
    Rgba8U,
    /// One channel, 16 bit unsigned integer.
    R16U,
    /// One channel, 16 bit integer.
    R16I,
    /// Two channels, 16 bit unsigned integer.
    Rg16U,
    /// One channel, 32 bit float.
    R32F,
}

impl AttachmentFormat {
    /// The size in bytes of one pixel as resident in the atlas.
    pub open spec fn spec_pixel_size(self) -> u32 {
        match self {
            AttachmentFormat::R8Unorm => 1,
            AttachmentFormat::Rgb8U => 4,
            AttachmentFormat::Rgba8U => 4,
            AttachmentFormat::R16U => 2,
            AttachmentFormat::R16I => 2,
            AttachmentFormat::Rg16U => 4,
            AttachmentFormat::R32F => 4,
        }
    }

    /// The size in bytes of one pixel in a tile file; differs from
    /// [`Self::spec_pixel_size`] only for the three-channel format, which is
    /// expanded on decode.
    pub open spec fn spec_source_stride(self) -> u32 {
        match self {
            AttachmentFormat::Rgb8U => 3,
            _ => self.spec_pixel_size(),
        }
    }

    /// The size in bytes of one pixel as resident in the atlas.
    pub fn pixel_size(self) -> (r: u32)
        ensures
            r == self.spec_pixel_size(),
    {
        match self {
            AttachmentFormat::R8Unorm => 1,
            AttachmentFormat::Rgb8U => 4,
            AttachmentFormat::Rgba8U => 4,
            AttachmentFormat::R16U => 2,
            AttachmentFormat::R16I => 2,
            AttachmentFormat::Rg16U => 4,
            AttachmentFormat::R32F => 4,
        }
    }

    /// Reads a format back from its textual name.
    pub fn from_str(s: &str) -> (r: Option<AttachmentFormat>)
        ensures
            r == AttachmentFormat::spec_from_str(s@),
    {
        let owned = s.to_owned();
        if owned.eq(&"r8u".to_owned()) {
            Some(AttachmentFormat::R8Unorm)
        } else if owned.eq(&"rg8u".to_owned()) {
            Some(AttachmentFormat::Rgb8U)
        } else if owned.eq(&"rgba8u".to_owned()) {
            Some(AttachmentFormat::Rgba8U)
        } else if owned.eq(&"r16u".to_owned()) {
            Some(AttachmentFormat::R16U)
        } else if owned.eq(&"r16i".to_owned()) {
            Some(AttachmentFormat::R16I)
        } else if owned.eq(&"r32f".to_owned()) {
            Some(AttachmentFormat::R32F)
        } else {
            None
        }
    }

    /// The format named by a configuration string; the three-channel
    /// format is named after its three source channels.
    pub open spec fn spec_from_str(s: Seq<char>) -> Option<AttachmentFormat> {
        if s == "r8u"@ {
            Some(AttachmentFormat::R8Unorm)
        } else if s == "rg8u"@ {
            Some(AttachmentFormat::Rgb8U)
        } else if s == "rgba8u"@ {
            Some(AttachmentFormat::Rgba8U)
        } else if s == "r16u"@ {
            Some(AttachmentFormat::R16U)
        } else if s == "r16i"@ {
            Some(AttachmentFormat::R16I)
        } else if s == "r32f"@ {
            Some(AttachmentFormat::R32F)
        } else {
            None
        }
    }

    /// The size in bytes of one pixel in a tile file.
    pub fn source_stride(self) -> (r: u32)
        ensures
            r == self.spec_source_stride(),
    {
        match self {
            AttachmentFormat::Rgb8U => 3,
            _ => self.pixel_size(),
        }
    }
}

/// Configures an attachment.
#[derive(Clone, Copy, Debug, PartialEq, Eq, Structural)]
pub struct AttachmentConfig {
    /// The pixel size of one tile texture, border included.
    pub texture_size: u32,
    /// The overlapping border around the tile, used to prevent sampling
    /// artifacts.
    pub border_size: u32,
    /// The number of mip levels of the tile texture.
    pub mip_level_count: u32,
    /// Whether the attachment is a mask channel.
    pub mask: bool,
    /// The data format of the attachment.
    pub format: AttachmentFormat,
}

impl AttachmentConfig {
    /// The border fits the texture: the centre region is non-empty.
    pub open spec fn wf(self) -> bool {
        2 * self.border_size <= self.texture_size
    }

    /// The pixel size of the tile's own data, borders excluded.
    pub fn center_size(&self) -> (r: u32)
        requires
            self.wf(),
        ensures
            r == self.texture_size - 2 * self.border_size,
    {
        self.texture_size - 2 * self.border_size
    }

    /// The pixel offset between neighbouring tiles within one texture.
    pub fn offset_size(&self) -> (r: u32)
        requires
            self.wf(),
        ensures
            r == self.texture_size - self.border_size,
    {
        self.texture_size - self.border_size
    }
}

impl Default for AttachmentConfig {
    /// A 512 pixel four-channel texture with a 2 pixel border and two mip
    /// levels.
    fn default() -> (r: Self)
        ensures
            r == (AttachmentConfig {
                texture_size: 512,
                border_size: 2,
                mip_level_count: 2,
                mask: false,
                format: AttachmentFormat::Rgba8U,
            }),
    {
        AttachmentConfig {
            texture_size: 512,
            border_size: 2,
            mip_level_count: 2,
            mask: false,
            format: AttachmentFormat::Rgba8U,
        }
    }
}

/// The decoded pixel data of one tile of one attachment, kept as raw bytes.
#[derive(Clone, Debug)]
pub struct AttachmentData {
    /// The format the bytes are laid out in.
    pub format: AttachmentFormat,
    /// The pixel bytes, `format.pixel_size()` bytes per pixel.
    pub bytes: Vec<u8>,
}

/// The bytes of a tile file, decoded into resident pixel bytes: the
/// three-channel format gains an opaque fourth channel, every other format
/// is kept as it is.
pub open spec fn spec_decode(format: AttachmentFormat, data: Seq<u8>) -> Seq<u8> {
    if format == AttachmentFormat::Rgb8U {
        Seq::new(
            data.len() / 3 * 4,
            |i: int| if i % 4 == 3 { 255u8 } else { data[i / 4 * 3 + i % 4] },
        )
    } else {
        data
    }
}

impl AttachmentData {
    /// The bytes describe whole pixels of the format.
    pub open spec fn wf(self) -> bool {
        self.bytes@.len() % (self.format.spec_pixel_size() as nat) == 0
    }

    /// Decodes the bytes of a tile file.
    pub fn from_bytes(data: &[u8], format: AttachmentFormat) -> (r: AttachmentData)
        requires
            data@.len() % (format.spec_source_stride() as nat) == 0,
        ensures
            r.format == format,
            r.bytes@ == spec_decode(format, data@),
            r.wf(),
    {
        let bytes = if matches!(format, AttachmentFormat::Rgb8U) {
            let mut out: Vec<u8> = Vec::new();
            let byte_count = data.len();
            let pixel_count = byte_count / 3;
            let mut i: usize = 0;
            while i < pixel_count
                invariant
                    i <= pixel_count,
                    byte_count == data@.len(),
                    pixel_count == data@.len() / 3,
                    data@.len() % 3 == 0,
                    out@.len() == 4 * i,
                    forall|j: int| 0 <= j < out@.len() ==>
                        out@[j] == spec_decode(AttachmentFormat::Rgb8U, data@)[j],
                decreases pixel_count - i,
            {
                proof {
                    assert(3 * i + 3 <= data@.len()) by (nonlinear_arith)
                        requires
                            i < pixel_count,
                            pixel_count == data@.len() / 3,
                            data@.len() % 3 == 0,
                    ;
                }
                out.push(data[3 * i]);
                out.push(data[3 * i + 1]);
                out.push(data[3 * i + 2]);
                out.push(255);
                i = i + 1;
            }
            proof {
                assert(out@ =~= spec_decode(AttachmentFormat::Rgb8U, data@));
            }
            out
        } else {
            let mut out: Vec<u8> = Vec::new();
            let mut i: usize = 0;
            while i < data.len()
                invariant
                    i <= data@.len(),
                    out@ == data@.take(i as int),
                decreases data@.len() - i,
            {
                out.push(data[i]);
                i = i + 1;
            }
            proof {
                assert(out@ =~= data@);
            }
            out
        };
        proof {
            if format != AttachmentFormat::Rgb8U {
                assert(spec_decode(format, data@) == data@);
            }
        }
        AttachmentData { format, bytes }
    }

    /// The resident pixel bytes.
    pub fn bytes(&self) -> (r: &Vec<u8>)
        ensures
            r == &self.bytes,
    {
        &self.bytes
    }
}

/// The path of one tile file: the channel's directory under the dataset
/// directory, then the tile's file name.
pub open spec fn spec_tile_path(base: Seq<char>, label: AttachmentLabel, c: TileCoordinate)
    -> Seq<char> {
    base + "/"@ + spec_label_name(label) + "/"@ + crate::coord::spec_tile_file_name(c)
}

/// The path a tile file of one channel is read from, relative to the
/// dataset directory `base`.
pub fn tile_path(base: &str, label: &AttachmentLabel, c: TileCoordinate) -> (r: String)
    ensures
        r@ == spec_tile_path(base@, *label, c),
{
    let mut s = base.to_owned();
    s.append("/");
    let name = label.name();
    s.append(name.as_str());
    s.append("/");
    let file = c.file_name();
    s.append(file.as_str());
    proof {
        assert(s@ =~= spec_tile_path(base@, *label, c));
    }
    s
}

/// One load job: a tile coordinate paired with the attachment to load for it.
#[derive(Clone, Debug)]
pub struct AttachmentTile {
    /// The coordinate of the tile to load.
    pub coordinate: TileCoordinate,
    /// The attachment channel to load.
    pub label: AttachmentLabel,
}

/// A finished load: the decoded data of one attachment of one tile, addressed
/// by the atlas slot it is to be uploaded into.
#[derive(Clone, Debug)]
pub struct AttachmentTileWithData {
    /// The atlas slot the tile occupies.
    pub atlas_index: u32,
    /// The attachment channel the data belongs to.
    pub label: AttachmentLabel,
    /// The decoded pixel data.
    pub data: AttachmentData,
}

/// An attachment of a tile atlas: the static channel metadata, fixed at
/// atlas construction.
#[derive(Clone, Debug)]
pub struct Attachment {
    /// The directory that holds the channel's tile files.
    pub path: String,
    /// The pixel size of one tile texture, border included.
    pub texture_size: u32,
    /// The pixel size of the tile's own data, borders excluded.
    pub center_size: u32,
    /// The overlapping border around the tile.
    pub border_size: u32,
    /// The number of mip levels of the tile texture.
    pub mip_level_count: u32,
    /// The data format of the attachment.
    pub format: AttachmentFormat,
    /// Whether the attachment is a mask channel.
    pub mask: bool,
}

impl Attachment {
    /// Builds the static metadata of one channel from its configuration and
    /// the dataset directory.
    pub fn new(config: &AttachmentConfig, path: &String) -> (r: Attachment)
        requires
            config.wf(),
        ensures
            r.path@ == path@,
            r.texture_size == config.texture_size,
            r.center_size == config.texture_size - 2 * config.border_size,
            r.border_size == config.border_size,
            r.mip_level_count == config.mip_level_count,
            r.format == config.format,
            r.mask == config.mask,
    {
        Attachment {
            path: path.clone(),
            texture_size: config.texture_size,
            center_size: config.center_size(),
            border_size: config.border_size,
            mip_level_count: config.mip_level_count,
            format: config.format,
            mask: config.mask,
        }
    }
}

} // verus!
