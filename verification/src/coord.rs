//! Quadtree tile coordinates.
//!
//! A tile is addressed by the cube face it lies on, its level of detail
//! (depth in the quadtree; level 0 is the single root tile of a face) and
//! its integer grid position within that level.

use vstd::prelude::*;
use vstd::string::StringExecFns;

verus! {

/// Identifies one tile of the quadtree subdivision of a face.
///
/// At level of detail `lod` a face is split into `2^lod` tiles per axis,
/// so a coordinate is well formed when `x` and `y` lie below `2^lod`.
#[derive(Clone, Copy, Debug, PartialEq, Eq, Structural)]
pub struct TileCoordinate {
    /// The cube face (or the single face of a planar dataset) the tile lies on.
    pub face: u32,
    /// The level of detail; 0 is the coarsest (root) level.
    pub lod: u32,
    /// The column of the tile within its level, in `[0, 2^lod)`.
    pub x: u32,
    /// The row of the tile within its level, in `[0, 2^lod)`.
    pub y: u32,
}

impl TileCoordinate {
    /// The number of tiles per axis at level `lod`.
    pub open spec fn spec_tile_count(lod: nat) -> nat {
        vstd::arithmetic::power2::pow2(lod)
    }

    /// A coordinate lies on a face that the dataset has, at a level the
    /// dataset has, and within the grid of its level.
    pub open spec fn wf(self, face_count: nat, lod_count: nat) -> bool {
        &&& (self.face as nat) < face_count
        &&& (self.lod as nat) < lod_count
        &&& (self.x as nat) < Self::spec_tile_count(self.lod as nat)
        &&& (self.y as nat) < Self::spec_tile_count(self.lod as nat)
    }

    /// The parent coordinate, one level coarser, as a mathematical value.
    pub open spec fn spec_parent(self) -> TileCoordinate
        recommends self.lod > 0,
    {
        TileCoordinate {
            face: self.face,
            lod: (self.lod - 1) as u32,
            x: self.x / 2,
            y: self.y / 2,
        }
    }

    /// The ancestor of `self` that lies `steps` levels above it.
    pub open spec fn spec_ancestor(self, steps: nat) -> TileCoordinate
        recommends steps <= self.lod,
        decreases steps,
    {
        if steps == 0 {
            self
        } else {
            self.spec_parent().spec_ancestor((steps - 1) as nat)
        }
    }

    /// Whether `anc` is `self` itself or one of its ancestors.
    pub open spec fn is_ancestor_or_self(self, anc: TileCoordinate) -> bool {
        &&& anc.lod <= self.lod
        &&& anc == self.spec_ancestor((self.lod - anc.lod) as nat)
    }

    /// The coordinate one level coarser whose tile contains this one;
    /// `None` at the root level.
    pub fn parent(self) -> (r: Option<TileCoordinate>)
        ensures
            self.lod == 0 ==> r is None,
            self.lod > 0 ==> r == Some(self.spec_parent()),
    {
        if self.lod == 0 {
            None
        } else {
            Some(TileCoordinate { face: self.face, lod: self.lod - 1, x: self.x / 2, y: self.y / 2 })
        }
    }
}

/// The number of tiles per axis at level `lod`, as a machine value.
pub fn exp2(lod: u32) -> (r: u64)
    requires
        lod <= 63,
    ensures
        r == vstd::arithmetic::power2::pow2(lod as nat),
{
    let mut r: u64 = 1;
    let mut i: u32 = 0;
    proof {
        vstd::arithmetic::power2::lemma2_to64();
    }
    while i < lod
        invariant
            i <= lod,
            lod <= 63,
            r == vstd::arithmetic::power2::pow2(i as nat),
        decreases lod - i,
    {
        proof {
            vstd::arithmetic::power2::lemma2_to64();
            vstd::arithmetic::power2::lemma2_to64_rest();
            if (i as nat) < 63 {
                vstd::arithmetic::power2::lemma_pow2_strictly_increases(i as nat, 63);
            }
            vstd::arithmetic::power2::lemma_pow2_unfold((i + 1) as nat);
        }
        r = r * 2;
        i = i + 1;
    }
    r
}

/// A face-local position in the unit square, in 32-bit fixed point: the
/// unit coordinate is `u / 2^32` across and `v / 2^32` down the face.
#[derive(Clone, Copy, Debug, PartialEq, Eq, Structural)]
pub struct Coordinate {
    /// The face the position lies on.
    pub face: u32,
    /// The horizontal position, as a numerator over `2^32`; below `2^32`.
    pub u: u64,
    /// The vertical position, as a numerator over `2^32`; below `2^32`.
    pub v: u64,
}

impl Coordinate {
    /// Both numerators describe a position inside the unit square.
    pub open spec fn wf(self) -> bool {
        self.u < 0x1_0000_0000 && self.v < 0x1_0000_0000
    }
}

/// The digit character for one decimal digit value.
pub open spec fn spec_digit_char(d: int) -> char {
    ((48 + d) as u8) as char
}

/// The decimal numeral of `n`, most significant digit first, no leading
/// zeroes (a single zero for zero).
pub open spec fn spec_decimal(n: nat) -> Seq<char>
    decreases n,
{
    if n < 10 {
        seq![spec_digit_char(n as int)]
    } else {
        spec_decimal(n / 10).push(spec_digit_char((n % 10) as int))
    }
}

/// The single-digit string for one decimal digit value.
fn digit_str(d: u32) -> (r: &'static str)
    requires
        d < 10,
    ensures
        r@ =~= seq![spec_digit_char(d as int)],
{
    proof {
        reveal_strlit("0");
        reveal_strlit("1");
        reveal_strlit("2");
        reveal_strlit("3");
        reveal_strlit("4");
        reveal_strlit("5");
        reveal_strlit("6");
        reveal_strlit("7");
        reveal_strlit("8");
        reveal_strlit("9");
    }
    match d {
        0 => "0",
        1 => "1",
        2 => "2",
        3 => "3",
        4 => "4",
        5 => "5",
        6 => "6",
        7 => "7",
        8 => "8",
        _ => "9",
    }
}

/// Writes `n` in decimal.
pub fn decimal(n: u32) -> (r: String)
    ensures
        r@ == spec_decimal(n as nat),
    decreases n,
{
    if n < 10 {
        digit_str(n).to_owned()
    } else {
        let mut s = decimal(n / 10);
        s.append(digit_str(n % 10));
        proof {
            assert(s@ =~= spec_decimal(n as nat));
        }
        s
    }
}

/// The file name of one tile: face, level and grid position, separated by
/// underscores.
pub open spec fn spec_tile_file_name(c: TileCoordinate) -> Seq<char> {
    spec_decimal(c.face as nat) + "_"@ + spec_decimal(c.lod as nat) + "_"@ + spec_decimal(
        c.x as nat,
    ) + "_"@ + spec_decimal(c.y as nat) + ".bin"@
}

impl TileCoordinate {
    /// The file name of this tile within its channel's directory.
    pub fn file_name(self) -> (r: String)
        ensures
            r@ == spec_tile_file_name(self),
    {
        let mut s = decimal(self.face);
        s.append("_");
        let lod = decimal(self.lod);
        s.append(lod.as_str());
        s.append("_");
        let x = decimal(self.x);
        s.append(x.as_str());
        s.append("_");
        let y = decimal(self.y);
        s.append(y.as_str());
        s.append(".bin");
        proof {
            assert(s@ =~= spec_tile_file_name(self));
        }
        s
    }
}

} // verus!
