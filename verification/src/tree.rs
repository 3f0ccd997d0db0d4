//! The tile tree: the per-view demand model.
//!
//! One tile tree per observing view tracks, per face and level of detail, a
//! toroidal window of `tree_size × tree_size` tile slots re-centred under
//! the observer every frame, and emits the request and release events that
//! drive the tile atlas. Which tiles fall inside the loading radius is a
//! geometric question answered by the embedding application (it needs
//! floating-point distances); the window bookkeeping, the request/release
//! transition discipline and the resolution against the atlas live here.

use vstd::prelude::*;
use vstd::arithmetic::power2::pow2;
use crate::atlas::TileAtlas;
use crate::config::{EarthConfig, EarthShape};
use crate::coord::{exp2, Coordinate, TileCoordinate};
use crate::grid::{flat_index, grid_seq, spec_flat_index, CellGrid};

verus! {

/// The atlas slot index that marks "no tile".
pub const INVALID_ATLAS_INDEX: u32 = 0xFFFF_FFFF;

/// The level of detail that marks "no tile".
pub const INVALID_LOD: u32 = 0xFFFF_FFFF;

/// An entry surfaced to the renderer: the best currently loaded tile of the
/// atlas for one window slot, or the invalid sentinel when no ancestor is
/// loaded.
#[derive(Clone, Copy, Debug, PartialEq, Eq, Structural)]
pub struct TileTreeEntry {
    /// The atlas slot of the best loaded tile.
    pub atlas_index: u32,
    /// The level of detail of the best loaded tile.
    pub atlas_lod: u32,
}

impl TileTreeEntry {
    /// The sentinel entry: no ancestor of the tile is loaded.
    pub open spec fn spec_invalid() -> TileTreeEntry {
        TileTreeEntry { atlas_index: INVALID_ATLAS_INDEX, atlas_lod: INVALID_LOD }
    }

    /// The sentinel entry: no ancestor of the tile is loaded.
    pub fn invalid() -> (r: TileTreeEntry)
        ensures
            r == TileTreeEntry::spec_invalid(),
    {
        TileTreeEntry { atlas_index: INVALID_ATLAS_INDEX, atlas_lod: INVALID_LOD }
    }
}

impl Default for TileTreeEntry {
    /// Defaults to the invalid sentinel.
    fn default() -> (r: Self)
        ensures
            r == TileTreeEntry::spec_invalid(),
    {
        TileTreeEntry::invalid()
    }
}

/// Whether a window slot currently demands its tile from the atlas.
#[derive(Clone, Copy, Debug, PartialEq, Eq, Structural)]
pub enum RequestState {
    /// The slot's tile is demanded: a request has been emitted for it.
    Requested,
    /// The slot's tile is not demanded.
    Released,
}

/// One cell of the window grid: the tile coordinate the slot currently
/// tracks (none before the slot is first assigned), its demand state, and
/// the entry resolved against the atlas for the renderer.
#[derive(Clone, Copy, Debug)]
pub struct TreeCell {
    /// The coordinate the slot tracks.
    pub coordinate: Option<TileCoordinate>,
    /// Whether the slot's tile is demanded.
    pub state: RequestState,
    /// The best loaded tile of the atlas for the slot, as of the last
    /// resolution.
    pub entry: TileTreeEntry,
}

impl TreeCell {
    /// The cell of a freshly built tree: no coordinate, not demanded, no
    /// resolved entry.
    pub open spec fn spec_initial() -> TreeCell {
        TreeCell {
            coordinate: None,
            state: RequestState::Released,
            entry: TileTreeEntry::spec_invalid(),
        }
    }
}

/// The per-layer window state the update step folds over: the cells and
/// the two event queues.
#[verifier::ext_equal]
pub ghost struct LayerState {
    /// The cells of the whole grid, row-major.
    pub cells: Seq<TreeCell>,
    /// The release events emitted so far, in order.
    pub released: Seq<TileCoordinate>,
    /// The request events emitted so far, in order.
    pub requested: Seq<TileCoordinate>,
}

/// The fixed inputs of one layer update: which face and level is updated,
/// the window origin, the window and level counts of the grid, and the
/// per-slot classification flags supplied by the caller.
pub ghost struct LayerCtx {
    /// The face whose layer is updated.
    pub face: u32,
    /// The level of detail whose layer is updated.
    pub lod: u32,
    /// The window origin column.
    pub ox: int,
    /// The window origin row.
    pub oy: int,
    /// The window width.
    pub ts: int,
    /// The level count of the grid (the second shape entry).
    pub lod_count: int,
    /// Whether slot `k`'s candidate tile lies within loading distance.
    pub flags: Seq<bool>,
}

/// The candidate tile of window slot `k`: the window origin shifted by the
/// slot's column and row.
pub open spec fn spec_cand(ctx: LayerCtx, k: int) -> TileCoordinate {
    TileCoordinate {
        face: ctx.face,
        lod: ctx.lod,
        x: (ctx.ox + k / ctx.ts) as u32,
        y: (ctx.oy + k % ctx.ts) as u32,
    }
}

/// The grid position of window slot `k`: the candidate column and row
/// wrapped into the window (toroidal addressing).
pub open spec fn spec_cell_pos(ctx: LayerCtx, k: int) -> int {
    spec_flat_index(
        ctx.face as int,
        ctx.lod as int,
        (ctx.ox + k / ctx.ts) % ctx.ts,
        (ctx.oy + k % ctx.ts) % ctx.ts,
        ctx.lod_count,
        ctx.ts,
        ctx.ts,
    )
}

/// Whether slot `k`'s candidate tile is demanded: it lies on the level's
/// grid, and is the always-resident root level or within loading distance.
pub open spec fn spec_active(ctx: LayerCtx, k: int) -> bool {
    &&& ctx.ox + k / ctx.ts < pow2(ctx.lod as nat)
    &&& ctx.oy + k % ctx.ts < pow2(ctx.lod as nat)
    &&& (ctx.lod == 0 || ctx.flags[k])
}

/// One window slot's update: the new cell and the release and request
/// events emitted, in order.
///
/// When the slot's tracked coordinate changes, a still-demanded old tile is
/// released first and the slot adopts the candidate undemanded. Then the
/// transition table runs: an undemanded slot whose candidate is active
/// emits a request; a demanded slot whose candidate is inactive emits a
/// release; anything else emits nothing.
pub open spec fn spec_slot_step(cell: TreeCell, cand: TileCoordinate, active: bool) -> (
    TreeCell,
    Seq<TileCoordinate>,
    Seq<TileCoordinate>,
) {
    let changed = cell.coordinate != Some(cand);
    let rel1: Seq<TileCoordinate> = if changed && cell.state == RequestState::Requested {
        match cell.coordinate {
            Some(c0) => seq![c0],
            None => Seq::empty(),
        }
    } else {
        Seq::empty()
    };
    let c1 = if changed {
        TreeCell { coordinate: Some(cand), state: RequestState::Released, ..cell }
    } else {
        cell
    };
    if c1.state == RequestState::Released && active {
        (TreeCell { state: RequestState::Requested, ..c1 }, rel1, seq![cand])
    } else if c1.state == RequestState::Requested && !active {
        (TreeCell { state: RequestState::Released, ..c1 }, rel1 + seq![cand], Seq::empty())
    } else {
        (c1, rel1, Seq::empty())
    }
}

/// Applies window slot `k`'s update to the layer state. (A slot whose grid
/// position fell outside the cells — impossible for a well-formed tree —
/// is skipped, keeping the fold total.)
pub open spec fn spec_layer_step(s: LayerState, ctx: LayerCtx, k: int) -> LayerState {
    let pos = spec_cell_pos(ctx, k);
    if 0 <= pos < s.cells.len() {
        let (c2, rel, req) = spec_slot_step(s.cells[pos], spec_cand(ctx, k), spec_active(ctx, k));
        LayerState {
            cells: s.cells.update(pos, c2),
            released: s.released + rel,
            requested: s.requested + req,
        }
    } else {
        s
    }
}

/// Applies the updates of the first `k` window slots, in slot order.
pub open spec fn spec_layer_fold(s0: LayerState, ctx: LayerCtx, k: int) -> LayerState
    decreases k,
{
    if k <= 0 {
        s0
    } else {
        spec_layer_step(spec_layer_fold(s0, ctx, k - 1), ctx, k - 1)
    }
}

/// The layer fold never changes the number of cells.
pub proof fn lemma_layer_fold_len(s0: LayerState, ctx: LayerCtx, k: int)
    ensures
        spec_layer_fold(s0, ctx, k).cells.len() == s0.cells.len(),
    decreases k,
{
    if k > 0 {
        lemma_layer_fold_len(s0, ctx, k - 1);
    }
}

/// The per-axis window origin of the observer at `frac / 2^32` of the face,
/// for a level of `2^lod` tiles per axis and a window of `ts` tiles: the
/// window is centred on the observer, rounded to the grid, and clamped so
/// it never leaves the level's grid.
pub open spec fn spec_origin_axis(frac: int, lod: nat, ts: int) -> int {
    let tc = pow2(lod) as int;
    let unclamped = (2 * frac * tc + 0x1_0000_0000 * (1 - ts)) / 0x2_0000_0000;
    let hi: int = if tc - ts > 0 {
        tc - ts
    } else {
        0
    };
    if unclamped <= 0 {
        0
    } else if unclamped >= hi {
        hi
    } else {
        unclamped
    }
}

/// The window origin never leaves the level's grid: it is non-negative,
/// and whenever the level holds at least one whole window the window's far
/// edge stays on the grid.
pub proof fn lemma_origin_in_range(frac: int, lod: nat, ts: int)
    requires
        ts >= 1,
    ensures
        0 <= spec_origin_axis(frac, lod, ts),
        spec_origin_axis(frac, lod, ts) <= (if pow2(lod) as int - ts > 0 {
            pow2(lod) as int - ts
        } else {
            0
        }),
        pow2(lod) >= ts ==> spec_origin_axis(frac, lod, ts) + ts <= pow2(lod),
{
}

/// Computes [`spec_origin_axis`] for one axis.
fn origin_axis(frac: u64, lod: u32, ts: u32) -> (o: u32)
    requires
        frac < 0x1_0000_0000,
        lod <= 31,
        ts >= 1,
    ensures
        o == spec_origin_axis(frac as int, lod as nat, ts as int),
{
    let tc = exp2(lod);
    proof {
        vstd::arithmetic::power2::lemma2_to64();
        vstd::arithmetic::power2::lemma_pow2_strictly_increases(lod as nat, 32);
        assert(2 * (frac as int) * (tc as int) < 0x2_0000_0000_0000_0000) by (nonlinear_arith)
            requires
                frac < 0x1_0000_0000,
                0 <= tc < 0x1_0000_0000,
        ;
    }
    let x: u128 = 2 * (frac as u128) * (tc as u128);
    let y: u128 = (ts as u128) * 0x1_0000_0000;
    if x + 0x1_0000_0000 <= y {
        0
    } else {
        let q: u128 = (x + 0x1_0000_0000 - y) / 0x2_0000_0000;
        let hi: u64 = if tc > ts as u64 {
            tc - ts as u64
        } else {
            0
        };
        if q >= hi as u128 {
            hi as u32
        } else {
            q as u32
        }
    }
}

/// A quadtree-windowed view of one dataset: requests and releases tiles
/// from the tile atlas depending on the observer, and surfaces the best
/// loaded tile per window slot.
///
/// The grid is a "cube" of shape face count × `lod_count` × `tree_size` ×
/// `tree_size`; each layer is a toroidal window (wrapping modulo
/// `tree_size`) kept centred under the observer, so only `tree_size`
/// tiles around the observer are considered per level.
pub struct TileTree {
    /// The window cells of all faces and levels.
    pub cells: CellGrid,
    /// Tiles this view stopped demanding since the queues were last drained.
    pub released_tiles: Vec<TileCoordinate>,
    /// Tiles this view began demanding since the queues were last drained.
    pub requested_tiles: Vec<TileCoordinate>,
    /// The window width, in tiles.
    pub tree_size: u32,
    /// The number of levels of detail.
    pub lod_count: u32,
    /// The shape of the dataset's surface.
    pub shape: EarthShape,
}

impl TileTree {
    /// The number of cells of the grid.
    pub open spec fn spec_cell_count(self) -> int {
        (self.shape.spec_face_count() as int) * (self.lod_count as int) * (self.tree_size as int)
            * (self.tree_size as int)
    }

    /// The window is non-empty, the levels fit the origin arithmetic, the
    /// grid is small enough to address, and it has exactly one cell per
    /// face, level and window position.
    pub open spec fn wf(self) -> bool {
        &&& 1 <= self.tree_size
        &&& 1 <= self.lod_count <= 32
        &&& self.spec_cell_count() <= 0x0FFF_FFFF
        &&& grid_seq(&self.cells).len() == self.spec_cell_count()
    }

    /// Builds the demand tracker of one view: a window of `tree_size`
    /// tiles per axis on every face and level of the dataset, all slots
    /// unassigned and undemanded.
    pub fn new(config: &EarthConfig, tree_size: u32) -> (r: TileTree)
        requires
            1 <= tree_size,
            1 <= config.lod_count <= 32,
            (config.shape.spec_face_count() as int) * (config.lod_count as int) * (
            tree_size as int) * (tree_size as int) <= 0x0FFF_FFFF,
        ensures
            r.wf(),
            r.tree_size == tree_size,
            r.lod_count == config.lod_count,
            r.shape == config.shape,
            r.released_tiles@ == Seq::<TileCoordinate>::empty(),
            r.requested_tiles@ == Seq::<TileCoordinate>::empty(),
            forall|i: int|
                0 <= i < grid_seq(&r.cells).len() ==> grid_seq(&r.cells)[i]
                    == TreeCell::spec_initial(),
    {
        let faces = config.shape.face_count() as usize;
        let lods = config.lod_count as usize;
        let ts = tree_size as usize;
        proof {
            assert(faces * lods <= faces * lods * ts * ts && faces * lods * ts <= faces * lods * ts
                * ts) by (nonlinear_arith)
                requires
                    1 <= faces,
                    1 <= lods,
                    1 <= ts,
            ;
        }
        let fill = TreeCell {
            coordinate: None,
            state: RequestState::Released,
            entry: TileTreeEntry::invalid(),
        };
        let cells = CellGrid::new(faces, lods, ts, ts, fill);
        TileTree {
            cells,
            released_tiles: Vec::new(),
            requested_tiles: Vec::new(),
            tree_size,
            lod_count: config.lod_count,
            shape: config.shape,
        }
    }

    /// The window origin for the observer's face position at `lod`: the
    /// window is centred on the observer and clamped to the level's grid,
    /// so it never tracks out-of-range coordinates, even at a grid edge.
    pub fn compute_origin(&self, view_coordinate: Coordinate, lod: u32) -> (o: (u32, u32))
        requires
            self.wf(),
            view_coordinate.wf(),
            lod < self.lod_count,
        ensures
            o.0 == spec_origin_axis(view_coordinate.u as int, lod as nat, self.tree_size as int),
            o.1 == spec_origin_axis(view_coordinate.v as int, lod as nat, self.tree_size as int),
            o.0 + self.tree_size <= 0x1_0000_0000,
            o.1 + self.tree_size <= 0x1_0000_0000,
    {
        proof {
            lemma_origin_in_range(view_coordinate.u as int, lod as nat, self.tree_size as int);
            lemma_origin_in_range(view_coordinate.v as int, lod as nat, self.tree_size as int);
            vstd::arithmetic::power2::lemma2_to64();
            if (lod as nat) < 32 {
                vstd::arithmetic::power2::lemma_pow2_strictly_increases(lod as nat, 32);
            }
        }
        (
            origin_axis(view_coordinate.u, lod, self.tree_size),
            origin_axis(view_coordinate.v, lod, self.tree_size),
        )
    }

    /// Re-centres the window of one face and level on `origin` and updates
    /// every slot's demand: slot `k` (row-major within the window) is
    /// classified active when its candidate tile lies on the level's grid
    /// and is the root level or flagged within loading distance by
    /// `flags[k]`. Demand transitions append to the view's release and
    /// request queues in slot order.
    pub fn update_layer(&mut self, face: u32, lod: u32, origin: (u32, u32), flags: &Vec<bool>)
        requires
            old(self).wf(),
            face < old(self).shape.spec_face_count(),
            lod < old(self).lod_count,
            origin.0 + old(self).tree_size <= 0x1_0000_0000,
            origin.1 + old(self).tree_size <= 0x1_0000_0000,
            flags@.len() == (old(self).tree_size as int) * (old(self).tree_size as int),
        ensures
            final(self).wf(),
            final(self).tree_size == old(self).tree_size,
            final(self).lod_count == old(self).lod_count,
            final(self).shape == old(self).shape,
            ({
                let ctx = LayerCtx {
                    face,
                    lod,
                    ox: origin.0 as int,
                    oy: origin.1 as int,
                    ts: old(self).tree_size as int,
                    lod_count: old(self).lod_count as int,
                    flags: flags@,
                };
                let s0 = LayerState {
                    cells: grid_seq(&old(self).cells),
                    released: old(self).released_tiles@,
                    requested: old(self).requested_tiles@,
                };
                let s1 = spec_layer_fold(s0, ctx, flags@.len() as int);
                &&& grid_seq(&final(self).cells) == s1.cells
                &&& final(self).released_tiles@ == s1.released
                &&& final(self).requested_tiles@ == s1.requested
            }),
    {
        let ghost ctx = LayerCtx {
            face,
            lod,
            ox: origin.0 as int,
            oy: origin.1 as int,
            ts: self.tree_size as int,
            lod_count: self.lod_count as int,
            flags: flags@,
        };
        let ghost s0 = LayerState {
            cells: grid_seq(&self.cells),
            released: self.released_tiles@,
            requested: self.requested_tiles@,
        };
        let tc = exp2(lod);
        let ts = self.tree_size;
        let total = flags.len();
        let mut k: usize = 0;
        while k < total
            invariant
                k <= total,
                total == ctx.flags.len(),
                ctx.flags == flags@,
                ctx.ts == old(self).tree_size as int,
                ctx.lod_count == old(self).lod_count as int,
                ctx.ox == origin.0 as int,
                ctx.oy == origin.1 as int,
                ctx.face == face,
                ctx.lod == lod,
                s0 == (LayerState {
                    cells: grid_seq(&old(self).cells),
                    released: old(self).released_tiles@,
                    requested: old(self).requested_tiles@,
                }),
                old(self).wf(),
                face < old(self).shape.spec_face_count(),
                lod < old(self).lod_count,
                origin.0 + old(self).tree_size <= 0x1_0000_0000,
                origin.1 + old(self).tree_size <= 0x1_0000_0000,
                total == (old(self).tree_size as int) * (old(self).tree_size as int),
                tc == pow2(lod as nat),
                ts == old(self).tree_size,
                self.tree_size == old(self).tree_size,
                self.lod_count == old(self).lod_count,
                self.shape == old(self).shape,
                grid_seq(&self.cells).len() == old(self).spec_cell_count(),
                grid_seq(&self.cells) == spec_layer_fold(s0, ctx, k as int).cells,
                self.released_tiles@ == spec_layer_fold(s0, ctx, k as int).released,
                self.requested_tiles@ == spec_layer_fold(s0, ctx, k as int).requested,
            decreases total - k,
        {
            proof {
                assert(k / (ts as usize) < ts && (k / (ts as usize)) * (ts as int) <= k) by (
                nonlinear_arith)
                    requires
                        0 <= k < (ts as int) * (ts as int),
                        ts >= 1,
                ;
            }
            let a = k / (ts as usize);
            let b = k % (ts as usize);
            let cx = origin.0 + a as u32;
            let cy = origin.1 + b as u32;
            let cand = TileCoordinate { face, lod, x: cx, y: cy };
            let in_grid = (cx as u64) < tc && (cy as u64) < tc;
            let active = in_grid && (lod == 0 || flags[k]);
            let xw = cx % ts;
            let yw = cy % ts;
            let faces = self.shape.face_count();
            proof {
                assert((faces as int) * (self.lod_count as int) * (ts as int) * (ts as int)
                    <= usize::MAX);
            }
            let pos = flat_index(
                face as usize,
                lod as usize,
                xw as usize,
                yw as usize,
                faces as usize,
                self.lod_count as usize,
                ts as usize,
                ts as usize,
            );
            let cell = self.cells.get(pos);
            proof {
                assert(pos == spec_cell_pos(ctx, k as int));
                assert(spec_cand(ctx, k as int) == cand);
                assert(spec_active(ctx, k as int) == active);
            }
            let changed = match cell.coordinate {
                Some(c0) => !(c0 == cand),
                None => true,
            };
            let mut c1 = cell;
            let ghost released_before = self.released_tiles@;
            if changed {
                if matches!(cell.state, RequestState::Requested) {
                    match cell.coordinate {
                        Some(c0) => self.released_tiles.push(c0),
                        None => {},
                    }
                }
                c1 = TreeCell {
                    coordinate: Some(cand),
                    state: RequestState::Released,
                    entry: cell.entry,
                };
            }
            if matches!(c1.state, RequestState::Released) && active {
                c1 = TreeCell { state: RequestState::Requested, ..c1 };
                self.requested_tiles.push(cand);
            } else if matches!(c1.state, RequestState::Requested) && !active {
                c1 = TreeCell { state: RequestState::Released, ..c1 };
                self.released_tiles.push(cand);
            }
            self.cells.set(pos, c1);
            proof {
                let prev = spec_layer_fold(s0, ctx, k as int);
                let next = spec_layer_fold(s0, ctx, k as int + 1);
                assert(next == spec_layer_step(prev, ctx, k as int));
                let (c2, rel, req) = spec_slot_step(
                    prev.cells[pos as int],
                    spec_cand(ctx, k as int),
                    spec_active(ctx, k as int),
                );
                assert(c1 == c2);
                assert(self.released_tiles@ =~= prev.released + rel);
                assert(self.requested_tiles@ =~= prev.requested + req);
            }
            k = k + 1;
        }
    }

    /// The number of window cells of the grid.
    pub fn cell_count(&self) -> (n: usize)
        ensures
            n == grid_seq(&self.cells).len(),
    {
        self.cells.len()
    }

    /// The window cell at row-major position `k`.
    pub fn cell(&self, k: usize) -> (c: TreeCell)
        requires
            k < grid_seq(&self.cells).len(),
        ensures
            c == grid_seq(&self.cells)[k as int],
    {
        self.cells.get(k)
    }

    /// Resolves every window slot against the atlas: each cell's entry
    /// becomes the atlas's best loaded tile for the cell's coordinate (the
    /// invalid entry for slots not yet assigned one); coordinates and
    /// demand states are untouched. Run strictly after the frame's
    /// requests and releases have been applied to the atlas.
    pub fn adjust_to_tile_atlas(&mut self, atlas: &TileAtlas)
        requires
            old(self).wf(),
            atlas.wf(),
        ensures
            final(self).wf(),
            final(self).tree_size == old(self).tree_size,
            final(self).lod_count == old(self).lod_count,
            final(self).shape == old(self).shape,
            final(self).released_tiles == old(self).released_tiles,
            final(self).requested_tiles == old(self).requested_tiles,
            grid_seq(&final(self).cells).len() == grid_seq(&old(self).cells).len(),
            forall|i: int|
                0 <= i < grid_seq(&old(self).cells).len() ==> {
                    let c0 = grid_seq(&old(self).cells)[i];
                    let c1 = #[trigger] grid_seq(&final(self).cells)[i];
                    &&& c1.coordinate == c0.coordinate
                    &&& c1.state == c0.state
                    &&& c1.entry == match c0.coordinate {
                        Some(c) => atlas.model().spec_best(c),
                        None => TileTreeEntry::spec_invalid(),
                    }
                },
    {
        let n = self.cells.len();
        let mut k: usize = 0;
        while k < n
            invariant
                k <= n,
                atlas.wf(),
                old(self).wf(),
                n == grid_seq(&old(self).cells).len(),
                self.tree_size == old(self).tree_size,
                self.lod_count == old(self).lod_count,
                self.shape == old(self).shape,
                self.released_tiles == old(self).released_tiles,
                self.requested_tiles == old(self).requested_tiles,
                grid_seq(&self.cells).len() == n,
                forall|i: int|
                    k <= i < n ==> #[trigger] grid_seq(&self.cells)[i] == grid_seq(
                        &old(self).cells,
                    )[i],
                forall|i: int|
                    0 <= i < k ==> {
                        let c0 = grid_seq(&old(self).cells)[i];
                        let c1 = #[trigger] grid_seq(&self.cells)[i];
                        &&& c1.coordinate == c0.coordinate
                        &&& c1.state == c0.state
                        &&& c1.entry == match c0.coordinate {
                            Some(c) => atlas.model().spec_best(c),
                            None => TileTreeEntry::spec_invalid(),
                        }
                    },
            decreases n - k,
        {
            let cell = self.cells.get(k);
            let entry = match cell.coordinate {
                Some(c) => atlas.get_best_tile(c),
                None => TileTreeEntry::invalid(),
            };
            self.cells.set(
                k,
                TreeCell { coordinate: cell.coordinate, state: cell.state, entry },
            );
            k = k + 1;
        }
    }
}

} // verus!
