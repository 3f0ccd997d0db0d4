//! End-to-end behaviour of the tile atlas, the loader and the frame
//! protocol, exercised on small concrete datasets.

use waw_earth::atlas::{AtlasError, LoadingState, TileAtlas};
use waw_earth::attachment::{AttachmentConfig, AttachmentData, AttachmentFormat, AttachmentLabel, AttachmentTile};
use waw_earth::config::{EarthConfig, EarthShape};
use waw_earth::coord::TileCoordinate;
use waw_earth::frame::apply_frame;
use waw_earth::loader::DefaultLoader;
use waw_earth::tree::{TileTree, TileTreeEntry};

fn coord(lod: u32, x: u32, y: u32) -> TileCoordinate {
    TileCoordinate { face: 0, lod, x, y }
}

/// A planar dataset with a root tile and its four children, one channel.
fn small_config() -> EarthConfig {
    EarthConfig {
        path: "data/earth".to_string(),
        shape: EarthShape::Plane,
        lod_count: 2,
        attachments: vec![(AttachmentLabel::Topography, AttachmentConfig::default())],
        tiles: vec![coord(0, 0, 0), coord(1, 0, 0), coord(1, 0, 1), coord(1, 1, 0), coord(1, 1, 1)],
    }
}

fn topo_tile(c: TileCoordinate) -> AttachmentTile {
    AttachmentTile { coordinate: c, label: AttachmentLabel::Topography }
}

fn some_data() -> AttachmentData {
    AttachmentData::from_bytes(&[0u8, 1, 2, 3], AttachmentFormat::Rgba8U)
}

fn live_count(atlas: &TileAtlas) -> usize {
    atlas.tile_states.iter().filter(|(_, s)| s.requests > 0).count()
}

fn assert_conservation(atlas: &TileAtlas) {
    assert_eq!(
        atlas.unused_indices.len() + live_count(atlas),
        atlas.atlas_size as usize
    );
}

fn assert_live_slots_unique(atlas: &TileAtlas) {
    for (i, (_, a)) in atlas.tile_states.iter().enumerate() {
        for (_, b) in atlas.tile_states.iter().skip(i + 1) {
            if a.requests > 0 && b.requests > 0 {
                assert_ne!(a.atlas_index, b.atlas_index);
            }
        }
    }
}

#[test]
fn fresh_atlas_has_all_slots_free() {
    let atlas = TileAtlas::new(&small_config(), 4);
    assert_eq!(atlas.atlas_size, 4);
    assert_eq!(atlas.unused_indices.len(), 4);
    assert_eq!(atlas.unused_indices[0], 0);
    assert_eq!(atlas.unused_indices[3], 3);
    assert!(atlas.tile_states.is_empty());
    assert_conservation(&atlas);
}

#[test]
fn request_outside_existence_set_is_a_no_op() {
    let mut atlas = TileAtlas::new(&small_config(), 4);
    assert!(atlas.request_tile(coord(1, 3, 3)).is_ok());
    assert!(atlas.tile_states.is_empty());
    assert_eq!(atlas.unused_indices.len(), 4);
    assert!(atlas.to_load.is_empty());
}

#[test]
fn request_assigns_front_slot_and_queues_loads() {
    let mut atlas = TileAtlas::new(&small_config(), 4);
    assert!(atlas.request_tile(coord(0, 0, 0)).is_ok());
    assert_eq!(atlas.tile_states.len(), 1);
    let (c, st) = &atlas.tile_states[0];
    assert_eq!(*c, coord(0, 0, 0));
    assert_eq!(st.atlas_index, 0);
    assert_eq!(st.requests, 1);
    assert_eq!(st.state, LoadingState::Loading(1));
    assert_eq!(atlas.to_load.len(), 1);
    assert_eq!(atlas.to_load[0].coordinate, coord(0, 0, 0));
    assert_eq!(atlas.unused_indices.len(), 3);
    assert_conservation(&atlas);
}

#[test]
fn end_to_end_capacity_exhaustion_and_reuse() {
    // Capacity 4; the existence set is the root and its four children.
    let mut atlas = TileAtlas::new(&small_config(), 4);
    let root = coord(0, 0, 0);
    assert!(atlas.request_tile(root).is_ok());
    assert_eq!(atlas.tile_states[0].1.atlas_index, 0);
    assert_eq!(atlas.tile_states[0].1.state, LoadingState::Loading(1));

    // Simulate the load completing: the root flips to loaded.
    assert!(atlas.tile_loaded(topo_tile(root), some_data()).is_ok());
    assert_eq!(atlas.tile_states[0].1.state, LoadingState::Loaded);

    // Three children fit; the fourth exhausts the pool.
    assert!(atlas.request_tile(coord(1, 0, 0)).is_ok());
    assert!(atlas.request_tile(coord(1, 0, 1)).is_ok());
    assert!(atlas.request_tile(coord(1, 1, 0)).is_ok());
    assert_eq!(atlas.request_tile(coord(1, 1, 1)), Err(AtlasError::OutOfIndices));

    // Releasing the root frees its slot; the fourth child then succeeds
    // and reuses slot 0.
    assert!(atlas.release_tile(root).is_ok());
    assert!(atlas.request_tile(coord(1, 1, 1)).is_ok());
    let (_, st) = atlas
        .tile_states
        .iter()
        .find(|(c, _)| *c == coord(1, 1, 1))
        .unwrap();
    assert_eq!(st.atlas_index, 0);
    assert_live_slots_unique(&atlas);
    assert_conservation(&atlas);
}

#[test]
fn shared_reference_counting_across_views() {
    // Capacity 1 makes any premature slot reuse visible.
    let mut atlas = TileAtlas::new(&small_config(), 1);
    let c = coord(0, 0, 0);
    let d = coord(1, 0, 0);
    assert!(atlas.request_tile(c).is_ok());
    assert!(atlas.request_tile(c).is_ok());
    assert_eq!(atlas.tile_states[0].1.requests, 2);

    // One release leaves the tile resident and its slot pinned.
    assert!(atlas.release_tile(c).is_ok());
    assert_eq!(atlas.tile_states[0].1.requests, 1);
    assert!(atlas.unused_indices.is_empty());
    assert_eq!(atlas.request_tile(d), Err(AtlasError::OutOfIndices));

    // The second release unpins the slot; only then is it reusable.
    assert!(atlas.release_tile(c).is_ok());
    assert_eq!(atlas.tile_states[0].1.requests, 0);
    assert_eq!(atlas.unused_indices.len(), 1);
    assert!(atlas.request_tile(d).is_ok());
    assert_conservation(&atlas);
}

#[test]
fn released_tile_stays_resident_until_evicted() {
    let mut atlas = TileAtlas::new(&small_config(), 4);
    let c = coord(1, 0, 0);
    assert!(atlas.request_tile(c).is_ok());
    assert!(atlas.tile_loaded(topo_tile(c), some_data()).is_ok());
    assert!(atlas.release_tile(c).is_ok());
    // The tile acts as a cache entry: still resident, still loaded.
    assert_eq!(atlas.tile_states.len(), 1);
    assert_eq!(atlas.get_best_tile(c).atlas_lod, 1);
    // Re-requesting it un-evicts without a fresh load.
    assert!(atlas.request_tile(c).is_ok());
    assert_eq!(atlas.tile_states.len(), 1);
    assert_eq!(atlas.to_load.len(), 1, "no second load job for a cached tile");
    assert_conservation(&atlas);
}

#[test]
fn double_release_is_fatal() {
    let mut atlas = TileAtlas::new(&small_config(), 4);
    let c = coord(0, 0, 0);
    assert!(atlas.request_tile(c).is_ok());
    assert!(atlas.release_tile(c).is_ok());
    assert_eq!(atlas.release_tile(c), Err(AtlasError::ReleaseUnderflow));
    assert_eq!(atlas.release_tile(coord(1, 0, 0)), Err(AtlasError::ReleaseUnderflow));
}

#[test]
fn request_counter_at_machine_limit_is_fatal() {
    let mut atlas = TileAtlas::new(&small_config(), 4);
    let c = coord(0, 0, 0);
    assert!(atlas.request_tile(c).is_ok());
    atlas.tile_states[0].1.requests = u32::MAX;
    assert_eq!(atlas.request_tile(c), Err(AtlasError::TooManyRequests));
}

#[test]
fn stale_completion_is_discarded() {
    let mut atlas = TileAtlas::new(&small_config(), 4);
    // No tile state exists: the data is dropped silently.
    assert!(atlas.tile_loaded(topo_tile(coord(1, 0, 0)), some_data()).is_ok());
    assert!(atlas.uploading_tiles.is_empty());
    assert!(atlas.tile_states.is_empty());
}

#[test]
fn extra_load_is_fatal() {
    let mut atlas = TileAtlas::new(&small_config(), 4);
    let c = coord(0, 0, 0);
    assert!(atlas.request_tile(c).is_ok());
    assert!(atlas.tile_loaded(topo_tile(c), some_data()).is_ok());
    assert_eq!(
        atlas.tile_loaded(topo_tile(c), some_data()),
        Err(AtlasError::ExtraLoad)
    );
}

#[test]
fn completion_fills_upload_queue() {
    let mut atlas = TileAtlas::new(&small_config(), 4);
    let c = coord(0, 0, 0);
    assert!(atlas.request_tile(c).is_ok());
    assert!(atlas.tile_loaded(topo_tile(c), some_data()).is_ok());
    assert_eq!(atlas.uploading_tiles.len(), 1);
    assert_eq!(atlas.uploading_tiles[0].atlas_index, 0);
    assert_eq!(atlas.uploading_tiles[0].label, AttachmentLabel::Topography);
    assert_eq!(atlas.uploading_tiles[0].data.bytes(), &vec![0u8, 1, 2, 3]);
}

#[test]
fn get_best_walks_to_nearest_loaded_ancestor() {
    let mut atlas = TileAtlas::new(&small_config(), 4);
    let root = coord(0, 0, 0);
    let child = coord(1, 1, 1);

    // Nothing loaded: the child resolves to the invalid entry.
    assert_eq!(atlas.get_best_tile(child), TileTreeEntry::invalid());

    // With only the root loaded, the child falls back to the root.
    assert!(atlas.request_tile(root).is_ok());
    assert!(atlas.tile_loaded(topo_tile(root), some_data()).is_ok());
    let e = atlas.get_best_tile(child);
    assert_eq!(e.atlas_lod, 0);
    assert_eq!(e.atlas_index, 0);
    assert!(e.atlas_lod <= child.lod);

    // A coordinate outside the existence set resolves to the invalid entry.
    assert_eq!(atlas.get_best_tile(coord(1, 3, 3)), TileTreeEntry::invalid());

    // Once the child itself is loaded, it wins over the root.
    assert!(atlas.request_tile(child).is_ok());
    assert!(atlas.tile_loaded(topo_tile(child), some_data()).is_ok());
    let e = atlas.get_best_tile(child);
    assert_eq!(e.atlas_lod, 1);
}

#[test]
fn frame_applies_releases_before_requests() {
    // Capacity 1: view A releases its tile and view B requests another in
    // the same frame; B's request must succeed without exhaustion.
    let mut atlas = TileAtlas::new(&small_config(), 1);
    let config = small_config();
    let a = coord(0, 0, 0);
    let b = coord(1, 0, 0);

    let mut view_a = TileTree::new(&config, 2);
    let mut view_b = TileTree::new(&config, 2);
    view_a.requested_tiles.push(a);
    let mut trees = vec![view_a, view_b];
    assert!(apply_frame(&mut atlas, &mut trees).is_ok());
    assert_eq!(atlas.tile_states[0].1.requests, 1);

    let mut view_a = trees.remove(0);
    let mut view_b = trees.remove(0);
    view_a.released_tiles.push(a);
    view_b.requested_tiles.push(b);
    let mut trees = vec![view_a, view_b];
    assert!(apply_frame(&mut atlas, &mut trees).is_ok());

    let (_, st) = atlas.tile_states.iter().find(|(c, _)| *c == b).unwrap();
    assert_eq!(st.requests, 1);
    assert_eq!(st.atlas_index, 0);
    assert!(trees[0].released_tiles.is_empty());
    assert!(trees[1].requested_tiles.is_empty());
    assert_conservation(&atlas);
}

#[test]
fn frame_stops_on_fatal_error() {
    let mut atlas = TileAtlas::new(&small_config(), 1);
    let config = small_config();
    let mut view = TileTree::new(&config, 2);
    view.requested_tiles.push(coord(0, 0, 0));
    view.requested_tiles.push(coord(1, 0, 0));
    let mut trees = vec![view];
    assert_eq!(apply_frame(&mut atlas, &mut trees), Err(AtlasError::OutOfIndices));
}

#[test]
fn loader_respects_concurrency_budget() {
    let mut atlas = TileAtlas::new(&small_config(), 8);
    let mut loader = DefaultLoader { loading_count: 0, capacity: 3 };
    for c in [coord(0, 0, 0), coord(1, 0, 0), coord(1, 0, 1), coord(1, 1, 0), coord(1, 1, 1)] {
        assert!(atlas.request_tile(c).is_ok());
    }
    assert_eq!(atlas.to_load.len(), 5);

    // Only three fetches may be in flight; the newest jobs go first.
    let jobs = loader.start_loading(&mut atlas);
    assert_eq!(jobs.len(), 3);
    assert_eq!(loader.loading_count, 3);
    assert_eq!(atlas.to_load.len(), 2);
    assert_eq!(jobs[0].coordinate, coord(1, 1, 1));

    // No capacity left: nothing more starts.
    let jobs2 = loader.start_loading(&mut atlas);
    assert!(jobs2.is_empty());

    // Finishing one fetch frees one unit of budget.
    assert!(loader
        .finish_tile(&mut atlas, jobs[0].clone(), Some(vec![0u8, 1, 2, 3]))
        .is_ok());
    assert_eq!(loader.loading_count, 2);
    let jobs3 = loader.start_loading(&mut atlas);
    assert_eq!(jobs3.len(), 1);
}

#[test]
fn failed_fetch_leaves_tile_loading_for_retry() {
    let mut atlas = TileAtlas::new(&small_config(), 4);
    let mut loader = DefaultLoader::default();
    let c = coord(0, 0, 0);
    assert!(atlas.request_tile(c).is_ok());
    let jobs = loader.start_loading(&mut atlas);
    assert_eq!(jobs.len(), 1);

    // A failed fetch is dropped: the tile stays loading, no upload.
    assert!(loader.finish_tile(&mut atlas, jobs[0].clone(), None).is_ok());
    assert_eq!(atlas.tile_states[0].1.state, LoadingState::Loading(1));
    assert!(atlas.uploading_tiles.is_empty());

    // Malformed bytes (not whole pixels) are treated the same way.
    assert!(loader
        .finish_tile(&mut atlas, jobs[0].clone(), Some(vec![0u8, 1, 2]))
        .is_ok());
    assert_eq!(atlas.tile_states[0].1.state, LoadingState::Loading(1));

    // A sound retry completes the tile.
    assert!(loader
        .finish_tile(&mut atlas, jobs[0].clone(), Some(vec![0u8, 1, 2, 3]))
        .is_ok());
    assert_eq!(atlas.tile_states[0].1.state, LoadingState::Loaded);
    assert_eq!(atlas.uploading_tiles.len(), 1);
}

#[test]
fn tree_resolves_window_against_atlas() {
    let config = small_config();
    let mut atlas = TileAtlas::new(&config, 4);
    let root = coord(0, 0, 0);
    assert!(atlas.request_tile(root).is_ok());
    assert!(atlas.tile_loaded(topo_tile(root), some_data()).is_ok());

    let mut tree = TileTree::new(&config, 2);
    // Track the four child tiles at the finest level.
    tree.update_layer(0, 1, (0, 0), &vec![true, true, true, true]);
    assert_eq!(tree.requested_tiles.len(), 4);

    tree.adjust_to_tile_atlas(&atlas);
    // One cell per face, level and window position.
    assert_eq!(tree.cell_count(), 1 * 2 * 2 * 2);
    // Every child window slot falls back to the loaded root.
    let mut assigned = 0;
    for k in 0..tree.cell_count() {
        let cell = tree.cell(k);
        if let Some(c) = cell.coordinate {
            assigned += 1;
            let e = cell.entry;
            assert_eq!(e.atlas_lod, 0);
            assert_eq!(e.atlas_index, 0);
            assert!(e.atlas_lod <= c.lod);
        }
    }
    assert_eq!(assigned, 4);
}

#[test]
fn zero_capacity_atlas_exhausts_immediately() {
    let mut atlas = TileAtlas::new(&small_config(), 0);
    assert_eq!(atlas.request_tile(coord(0, 0, 0)), Err(AtlasError::OutOfIndices));
    assert_conservation(&atlas);
}

#[test]
fn dataset_without_channels_accepts_no_loads() {
    let mut config = small_config();
    config.attachments.clear();
    let mut atlas = TileAtlas::new(&config, 2);
    let c = coord(0, 0, 0);
    assert!(atlas.request_tile(c).is_ok());
    assert!(atlas.to_load.is_empty());
    assert_eq!(atlas.tile_states[0].1.state, LoadingState::Loading(0));
    // No attachment load is ever owed, so any arrival is an extra one.
    assert_eq!(atlas.tile_loaded(topo_tile(c), some_data()), Err(AtlasError::ExtraLoad));
}

#[test]
fn eviction_discards_the_stale_resident() {
    // Capacity 1: a fresh request steals the slot of the cached tile and
    // the stale state vanishes from the residence table.
    let mut atlas = TileAtlas::new(&small_config(), 1);
    let a = coord(0, 0, 0);
    let b = coord(1, 0, 0);
    assert!(atlas.request_tile(a).is_ok());
    assert!(atlas.release_tile(a).is_ok());
    assert_eq!(atlas.tile_states.len(), 1);
    assert!(atlas.request_tile(b).is_ok());
    assert_eq!(atlas.tile_states.len(), 1);
    assert_eq!(atlas.tile_states[0].0, b);
    // A late completion for the evicted tile is discarded.
    assert!(atlas.tile_loaded(topo_tile(a), some_data()).is_ok());
    assert!(atlas.uploading_tiles.is_empty());
    assert_conservation(&atlas);
}
