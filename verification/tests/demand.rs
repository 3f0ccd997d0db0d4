//! The demand model: window origins, the per-slot transition table, and
//! the attachment and configuration types.

use waw_earth::attachment::{tile_path, Attachment, AttachmentConfig, AttachmentData, AttachmentFormat, AttachmentLabel};
use waw_earth::config::{save_earth_config, EarthConfig, EarthSettings, EarthShape};
use waw_earth::coord::{decimal, exp2, Coordinate, TileCoordinate};
use waw_earth::tree::{RequestState, TileTree};

fn coord(lod: u32, x: u32, y: u32) -> TileCoordinate {
    TileCoordinate { face: 0, lod, x, y }
}

fn planar_config(lod_count: u32) -> EarthConfig {
    EarthConfig {
        path: "data/earth".to_string(),
        shape: EarthShape::Plane,
        lod_count,
        attachments: vec![(AttachmentLabel::Topography, AttachmentConfig::default())],
        tiles: vec![],
    }
}

fn unit_coordinate(u: f64, v: f64) -> Coordinate {
    let scale = (1u64 << 32) as f64;
    Coordinate {
        face: 0,
        u: (u * scale).min(scale - 1.0) as u64,
        v: (v * scale).min(scale - 1.0) as u64,
    }
}

#[test]
fn window_clamps_at_grid_edges() {
    // A window of 8 on a level of only 4 tiles per axis must pin to the
    // grid origin, wherever the observer stands.
    let tree = TileTree::new(&planar_config(8), 8);
    assert_eq!(tree.compute_origin(unit_coordinate(0.0, 0.0), 2), (0, 0));
    assert_eq!(tree.compute_origin(unit_coordinate(0.5, 0.5), 2), (0, 0));
    assert_eq!(tree.compute_origin(unit_coordinate(0.999999, 0.999999), 2), (0, 0));

    // On a level of 16 tiles the window slides but never leaves the grid.
    assert_eq!(tree.compute_origin(unit_coordinate(0.0, 0.0), 4), (0, 0));
    assert_eq!(tree.compute_origin(unit_coordinate(0.999999, 0.999999), 4), (8, 8));
    let (ox, oy) = tree.compute_origin(unit_coordinate(0.5, 0.25), 4);
    assert!(ox + 8 <= 16 && oy + 8 <= 16);
}

#[test]
fn window_centres_on_the_observer() {
    let tree = TileTree::new(&planar_config(8), 4);
    // 32 tiles per axis at level 5; the observer at the middle of the
    // face sees a window starting two tiles short of the centre.
    assert_eq!(tree.compute_origin(unit_coordinate(0.5, 0.5), 5), (14, 14));
    assert_eq!(tree.compute_origin(unit_coordinate(0.25, 0.75), 5), (6, 22));
}

#[test]
fn root_level_is_always_demanded() {
    let config = planar_config(2);
    let mut tree = TileTree::new(&config, 2);
    // Distance flags all false: the root must be requested regardless.
    tree.update_layer(0, 0, (0, 0), &vec![false, false, false, false]);
    assert_eq!(tree.requested_tiles, vec![coord(0, 0, 0)]);
    assert!(tree.released_tiles.is_empty());
}

#[test]
fn out_of_grid_candidates_are_never_requested() {
    let config = planar_config(2);
    let mut tree = TileTree::new(&config, 4);
    // Level 1 has 2 tiles per axis; a window of 4 overhangs the grid.
    tree.update_layer(0, 1, (0, 0), &vec![true; 16]);
    assert_eq!(tree.requested_tiles.len(), 4);
    for c in &tree.requested_tiles {
        assert!(c.x < 2 && c.y < 2);
    }
}

#[test]
fn transition_table_emits_requests_and_releases() {
    let config = planar_config(2);
    let mut tree = TileTree::new(&config, 2);
    // Slots are visited in window order: (0,0), (0,1), (1,0), (1,1).
    tree.update_layer(0, 1, (0, 0), &vec![true, false, true, false]);
    assert_eq!(tree.requested_tiles, vec![coord(1, 0, 0), coord(1, 1, 0)]);
    assert!(tree.released_tiles.is_empty());

    // Unchanged classification emits nothing.
    tree.requested_tiles.clear();
    tree.update_layer(0, 1, (0, 0), &vec![true, false, true, false]);
    assert!(tree.requested_tiles.is_empty());
    assert!(tree.released_tiles.is_empty());

    // Dropping below the loading distance releases the demanded tiles.
    tree.update_layer(0, 1, (0, 0), &vec![false, false, false, false]);
    assert_eq!(tree.released_tiles, vec![coord(1, 0, 0), coord(1, 1, 0)]);
}

#[test]
fn window_move_releases_the_old_tile_first() {
    let config = planar_config(3);
    let mut tree = TileTree::new(&config, 2);
    // Demand the window at the grid origin of level 2 (4 tiles per axis).
    tree.update_layer(0, 2, (0, 0), &vec![true; 4]);
    assert_eq!(tree.requested_tiles.len(), 4);
    tree.requested_tiles.clear();

    // Move the window by two tiles: every slot adopts a new coordinate,
    // so each old tile is released and each new one requested.
    tree.update_layer(0, 2, (2, 2), &vec![true; 4]);
    assert_eq!(tree.released_tiles.len(), 4);
    assert_eq!(tree.requested_tiles.len(), 4);
    assert!(tree.released_tiles.contains(&coord(2, 0, 0)));
    assert!(tree.requested_tiles.contains(&coord(2, 2, 2)));

    // The grid cells now track the new window.
    for k in 0..tree.cell_count() {
        let cell = tree.cell(k);
        if let Some(c) = cell.coordinate {
            if c.lod == 2 {
                assert!(c.x >= 2 && c.y >= 2);
                assert_eq!(cell.state, RequestState::Requested);
            }
        }
    }
}

#[test]
fn exp2_matches_powers_of_two() {
    assert_eq!(exp2(0), 1);
    assert_eq!(exp2(1), 2);
    assert_eq!(exp2(10), 1024);
    assert_eq!(exp2(31), 0x8000_0000);
}

#[test]
fn parent_halves_the_grid_position() {
    assert_eq!(coord(0, 0, 0).parent(), None);
    assert_eq!(coord(2, 3, 1).parent(), Some(coord(1, 1, 0)));
    assert_eq!(coord(1, 1, 0).parent(), Some(coord(0, 0, 0)));
}

#[test]
fn pixel_sizes_are_exact() {
    assert_eq!(AttachmentFormat::R8Unorm.pixel_size(), 1);
    assert_eq!(AttachmentFormat::Rgb8U.pixel_size(), 4);
    assert_eq!(AttachmentFormat::Rgba8U.pixel_size(), 4);
    assert_eq!(AttachmentFormat::R16U.pixel_size(), 2);
    assert_eq!(AttachmentFormat::R16I.pixel_size(), 2);
    assert_eq!(AttachmentFormat::Rg16U.pixel_size(), 4);
    assert_eq!(AttachmentFormat::R32F.pixel_size(), 4);
    assert_eq!(AttachmentFormat::Rgb8U.source_stride(), 3);
    assert_eq!(AttachmentFormat::R32F.source_stride(), 4);
}

#[test]
fn three_channel_data_gains_an_opaque_fourth() {
    let decoded = AttachmentData::from_bytes(&[1, 2, 3, 4, 5, 6], AttachmentFormat::Rgb8U);
    assert_eq!(decoded.bytes(), &vec![1, 2, 3, 255, 4, 5, 6, 255]);
    let kept = AttachmentData::from_bytes(&[7, 8], AttachmentFormat::R16U);
    assert_eq!(kept.bytes(), &vec![7, 8]);
}

#[test]
fn attachment_sizes_derive_from_the_border() {
    let config = AttachmentConfig::default();
    assert_eq!(config.texture_size, 512);
    assert_eq!(config.border_size, 2);
    assert_eq!(config.center_size(), 508);
    assert_eq!(config.offset_size(), 510);
    let attachment = Attachment::new(&config, &"data/earth".to_string());
    assert_eq!(attachment.center_size, 508);
    assert_eq!(attachment.path, "data/earth");
}

#[test]
fn label_names_round_trip() {
    assert_eq!(AttachmentLabel::Topography.name(), "topography");
    assert_eq!(AttachmentLabel::DayTime.name(), "daytime");
    assert_eq!(AttachmentLabel::NightTime.name(), "nighttime");
    assert_eq!(AttachmentLabel::OceanMask.name(), "ocean");
    assert_eq!(AttachmentLabel::Bathyometry.name(), "bathyometry");
    assert_eq!(AttachmentLabel::Custom("albedo".to_string()).name(), "albedo");
    assert_eq!(AttachmentLabel::Empty(0).name(), "empty_a");
    assert_eq!(AttachmentLabel::Empty(2).name(), "empty_c");

    assert_eq!(AttachmentLabel::from_str("topography"), AttachmentLabel::Topography);
    assert_eq!(AttachmentLabel::from_str("ocean"), AttachmentLabel::OceanMask);
    assert_eq!(
        AttachmentLabel::from_str("albedo"),
        AttachmentLabel::Custom("albedo".to_string())
    );
}

#[test]
fn format_names_parse() {
    assert_eq!(AttachmentFormat::from_str("r8u"), Some(AttachmentFormat::R8Unorm));
    assert_eq!(AttachmentFormat::from_str("rg8u"), Some(AttachmentFormat::Rgb8U));
    assert_eq!(AttachmentFormat::from_str("rgba8u"), Some(AttachmentFormat::Rgba8U));
    assert_eq!(AttachmentFormat::from_str("r16u"), Some(AttachmentFormat::R16U));
    assert_eq!(AttachmentFormat::from_str("r16i"), Some(AttachmentFormat::R16I));
    assert_eq!(AttachmentFormat::from_str("r32f"), Some(AttachmentFormat::R32F));
    assert_eq!(AttachmentFormat::from_str("r64f"), None);
}

#[test]
fn shapes_expose_their_face_structure() {
    assert_eq!(EarthShape::Plane.face_count(), 1);
    assert_eq!(EarthShape::Sphere.face_count(), 6);
    assert_eq!(EarthShape::Spheroid.face_count(), 6);
    assert!(!EarthShape::Plane.is_spherical());
    assert!(EarthShape::Spheroid.is_spherical());
}

#[test]
fn saving_the_topography_defines_the_dataset() {
    let mut config = planar_config(2);
    let tiles = vec![coord(0, 0, 0), coord(1, 0, 0)];
    save_earth_config(
        &mut config,
        tiles.clone(),
        AttachmentLabel::Topography,
        AttachmentConfig { texture_size: 256, border_size: 2, mip_level_count: 1, mask: false, format: AttachmentFormat::R16U },
        "data/new".to_string(),
        6,
    );
    assert_eq!(config.shape, EarthShape::Spheroid);
    assert_eq!(config.path, "data/new");
    assert_eq!(config.lod_count, 6);
    assert_eq!(config.tiles, tiles);
    assert_eq!(config.attachments.len(), 1);
    assert_eq!(config.attachments[0].1.texture_size, 256);
}

#[test]
fn saving_another_channel_keeps_the_extent() {
    let mut config = planar_config(2);
    config.tiles = vec![coord(0, 0, 0)];
    save_earth_config(
        &mut config,
        vec![],
        AttachmentLabel::DayTime,
        AttachmentConfig::default(),
        "data/new".to_string(),
        9,
    );
    assert_eq!(config.lod_count, 2, "only the topography sets the level count");
    assert_eq!(config.tiles, vec![coord(0, 0, 0)]);
    assert_eq!(config.attachments.len(), 2);
}

#[test]
fn decimal_and_tile_paths_are_deterministic() {
    assert_eq!(decimal(0), "0");
    assert_eq!(decimal(7), "7");
    assert_eq!(decimal(40961), "40961");
    assert_eq!(coord(2, 3, 1).file_name(), "0_2_3_1.bin");
    assert_eq!(
        tile_path("data/earth", &AttachmentLabel::Topography, coord(2, 3, 1)),
        "data/earth/topography/0_2_3_1.bin"
    );
    assert_eq!(
        tile_path("d", &AttachmentLabel::Empty(1), TileCoordinate { face: 5, lod: 0, x: 0, y: 0 }),
        "d/empty_b/5_0_0_0.bin"
    );
}

#[test]
fn default_settings_and_config_match_deployment_defaults() {
    let settings = EarthSettings::default();
    assert_eq!(settings.atlas_size, 1028);
    assert_eq!(settings.attachments.len(), 5);
    assert_eq!(settings.attachments[0], AttachmentLabel::Topography);

    let config = EarthConfig::default();
    assert_eq!(config.shape, EarthShape::Spheroid);
    assert_eq!(config.lod_count, 6);
    assert!(config.attachments.is_empty());
    assert!(config.tiles.is_empty());

    assert_eq!(decimal(u32::MAX), "4294967295");
}
