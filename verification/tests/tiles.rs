use image::{codecs::webp::WebPEncoder, ExtendedColorType};
use kestrel::scenery::terrain::tiles::{
    add_tile_and_bilinear_neighbors, classify_tile_status, decode_elevation, decode_tile,
    heightmap_zoom, height_taps, max_tile_index, required_tiles, sample_tile_pixel, tap_axis,
    tile_retry_due, HeightTile, TapAxis, TileReply, TileState,
};

fn webp(width: u32, height: u32, rgb: &[u8]) -> Vec<u8> {
    let mut out = Vec::new();
    WebPEncoder::new_lossless(&mut out)
        .encode(rgb, width, height, ExtendedColorType::Rgb8)
        .unwrap();
    out
}

#[test]
fn terrarium_decoding() {
    assert_eq!(decode_elevation([128, 0, 0]), 0);
    assert_eq!(decode_elevation([0, 0, 0]), -32768 * 256);
    // 128*256 + 100 + 128/256 - 32768 = 100.5 m
    assert_eq!(decode_elevation([128, 100, 128]), 100 * 256 + 128);
    assert_eq!(decode_elevation([255, 255, 255]) as f32 / 256.0, 32767.0 + 255.0 / 256.0);
}

#[test]
fn webp_tile_round_trip() {
    let rgb = [128, 1, 0, 127, 0, 0, 10, 20, 30, 40, 50, 60];
    let bytes = webp(2, 2, &rgb);
    let state = decode_tile(&bytes, 7);
    match &state {
        TileState::Loaded(t) => {
            assert_eq!((t.width(), t.height()), (2, 2));
            assert_eq!(t.pixel(1, 1), [40, 50, 60]);
        }
        _ => panic!("tile did not decode"),
    }
    assert_eq!(sample_tile_pixel(Some(&state), 0, 0), Some(256));
    assert_eq!(sample_tile_pixel(Some(&state), 1, 0), Some(-65536));
}

#[test]
fn garbage_bytes_fail_at_the_given_time() {
    match decode_tile(&[1, 2, 3, 4], 99) {
        TileState::Failed(t) => assert_eq!(t, 99),
        _ => panic!("garbage decoded"),
    }
}

#[test]
fn sampling_missing_and_empty_tiles() {
    assert_eq!(sample_tile_pixel(None, 0, 0), None);
    assert_eq!(sample_tile_pixel(Some(&TileState::NoData), 3, 4), Some(0));
    assert_eq!(sample_tile_pixel(Some(&TileState::Failed(1)), 3, 4), None);
    let t = HeightTile::from_rgb(1, 1, vec![128, 0, 1]).unwrap();
    assert_eq!(sample_tile_pixel(Some(&TileState::Loaded(t)), 0, 0), Some(1));
    assert!(HeightTile::from_rgb(2, 1, vec![0, 0, 0]).is_none());
}

#[test]
fn failed_tiles_are_retried_after_the_cooldown() {
    let failed = TileState::Failed(1_000);
    assert!(!tile_retry_due(&failed, 1_000 + 15_000_000_000));
    assert!(tile_retry_due(&failed, 1_001 + 15_000_000_000));
    assert!(!tile_retry_due(&failed, 0));
    assert!(!tile_retry_due(&TileState::NoData, u64::MAX));
}

#[test]
fn tile_index_limits() {
    assert_eq!(max_tile_index(0), 0);
    assert_eq!(max_tile_index(1), 1);
    assert_eq!(max_tile_index(15), 32767);
    assert_eq!(max_tile_index(31), 0x7fff_ffff);
    assert_eq!(max_tile_index(32), u32::MAX - 1);
    assert_eq!(heightmap_zoom(12), 12);
    assert_eq!(heightmap_zoom(20), 15);
}

#[test]
fn taps_spill_into_the_next_tile() {
    assert_eq!(tap_axis(3, 10, 7), TapAxis { tile0: 3, px0: 10, tile1: 3, px1: 11 });
    assert_eq!(tap_axis(3, 511, 7), TapAxis { tile0: 3, px0: 511, tile1: 4, px1: 0 });
    assert_eq!(tap_axis(3, 512, 7), TapAxis { tile0: 3, px0: 511, tile1: 4, px1: 0 });
    assert_eq!(tap_axis(7, 600, 7), TapAxis { tile0: 7, px0: 511, tile1: 7, px1: 0 });
    assert_eq!(tap_axis(-4, 0, 7), TapAxis { tile0: 0, px0: 0, tile1: 0, px1: 1 });
    assert_eq!(tap_axis(90, 0, 7).tile0, 7);
    let (x, y) = height_taps(1, 2, 511, 5, 2);
    assert_eq!(x, TapAxis { tile0: 1, px0: 511, tile1: 2, px1: 0 });
    assert_eq!(y, TapAxis { tile0: 2, px0: 5, tile1: 2, px1: 6 });
}

#[test]
fn neighbours_are_collected_once() {
    let mut tiles = Vec::new();
    add_tile_and_bilinear_neighbors(&mut tiles, (2, 3), 4, 15);
    let mut sorted = tiles.clone();
    sorted.sort();
    assert_eq!(sorted, vec![(4, 2, 3), (4, 2, 4), (4, 3, 3), (4, 3, 4)]);
    // at the last tile the neighbours collapse onto it
    add_tile_and_bilinear_neighbors(&mut tiles, (15, 15), 4, 15);
    assert_eq!(tiles.len(), 5);
    let all = required_tiles(&vec![(2, 3), (3, 3), (2, 3)], 4, 15);
    assert_eq!(all.len(), 6);
}

#[test]
fn tile_server_replies() {
    assert_eq!(classify_tile_status(404), TileReply::NoData);
    assert_eq!(classify_tile_status(200), TileReply::ReadBody);
    assert_eq!(classify_tile_status(299), TileReply::ReadBody);
    assert_eq!(classify_tile_status(500), TileReply::Rejected);
    assert_eq!(classify_tile_status(301), TileReply::Rejected);
}

#[test]
fn bilinear_taps_read_only_prefetched_tiles() {
    let zoom = 3;
    let max_tile = max_tile_index(zoom);
    for &(tx, ty, px, py) in &[(1i64, 2i64, 511u32, 511u32), (7, 7, 511, 0), (0, 7, 3, 511)] {
        let required = required_tiles(&vec![(tx as u32, ty as u32)], zoom, max_tile);
        let (a, b) = height_taps(tx, ty, px, py, zoom);
        for &(x, y) in &[(a.tile0, b.tile0), (a.tile1, b.tile0), (a.tile0, b.tile1), (a.tile1, b.tile1)] {
            assert!(required.contains(&(zoom, x, y)));
        }
    }
}
