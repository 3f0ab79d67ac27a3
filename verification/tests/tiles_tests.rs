use abra::tiles::{generate_tiles, TileConfig};

#[test]
fn config_defaults_and_builders() {
    let d = TileConfig::default();
    assert_eq!((d.tile_size, d.overlap), (256, 64));
    assert_eq!(d.stride(), 192);
    let c = TileConfig::new(32, 8).with_tile_size(40).with_overlap(50);
    assert_eq!((c.tile_size, c.overlap), (40, 50));
    assert_eq!(c.stride(), 0);
}

#[test]
fn tiles_for_100_by_80() {
    let config = TileConfig::new(32, 8);
    let tiles = generate_tiles(100, 80, &config);
    // stride 24: ceil(100 / 24) = 5 columns, ceil(80 / 24) = 4 rows
    assert_eq!(tiles.len(), 20);
    for (k, t) in tiles.iter().enumerate() {
        assert_eq!(t.index as usize, k);
        assert_eq!(t.total, 20);
        assert!(t.x + t.width <= 100);
        assert!(t.y + t.height <= 80);
        assert!(t.width <= 32 && t.height <= 32);
    }
    // the last column is moved back to end at the right edge
    let last = &tiles[4];
    assert_eq!((last.x, last.width), (68, 32));
    let bottom = &tiles[19];
    assert_eq!((bottom.y, bottom.height), (48, 32));
}

#[test]
fn tiles_cover_every_pixel() {
    let config = TileConfig::new(16, 5);
    let (w, h) = (50u32, 23u32);
    let tiles = generate_tiles(w, h, &config);
    for y in 0..h {
        for x in 0..w {
            assert!(tiles.iter().any(|t| t.x <= x && x < t.x + t.width && t.y <= y && y < t.y + t.height));
        }
    }
}

#[test]
fn small_or_empty_image_gives_one_tile() {
    let config = TileConfig::new(64, 16);
    let tiles = generate_tiles(10, 7, &config);
    assert_eq!(tiles.len(), 1);
    assert_eq!((tiles[0].x, tiles[0].y, tiles[0].width, tiles[0].height), (0, 0, 10, 7));
    let empty = generate_tiles(0, 0, &config);
    assert_eq!(empty.len(), 1);
    assert_eq!((empty[0].width, empty[0].height), (0, 0));
}
