use kmlcli::tiles::math::{capped_tiles_in_range, tiles_in_range, TileCoord, MAX_VISIBLE_TILES};

#[test]
fn single_tile_range() {
    let tiles = tiles_in_range(0, 0, 0, 0, 0);
    assert_eq!(tiles, vec![TileCoord { z: 0, x: 0, y: 0 }]);
}

#[test]
fn range_is_column_major_and_complete() {
    let tiles = tiles_in_range(3, 1, 2, 4, 6);
    assert_eq!(tiles.len(), 6);
    assert_eq!(tiles[0], TileCoord { z: 3, x: 1, y: 4 });
    assert_eq!(tiles[2], TileCoord { z: 3, x: 1, y: 6 });
    assert_eq!(tiles[3], TileCoord { z: 3, x: 2, y: 4 });
    assert_eq!(tiles[5], TileCoord { z: 3, x: 2, y: 6 });
    for x in 1..=2 {
        for y in 4..=6 {
            assert_eq!(tiles.iter().filter(|t| **t == TileCoord { z: 3, x, y }).count(), 1);
        }
    }
}

#[test]
fn empty_ranges_give_no_tile() {
    assert!(tiles_in_range(5, 3, 2, 0, 9).is_empty());
    assert!(tiles_in_range(5, 0, 9, 7, 6).is_empty());
}

#[test]
fn range_at_the_top_of_u32() {
    let tiles = tiles_in_range(1, u32::MAX, u32::MAX, u32::MAX - 1, u32::MAX);
    assert_eq!(tiles, vec![TileCoord { z: 1, x: u32::MAX, y: u32::MAX - 1 }, TileCoord { z: 1, x: u32::MAX, y: u32::MAX }]);
}

#[test]
fn capped_range_keeps_first_tiles() {
    let all = tiles_in_range(10, 0, 9, 0, 9);
    let capped = capped_tiles_in_range(10, 0, 9, 0, 9);
    assert_eq!(MAX_VISIBLE_TILES, 16);
    assert_eq!(capped.len(), 16);
    assert_eq!(&capped[..], &all[..16]);
    assert_eq!(capped_tiles_in_range(10, 0, 1, 0, 1).len(), 4);
}
