use kmlcli::tiles::cache::{tile_key, TileStore, CACHE_SIZE};
use kmlcli::tiles::math::TileCoord;
use kmlcli::tiles::render::{MapColor, RenderedFeature, RenderedTile, TileSegment};

fn tc(x: u32) -> TileCoord {
    TileCoord { z: 5, x, y: 7 }
}

#[test]
fn stored_tiles_are_cached() {
    let mut store = TileStore::new();
    assert_eq!(store.len(), 0);
    assert!(!store.is_cached(&tc(1)));
    store.store_tile(&tc(1), Vec::new());
    assert!(store.is_cached(&tc(1)));
    assert!(store.cached_tile(&tc(1)).is_some());
    assert!(store.cached_tile(&tc(2)).is_none());
    assert_eq!(store.len(), 1);
    assert_eq!(tile_key(&tc(3)), (5, 3, 7));
}

#[test]
fn storing_again_replaces() {
    let mut store = TileStore::new();
    store.store_tile(&tc(1), Vec::new());
    store.store_tile(&tc(1), Vec::new());
    assert_eq!(store.len(), 1);
}

#[test]
fn full_store_evicts_least_recently_used() {
    let mut store = TileStore::new();
    for x in 0..CACHE_SIZE as u32 {
        store.store_tile(&tc(x), Vec::new());
    }
    assert_eq!(store.len(), CACHE_SIZE);
    // Reading tile 0 makes tile 1 the least recently used.
    assert!(store.cached_tile(&tc(0)).is_some());
    store.store_tile(&tc(1000), Vec::new());
    assert!(store.is_cached(&tc(0)));
    assert!(!store.is_cached(&tc(1)));
    assert!(store.is_cached(&tc(1000)));
    assert_eq!(store.len(), CACHE_SIZE);
}

#[test]
fn only_uncached_tiles_are_fetched() {
    let mut store = TileStore::new();
    store.store_tile(&tc(2), Vec::new());
    let missing = store.tiles_to_fetch(&[tc(1), tc(2), tc(3)]);
    assert_eq!(missing, vec![tc(1), tc(3)]);
}

#[test]
fn stored_features_read_back() {
    let mut store = TileStore::new();
    let feature = RenderedFeature {
        extent: 4096,
        drawn: RenderedTile {
            segments: vec![TileSegment { from: (1, 2), to: (3, 4), color: MapColor::Rgb(80, 80, 80) }],
            labels: Vec::new(),
        },
    };
    store.store_tile(&tc(9), vec![feature]);
    store.store_tile(&tc(10), Vec::new());
    let got = store.cached_tile(&tc(9)).expect("tile is cached");
    assert_eq!(got.len(), 1);
    assert_eq!(got[0].extent, 4096);
    assert_eq!(got[0].drawn.segments.len(), 1);
    assert_eq!(got[0].drawn.segments[0].from, (1, 2));
    assert_eq!(got[0].drawn.segments[0].to, (3, 4));
    assert!(store.cached_tile(&tc(10)).unwrap().is_empty());
}

#[test]
fn storing_again_refreshes_only_that_tile() {
    let mut store = TileStore::new();
    for x in 0..CACHE_SIZE as u32 {
        store.store_tile(&tc(x), Vec::new());
    }
    // Storing tile 0 again makes tile 1 the least recently used; the next
    // new tile evicts it and nothing else.
    store.store_tile(&tc(0), Vec::new());
    store.store_tile(&tc(500), Vec::new());
    assert!(store.is_cached(&tc(0)));
    assert!(!store.is_cached(&tc(1)));
    assert!(store.is_cached(&tc(2)));
    store.store_tile(&tc(501), Vec::new());
    assert!(!store.is_cached(&tc(2)));
    assert!(store.is_cached(&tc(3)));
    // A miss changes nothing.
    assert!(store.cached_tile(&tc(9999)).is_none());
    store.store_tile(&tc(502), Vec::new());
    assert!(!store.is_cached(&tc(3)));
}

#[test]
fn store_never_holds_more_than_cache_size() {
    let mut store = TileStore::new();
    for x in 0..(3 * CACHE_SIZE as u32) {
        store.store_tile(&tc(x), Vec::new());
        assert!(store.len() <= CACHE_SIZE);
        if x % 5 == 0 {
            assert!(store.cached_tile(&tc(x / 2)).is_some() == store.is_cached(&tc(x / 2)));
        }
    }
    assert_eq!(store.len(), CACHE_SIZE);
    assert!(!store.is_cached(&tc(0)));
    assert!(store.is_cached(&tc(3 * CACHE_SIZE as u32 - 1)));
}
