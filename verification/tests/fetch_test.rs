use std::io::Write;

use kmlcli::text::{i64_text, replace_all, u64_text};
use kmlcli::tiles::fetch::{payload_from, tile_payload, tile_url};
use kmlcli::tiles::math::TileCoord;

#[test]
fn tile_url_fills_template() {
    let url = tile_url("https://tiles.example.org/planet/{z}/{x}/{y}.pbf", &TileCoord { z: 14, x: 8297, y: 5634 });
    assert_eq!(url, "https://tiles.example.org/planet/14/8297/5634.pbf");
}

#[test]
fn tile_url_replaces_every_occurrence() {
    assert_eq!(tile_url("{z}-{z}/{y}{x}", &TileCoord { z: 0, x: 1, y: 2 }), "0-0/21");
    assert_eq!(tile_url("no placeholders", &TileCoord { z: 3, x: 4, y: 5 }), "no placeholders");
}

#[test]
fn replace_all_matches_str_replace() {
    for (s, pat, rep) in [("aaa", "aa", "b"), ("abcabc", "bc", "XY"), ("", "x", "y"), ("xyz", "xyzw", "q"), ("ééé", "é", "e"), ("abc", "", "-"), ("", "", "-"), ("é", "", "")] {
        assert_eq!(replace_all(s, pat, rep), s.replace(pat, rep));
    }
}

#[test]
fn decimal_texts() {
    assert_eq!(u64_text(0), "0");
    assert_eq!(u64_text(10), "10");
    assert_eq!(u64_text(u64::MAX), u64::MAX.to_string());
    assert_eq!(i64_text(-1), "-1");
    assert_eq!(i64_text(i64::MIN), i64::MIN.to_string());
    assert_eq!(i64_text(i64::MAX), i64::MAX.to_string());
}

fn gzip(data: &[u8]) -> Vec<u8> {
    let mut enc = flate2::write::GzEncoder::new(Vec::new(), flate2::Compression::default());
    enc.write_all(data).unwrap();
    enc.finish().unwrap()
}

#[test]
fn tile_payload_gunzips() {
    let body = gzip(b"\x1a\x05hello");
    assert_ne!(body, b"\x1a\x05hello".to_vec());
    assert_eq!(tile_payload(&body), Some(b"\x1a\x05hello".to_vec()));
}

#[test]
fn tile_payload_keeps_plain_bodies() {
    assert_eq!(tile_payload(b"\x1a\x05hello"), Some(b"\x1a\x05hello".to_vec()));
    assert_eq!(tile_payload(b""), None);
}

#[test]
fn payload_from_prefers_decompressed() {
    assert_eq!(payload_from(b"raw", Some(b"inflated".to_vec())), b"inflated".to_vec());
    assert_eq!(payload_from(b"raw", None), b"raw".to_vec());
}

