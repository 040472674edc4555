use kmlcli::text_map::TextMap;
use kmlcli::tiles::decode::{decode_geometry, decode_tile, feature_properties, value_text, zigzag_decode_pub, DEFAULT_EXTENT};
use kmlcli::tiles::proto::{geom_type_from_field, GeomType, Layer, Tile, TileFeature, TileValue};

#[test]
fn test_zigzag_decode() {
    assert_eq!(zigzag_decode_pub(0), 0);
    assert_eq!(zigzag_decode_pub(1), -1);
    assert_eq!(zigzag_decode_pub(2), 1);
    assert_eq!(zigzag_decode_pub(3), -2);
    assert_eq!(zigzag_decode_pub(4), 2);
}

#[test]
fn zigzag_decode_extremes() {
    assert_eq!(zigzag_decode_pub(u32::MAX), i32::MIN);
    assert_eq!(zigzag_decode_pub(u32::MAX - 1), i32::MAX);
}

fn command(id: u32, count: u32) -> u32 {
    (count << 3) | id
}

fn zz(v: i32) -> u32 {
    ((v << 1) ^ (v >> 31)) as u32
}

#[test]
fn decode_point_geometry() {
    // MoveTo(25, 17)
    let g = vec![command(1, 1), zz(25), zz(17)];
    assert_eq!(decode_geometry(&g), vec![vec![(25, 17)]]);
}

#[test]
fn decode_line_geometry_is_relative() {
    // MoveTo(2,2) LineTo(+0,+8) (+8,+0)
    let g = vec![command(1, 1), zz(2), zz(2), command(2, 2), zz(0), zz(8), zz(8), zz(0)];
    assert_eq!(decode_geometry(&g), vec![vec![(2, 2), (2, 10), (10, 10)]]);
}

#[test]
fn decode_polygon_closes_ring() {
    // MoveTo(3,6) LineTo(+5,+6) (+12,-10) ClosePath
    let g = vec![command(1, 1), zz(3), zz(6), command(2, 2), zz(5), zz(6), zz(12), zz(-10), command(7, 1)];
    assert_eq!(decode_geometry(&g), vec![vec![(3, 6), (8, 12), (20, 2), (3, 6)]]);
}

#[test]
fn decode_moveto_starts_new_ring() {
    let g = vec![command(1, 1), zz(1), zz(1), command(2, 1), zz(1), zz(0), command(1, 1), zz(5), zz(5)];
    assert_eq!(decode_geometry(&g), vec![vec![(1, 1), (2, 1)], vec![(7, 6)]]);
}

#[test]
fn decode_truncated_stream_keeps_whole_pairs() {
    // LineTo announces 3 pairs but only one and a half follow.
    let g = vec![command(1, 1), zz(1), zz(1), command(2, 3), zz(1), zz(1), zz(4)];
    assert_eq!(decode_geometry(&g), vec![vec![(1, 1), (2, 2)]]);
}

#[test]
fn decode_skips_unknown_commands_and_empty_streams() {
    assert_eq!(decode_geometry(&[]), Vec::<Vec<(i32, i32)>>::new());
    let g = vec![command(5, 0), command(1, 1), zz(4), zz(4)];
    assert_eq!(decode_geometry(&g), vec![vec![(4, 4)]]);
    // ClosePath with no ring does nothing.
    assert_eq!(decode_geometry(&[command(7, 1)]), Vec::<Vec<(i32, i32)>>::new());
}

#[test]
fn geom_type_field_mapping() {
    assert_eq!(geom_type_from_field(None), GeomType::Unknown);
    assert_eq!(geom_type_from_field(Some(0)), GeomType::Unknown);
    assert_eq!(geom_type_from_field(Some(1)), GeomType::Point);
    assert_eq!(geom_type_from_field(Some(2)), GeomType::LineString);
    assert_eq!(geom_type_from_field(Some(3)), GeomType::Polygon);
    assert_eq!(geom_type_from_field(Some(9)), GeomType::Unknown);
}

fn value() -> TileValue {
    TileValue {
        string_value: None,
        float_value: None,
        double_value: None,
        int_value: None,
        uint_value: None,
        sint_value: None,
        bool_value: None,
    }
}

#[test]
fn value_text_priority_and_formatting() {
    assert_eq!(value_text(&value()), None);
    let mut v = value();
    v.bool_value = Some(true);
    assert_eq!(value_text(&v).as_deref(), Some("true"));
    v.sint_value = Some(-42);
    assert_eq!(value_text(&v).as_deref(), Some("-42"));
    v.uint_value = Some(18446744073709551615);
    assert_eq!(value_text(&v).as_deref(), Some("18446744073709551615"));
    v.double_value = Some("2.5".to_string());
    assert_eq!(value_text(&v).as_deref(), Some("2.5"));
    v.float_value = Some("1.25".to_string());
    assert_eq!(value_text(&v).as_deref(), Some("1.25"));
    v.int_value = Some(i64::MIN);
    assert_eq!(value_text(&v).as_deref(), Some("-9223372036854775808"));
    v.string_value = Some("Paris".to_string());
    assert_eq!(value_text(&v).as_deref(), Some("Paris"));
    let mut f = value();
    f.bool_value = Some(false);
    assert_eq!(value_text(&f).as_deref(), Some("false"));
    let mut z = value();
    z.int_value = Some(0);
    assert_eq!(value_text(&z).as_deref(), Some("0"));
}

fn layer(features: Vec<TileFeature>) -> Layer {
    let mut name_v = value();
    name_v.string_value = Some("Paris".to_string());
    let mut rank_v = value();
    rank_v.int_value = Some(3);
    Layer {
        name: "place".to_string(),
        extent: None,
        features,
        keys: vec!["name".to_string(), "rank".to_string(), "class".to_string()],
        values: vec![name_v, rank_v, value()],
    }
}

#[test]
fn properties_from_tags() {
    let f = TileFeature { tags: vec![0, 0, 1, 1, 2, 2, 7, 0, 0], geom_type: Some(1), geometry: vec![] };
    let l = layer(vec![]);
    let props: TextMap<String> = feature_properties(&l, &f);
    assert_eq!(props.len(), 2);
    assert_eq!(props.get("name").map(|s| s.as_str()), Some("Paris"));
    assert_eq!(props.get("rank").map(|s| s.as_str()), Some("3"));
    // A value with no variant and an out-of-range key are skipped.
    assert!(!props.contains_key("class"));
}

#[test]
fn later_tags_override_earlier_ones() {
    let f = TileFeature { tags: vec![0, 0, 0, 1], geom_type: None, geometry: vec![] };
    let l = layer(vec![]);
    let props = feature_properties(&l, &f);
    assert_eq!(props.get("name").map(|s| s.as_str()), Some("3"));
}

#[test]
fn decode_tile_keeps_features_with_rings() {
    let with_geometry = TileFeature { tags: vec![0, 0], geom_type: Some(1), geometry: vec![command(1, 1), zz(10), zz(20)] };
    let without = TileFeature { tags: vec![0, 0], geom_type: Some(1), geometry: vec![] };
    let tile = Tile { layers: vec![layer(vec![with_geometry, without])] };
    let features = decode_tile(&tile);
    assert_eq!(features.len(), 1);
    assert_eq!(features[0].layer, "place");
    assert_eq!(features[0].geom_type, GeomType::Point);
    assert_eq!(features[0].extent, DEFAULT_EXTENT);
    assert_eq!(features[0].rings, vec![vec![(10, 20)]]);
    assert_eq!(features[0].properties.get("name").map(|s| s.as_str()), Some("Paris"));
}

#[test]
fn decode_tile_uses_layer_extent_and_order() {
    let f1 = TileFeature { tags: vec![], geom_type: Some(2), geometry: vec![command(1, 1), zz(1), zz(1)] };
    let f2 = TileFeature { tags: vec![], geom_type: Some(3), geometry: vec![command(1, 1), zz(2), zz(2)] };
    let mut a = layer(vec![f1]);
    a.name = "water".to_string();
    a.extent = Some(512);
    let b = layer(vec![f2]);
    let features = decode_tile(&Tile { layers: vec![a, b] });
    assert_eq!(features.len(), 2);
    assert_eq!(features[0].layer, "water");
    assert_eq!(features[0].extent, 512);
    assert_eq!(features[0].geom_type, GeomType::LineString);
    assert_eq!(features[1].layer, "place");
    assert_eq!(features[1].geom_type, GeomType::Polygon);
}

#[test]
fn zigzag_decode_undoes_encoding() {
    for v in [0i32, 1, -1, 2, -2, 1000, -1000, i32::MAX, i32::MIN] {
        assert_eq!(zigzag_decode_pub(zz(v)), v);
    }
}
