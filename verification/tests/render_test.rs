use kmlcli::text_map::TextMap;
use kmlcli::tiles::decode::DecodedFeature;
use kmlcli::tiles::proto::GeomType;
use kmlcli::tiles::render::{
    dedup_labels, label_color, label_zoom, layer_color, prerender_tile, render_tile, render_tile_features, render_tile_labels,
    segment_color, visible_labels, MapColor, TileLabel,
};

fn make_feature(
    layer: &str,
    class: &str,
    rings: Vec<Vec<(i32, i32)>>,
    geom_type: GeomType,
    name: Option<&str>,
) -> DecodedFeature<(i32, i32)> {
    let mut properties = TextMap::new();
    if !class.is_empty() {
        properties.insert("class".to_string(), class.to_string());
    }
    if let Some(n) = name {
        properties.insert("name".to_string(), n.to_string());
    }
    DecodedFeature {
        layer: layer.to_string(),
        geom_type,
        extent: 4096,
        rings,
        properties,
    }
}

// Points are tile-local integer coordinates, as decoding yields them; the
// values of the float examples are kept where they are whole numbers.

#[test]
fn test_prerender_water_polygon_produces_segments() {
    let features = vec![make_feature("water", "", vec![vec![(0, 0), (1, 0), (1, 1), (0, 0)]], GeomType::Polygon, None)];
    let rendered = prerender_tile(&features);
    assert!(!rendered.segments.is_empty());
    // 3 segments for a triangle (3 windows of 2)
    assert_eq!(rendered.segments.len(), 3);
}

#[test]
fn test_prerender_skips_unknown_layers() {
    let features = vec![make_feature("unknown_layer", "", vec![vec![(0, 0), (1, 1)]], GeomType::LineString, None)];
    let rendered = prerender_tile(&features);
    assert!(rendered.segments.is_empty());
}

#[test]
fn test_prerender_skips_micro_segments() {
    // Two points closer than one unit of the tile grid decode to the same point.
    let features = vec![make_feature("water", "", vec![vec![(0, 0), (0, 0)]], GeomType::LineString, None)];
    let rendered = prerender_tile(&features);
    assert!(rendered.segments.is_empty(), "micro segment should be filtered");
}

#[test]
fn test_prerender_extracts_place_labels() {
    let features = vec![make_feature("place", "city", vec![vec![(235, 4886)]], GeomType::Point, Some("Paris"))];
    let rendered = prerender_tile(&features);
    assert_eq!(rendered.labels.len(), 1);
    assert_eq!(rendered.labels[0].text, "Paris");
    assert_eq!(rendered.labels[0].min_zoom, 6);
}

#[test]
fn test_prerender_skips_labels_without_name() {
    let features = vec![make_feature("place", "city", vec![vec![(235, 4886)]], GeomType::Point, None)];
    let rendered = prerender_tile(&features);
    assert!(rendered.labels.is_empty());
}

#[test]
fn test_prerender_road_colors_differ_by_class() {
    let motorway = make_feature("transportation", "motorway", vec![vec![(0, 0), (1, 1)]], GeomType::LineString, None);
    let tertiary = make_feature("transportation", "tertiary", vec![vec![(0, 0), (1, 1)]], GeomType::LineString, None);
    let r1 = prerender_tile(&[motorway]);
    let r2 = prerender_tile(&[tertiary]);
    assert_ne!(r1.segments[0].color, r2.segments[0].color);
}

#[test]
fn segments_keep_window_order_and_skip_repeated_points() {
    let features = vec![make_feature("water", "", vec![vec![(0, 0), (1, 0), (1, 0), (1, 1)]], GeomType::Polygon, None)];
    let segments = render_tile_features(&features);
    assert_eq!(segments.len(), 2);
    assert_eq!((segments[0].from, segments[0].to), ((0, 0), (1, 0)));
    assert_eq!((segments[1].from, segments[1].to), ((1, 0), (1, 1)));
    assert!(segments.iter().all(|s| s.color == MapColor::Blue));
}

#[test]
fn points_and_single_points_draw_nothing() {
    let point = make_feature("water", "", vec![vec![(0, 0), (1, 1)]], GeomType::Point, None);
    assert!(render_tile_features(&[point]).is_empty());
    let single = make_feature("park", "", vec![vec![(3, 3)]], GeomType::LineString, None);
    assert!(render_tile_features(&[single]).is_empty());
}

#[test]
fn segments_follow_feature_and_ring_order() {
    let a = make_feature("park", "", vec![vec![(0, 0), (1, 1)], vec![(5, 5), (6, 6)]], GeomType::Polygon, None);
    let b = make_feature("building", "", vec![vec![(9, 9), (8, 8)]], GeomType::LineString, None);
    let segments = render_tile_features(&[a, b]);
    assert_eq!(segments.len(), 3);
    assert_eq!(segments[0].color, MapColor::Green);
    assert_eq!(segments[1].from, (5, 5));
    assert_eq!(segments[2].color, MapColor::Rgb(60, 60, 60));
}

#[test]
fn road_colors() {
    let props = |class: &str| {
        let mut p = TextMap::new();
        p.insert("class".to_string(), class.to_string());
        p
    };
    assert_eq!(segment_color("transportation", &props("motorway")), Some(MapColor::Rgb(170, 110, 60)));
    assert_eq!(segment_color("transportation", &props("trunk")), Some(MapColor::Rgb(170, 110, 60)));
    assert_eq!(segment_color("transportation", &props("primary")), Some(MapColor::Rgb(140, 120, 80)));
    assert_eq!(segment_color("transportation", &props("secondary")), Some(MapColor::Rgb(110, 100, 80)));
    assert_eq!(segment_color("transportation", &props("tertiary")), Some(MapColor::Rgb(80, 80, 80)));
    assert_eq!(segment_color("transportation", &TextMap::new()), Some(MapColor::Rgb(80, 80, 80)));
    assert_eq!(segment_color("water", &props("motorway")), Some(MapColor::Blue));
}

#[test]
fn layer_colors() {
    assert_eq!(layer_color("waterway"), Some(MapColor::Blue));
    assert_eq!(layer_color("landcover"), Some(MapColor::DarkGray));
    assert_eq!(layer_color("transportation"), Some(MapColor::Rgb(80, 80, 80)));
    assert_eq!(layer_color("boundary"), Some(MapColor::Rgb(100, 100, 100)));
    assert_eq!(layer_color("place"), None);
}

#[test]
fn place_labels_are_anchored_and_colored() {
    let features = vec![make_feature("place", "city", vec![vec![(235, 4886)]], GeomType::Point, Some("Paris"))];
    let labels = render_tile_labels(&features);
    assert_eq!(labels.len(), 1);
    assert_eq!(labels[0].at, (235, 4886));
    assert_eq!(labels[0].color, MapColor::Rgb(200, 200, 200));
}

#[test]
fn labels_need_name_color_and_point() {
    let empty_name = make_feature("place", "city", vec![vec![(1, 1)]], GeomType::Point, Some(""));
    let unlabelled_layer = make_feature("water", "", vec![vec![(1, 1)]], GeomType::Point, Some("Lake"));
    let no_point = make_feature("poi", "", vec![vec![]], GeomType::Point, Some("Cafe"));
    assert!(render_tile_labels(&[empty_name, unlabelled_layer, no_point]).is_empty());
}

#[test]
fn label_zooms_by_layer_and_class() {
    let props = |class: &str| {
        let mut p = TextMap::new();
        if !class.is_empty() {
            p.insert("class".to_string(), class.to_string());
        }
        p
    };
    assert_eq!(label_zoom("place", &props("country")), 2);
    assert_eq!(label_zoom("place", &props("state")), 4);
    assert_eq!(label_zoom("place", &props("city")), 6);
    assert_eq!(label_zoom("place", &props("town")), 8);
    assert_eq!(label_zoom("place", &props("village")), 10);
    assert_eq!(label_zoom("place", &props("")), 10);
    assert_eq!(label_zoom("water_name", &props("")), 8);
    assert_eq!(label_zoom("mountain_peak", &props("")), 10);
    assert_eq!(label_zoom("transportation_name", &props("")), 12);
    assert_eq!(label_zoom("poi", &props("")), 14);
}

#[test]
fn labels_are_filtered_by_zoom() {
    let labels = vec![
        TileLabel { at: (0, 0), text: "France".to_string(), color: MapColor::White, min_zoom: 2 },
        TileLabel { at: (1, 1), text: "Paris".to_string(), color: MapColor::White, min_zoom: 6 },
        TileLabel { at: (2, 2), text: "Cafe".to_string(), color: MapColor::White, min_zoom: 14 },
    ];
    let names = |z: u32| visible_labels(&labels, z).into_iter().map(|l| l.text).collect::<Vec<_>>();
    assert_eq!(names(1), Vec::<String>::new());
    assert_eq!(names(6), vec!["France", "Paris"]);
    assert_eq!(names(14), vec!["France", "Paris", "Cafe"]);
}

#[test]
fn label_colors_by_layer_and_class() {
    let props = |class: &str| {
        let mut p = TextMap::new();
        if !class.is_empty() {
            p.insert("class".to_string(), class.to_string());
        }
        p
    };
    assert_eq!(label_color("place", &props("country")), Some(MapColor::White));
    assert_eq!(label_color("place", &props("state")), Some(MapColor::Rgb(180, 180, 180)));
    assert_eq!(label_color("place", &props("town")), Some(MapColor::Rgb(150, 150, 150)));
    assert_eq!(label_color("place", &props("hamlet")), Some(MapColor::Rgb(120, 120, 120)));
    assert_eq!(label_color("place", &props("")), Some(MapColor::Rgb(100, 100, 100)));
    assert_eq!(label_color("water_name", &props("")), Some(MapColor::Rgb(80, 80, 180)));
    assert_eq!(label_color("mountain_peak", &props("")), Some(MapColor::Rgb(160, 140, 100)));
    assert_eq!(label_color("transportation_name", &props("")), Some(MapColor::Rgb(90, 90, 90)));
    assert_eq!(label_color("poi", &props("")), Some(MapColor::Rgb(100, 100, 100)));
    assert_eq!(label_color("water", &props("")), None);
}

#[test]
fn test_dedup_removes_same_text() {
    let mut labels = vec![
        TileLabel { at: (0.0, 0.0), text: "Paris".to_string(), color: MapColor::White, min_zoom: 0 },
        TileLabel { at: (0.1, 0.1), text: "Paris".to_string(), color: MapColor::White, min_zoom: 0 },
        TileLabel { at: (5.0, 5.0), text: "London".to_string(), color: MapColor::White, min_zoom: 0 },
    ];
    dedup_labels(&mut labels);
    assert_eq!(labels.len(), 2);
    let names: Vec<&str> = labels.iter().map(|l| l.text.as_str()).collect();
    assert!(names.contains(&"Paris"));
    assert!(names.contains(&"London"));
}

#[test]
fn test_dedup_keeps_different_texts() {
    let mut labels = vec![
        TileLabel { at: (0.0, 0.0), text: "A".to_string(), color: MapColor::White, min_zoom: 0 },
        TileLabel { at: (0.0, 0.0), text: "B".to_string(), color: MapColor::White, min_zoom: 0 },
        TileLabel { at: (0.0, 0.0), text: "C".to_string(), color: MapColor::White, min_zoom: 0 },
    ];
    dedup_labels(&mut labels);
    assert_eq!(labels.len(), 3);
}

#[test]
fn dedup_keeps_the_first_of_each_text_in_order() {
    let mut labels = vec![
        TileLabel { at: (1, 1), text: "B".to_string(), color: MapColor::White, min_zoom: 0 },
        TileLabel { at: (2, 2), text: "A".to_string(), color: MapColor::Blue, min_zoom: 0 },
        TileLabel { at: (3, 3), text: "B".to_string(), color: MapColor::Green, min_zoom: 0 },
        TileLabel { at: (4, 4), text: "A".to_string(), color: MapColor::Green, min_zoom: 0 },
    ];
    dedup_labels(&mut labels);
    let kept: Vec<((i32, i32), &str)> = labels.iter().map(|l| (l.at, l.text.as_str())).collect();
    assert_eq!(kept, vec![((1, 1), "B"), ((2, 2), "A")]);
    let mut none: Vec<TileLabel<(i32, i32)>> = Vec::new();
    dedup_labels(&mut none);
    assert!(none.is_empty());
}

#[test]
fn render_tile_draws_each_feature_in_order() {
    let mut water = make_feature("water", "", vec![vec![(0, 0), (5, 0), (5, 5)]], GeomType::Polygon, None);
    water.extent = 512;
    let town = make_feature("place", "town", vec![vec![(7, 8)]], GeomType::Point, Some("Ely"));
    let unknown = make_feature("unknown_layer", "", vec![vec![(0, 0), (1, 1)]], GeomType::LineString, None);
    let drawn = render_tile(vec![water, town, unknown]);
    assert_eq!(drawn.len(), 3);
    assert_eq!(drawn[0].extent, 512);
    assert_eq!(drawn[0].drawn.segments.len(), 2);
    assert_eq!(drawn[0].drawn.segments[0].from, (0, 0));
    assert_eq!(drawn[0].drawn.segments[1].to, (5, 5));
    assert!(drawn[0].drawn.labels.is_empty());
    assert_eq!(drawn[1].extent, 4096);
    assert!(drawn[1].drawn.segments.is_empty());
    assert_eq!(drawn[1].drawn.labels.len(), 1);
    assert_eq!(drawn[1].drawn.labels[0].text, "Ely");
    assert_eq!(drawn[1].drawn.labels[0].at, (7, 8));
    assert!(drawn[2].drawn.segments.is_empty() && drawn[2].drawn.labels.is_empty());
}
