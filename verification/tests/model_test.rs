use kmlcli::model::{count_all_features, count_features, Coord, Feature, Geometry, KmlDocument, Style};
use kmlcli::text_map::TextMap;

fn make_doc() -> KmlDocument<f64> {
    KmlDocument {
        name: Some("Test".to_string()),
        features: vec![
            Feature::Folder {
                name: "Folder 1".to_string(),
                features: vec![Feature::Placemark {
                    name: "Point A".to_string(),
                    geometry: Some(Geometry::Point(Coord {
                        lon: -1.6778,
                        lat: 48.1173,
                        alt: None,
                    })),
                    style_id: None,
                    description: None,
                }],
            },
            Feature::Placemark {
                name: "Line B".to_string(),
                geometry: Some(Geometry::LineString(vec![
                    Coord {
                        lon: -1.6778,
                        lat: 48.1173,
                        alt: None,
                    },
                    Coord {
                        lon: -1.6800,
                        lat: 48.1200,
                        alt: None,
                    },
                ])),
                style_id: None,
                description: None,
            },
        ],
        styles: TextMap::new(),
        style_maps: TextMap::new(),
    }
}

#[test]
fn test_all_coords_returns_all_points() {
    let doc = make_doc();
    let coords = doc.all_coords();
    assert_eq!(coords.len(), 3);
}

#[test]
fn test_flatten_returns_all_features_with_paths() {
    let doc = make_doc();
    let flat = doc.flatten();
    assert_eq!(flat.len(), 3);
    assert_eq!(flat[0].0, vec![0]);
    assert_eq!(flat[1].0, vec![0, 0]);
    assert_eq!(flat[2].0, vec![1]);
}

#[test]
fn all_coords_in_document_order() {
    let doc = make_doc();
    let coords = doc.all_coords();
    assert_eq!(coords[0].lon, -1.6778);
    assert_eq!(coords[2].lat, 48.1200);
}

#[test]
fn all_coords_of_polygon_and_multigeometry() {
    let c = |lon: i32, lat: i32| Coord { lon, lat, alt: None };
    let doc = KmlDocument {
        name: None,
        features: vec![Feature::Placemark {
            name: "M".to_string(),
            geometry: Some(Geometry::MultiGeometry(vec![
                Geometry::Polygon(vec![vec![c(0, 0), c(1, 0), c(0, 0)], vec![c(5, 5)]]),
                Geometry::Point(c(9, 9)),
            ])),
            style_id: None,
            description: None,
        }],
        styles: TextMap::new(),
        style_maps: TextMap::new(),
    };
    let lons: Vec<i32> = doc.all_coords().iter().map(|c| c.lon).collect();
    assert_eq!(lons, vec![0, 1, 0, 5, 9]);
}

#[test]
fn counts_add_up() {
    let doc = make_doc();
    let (placemarks, folders) = count_features(&doc.features);
    assert_eq!(placemarks, 2);
    assert_eq!(folders, 1);
    assert_eq!(count_all_features(&doc.features), placemarks + folders);
}

#[test]
fn get_feature_follows_paths() {
    let doc = make_doc();
    match doc.get_feature(&[0, 0]) {
        Some(Feature::Placemark { name, .. }) => assert_eq!(name, "Point A"),
        _ => panic!("expected a placemark"),
    }
    match doc.get_feature(&[1]) {
        Some(Feature::Placemark { name, .. }) => assert_eq!(name, "Line B"),
        _ => panic!("expected a placemark"),
    }
    assert!(doc.get_feature(&[]).is_none());
    assert!(doc.get_feature(&[2]).is_none());
    // The walk stops at a placemark: later indices are ignored.
    match doc.get_feature(&[1, 0]) {
        Some(Feature::Placemark { name, .. }) => assert_eq!(name, "Line B"),
        _ => panic!("expected the placemark at the first index"),
    }
    assert!(doc.get_feature(&[0, 5]).is_none());
}

#[test]
fn every_flattened_path_resolves() {
    let doc = make_doc();
    for (path, feature) in doc.flatten() {
        let found = doc.get_feature(&path).expect("path resolves");
        assert!(std::ptr::eq(found, feature));
    }
}

fn style(id: &str, color: &str) -> Style<f64> {
    Style {
        id: id.to_string(),
        line_color: Some(color.to_string()),
        line_width: Some(2.0),
        poly_color: None,
        icon_href: None,
    }
}

#[test]
fn resolve_style_direct_and_through_style_map() {
    let mut doc = make_doc();
    doc.styles.insert("red".to_string(), style("red", "ff0000ff"));
    doc.style_maps.insert("pair".to_string(), "red".to_string());
    doc.style_maps.insert("dangling".to_string(), "nowhere".to_string());
    assert_eq!(doc.resolve_style("red").and_then(|s| s.line_color.as_deref()), Some("ff0000ff"));
    assert_eq!(doc.resolve_style("pair").map(|s| s.id.as_str()), Some("red"));
    assert!(doc.resolve_style("dangling").is_none());
    assert!(doc.resolve_style("missing").is_none());
}

#[test]
fn resolve_style_prefers_direct_style() {
    let mut doc = make_doc();
    doc.styles.insert("both".to_string(), style("both", "direct"));
    doc.styles.insert("other".to_string(), style("other", "mapped"));
    doc.style_maps.insert("both".to_string(), "other".to_string());
    assert_eq!(doc.resolve_style("both").and_then(|s| s.line_color.as_deref()), Some("direct"));
}

#[test]
fn text_map_insert_replaces() {
    let mut m: TextMap<u32> = TextMap::new();
    assert_eq!(m.len(), 0);
    m.insert("a".to_string(), 1);
    m.insert("b".to_string(), 2);
    m.insert("a".to_string(), 3);
    assert_eq!(m.len(), 2);
    assert_eq!(m.get("a"), Some(&3));
    assert_eq!(m.get("b"), Some(&2));
    assert!(m.get("c").is_none());
    assert!(m.contains_key("b"));
    assert!(!m.contains_key("c"));
}

#[test]
fn checked_feature_count_counts_everything() {
    let doc = make_doc();
    assert_eq!(kmlcli::model::checked_feature_count(&doc.features), Some(3));
    let empty: Vec<Feature<f64>> = Vec::new();
    assert_eq!(kmlcli::model::checked_feature_count(&empty), Some(0));
}
