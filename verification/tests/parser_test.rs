use kmlcli::model::{Feature, Geometry};
use kmlcli::parser::{
    convert_document, trim_hashes, KmlCoord, KmlElement, KmlFolder, KmlGeometry, KmlIconStyle, KmlLineStyle, KmlNode,
    KmlPair, KmlPlacemark, KmlPolyStyle, KmlStyle, KmlStyleMap,
};

fn c(x: f64, y: f64) -> KmlCoord<f64> {
    KmlCoord { x, y, z: None }
}

fn placemark(name: Option<&str>, geometry: Option<KmlGeometry<f64>>, style_url: Option<&str>) -> KmlNode<f64> {
    KmlNode::Placemark(KmlPlacemark {
        name: name.map(|s| s.to_string()),
        description: Some("desc".to_string()),
        geometry,
        style_url: style_url.map(|s| s.to_string()),
    })
}

fn element(name: &str, content: &str) -> KmlNode<f64> {
    KmlNode::Element(KmlElement { name: name.to_string(), content: Some(content.to_string()) })
}

fn red_line() -> KmlNode<f64> {
    KmlNode::Style(KmlStyle {
        id: Some("redLine".to_string()),
        line: Some(KmlLineStyle { color: "ff0000ff".to_string(), width: 3.0 }),
        poly: Some(KmlPolyStyle { color: "7f00ff00".to_string() }),
        icon: Some(KmlIconStyle { href: String::new() }),
    })
}

fn multi_test() -> KmlNode<f64> {
    KmlNode::KmlDocument {
        elements: vec![KmlNode::Document {
            elements: vec![
                placemark(Some("Loose"), Some(KmlGeometry::Point(c(2.0, 48.0))), Some("#redLine")),
                element("name", "Multi Test"),
                red_line(),
                KmlNode::StyleMap(KmlStyleMap {
                    id: Some("pairMap".to_string()),
                    pairs: vec![
                        KmlPair { key: "highlight".to_string(), style_url: "#other".to_string() },
                        KmlPair { key: "normal".to_string(), style_url: "#redLine".to_string() },
                    ],
                }),
                KmlNode::Folder(KmlFolder {
                    name: Some("Routes".to_string()),
                    elements: vec![
                        placemark(
                            Some("Zone A"),
                            Some(KmlGeometry::Polygon {
                                outer: vec![c(0.0, 0.0), c(1.0, 0.0), c(0.0, 0.0)],
                                inner: vec![vec![c(0.2, 0.2)]],
                            }),
                            Some("##pairMap"),
                        ),
                        KmlNode::Other,
                        placemark(None, Some(KmlGeometry::LinearRing(vec![c(5.0, 5.0), c(6.0, 6.0)])), None),
                    ],
                }),
                KmlNode::Other,
            ],
        }],
    }
}

#[test]
fn document_name_and_features() {
    let doc = convert_document(&multi_test());
    assert_eq!(doc.name.as_deref(), Some("Multi Test"));
    assert_eq!(doc.features.len(), 2);
    match &doc.features[0] {
        Feature::Placemark { name, style_id, description, geometry } => {
            assert_eq!(name, "Loose");
            assert_eq!(style_id.as_deref(), Some("redLine"));
            assert_eq!(description.as_deref(), Some("desc"));
            assert!(matches!(geometry, Some(Geometry::Point(p)) if p.lon == 2.0 && p.lat == 48.0));
        }
        _ => panic!("expected a placemark"),
    }
    match &doc.features[1] {
        Feature::Folder { name, features } => {
            assert_eq!(name, "Routes");
            assert_eq!(features.len(), 2);
            match &features[0] {
                Feature::Placemark { geometry: Some(Geometry::Polygon(rings)), style_id, .. } => {
                    assert_eq!(rings.len(), 2);
                    assert_eq!(rings[0].len(), 3);
                    assert_eq!(style_id.as_deref(), Some("pairMap"));
                }
                _ => panic!("expected a polygon placemark"),
            }
            match &features[1] {
                Feature::Placemark { name, geometry: Some(Geometry::LineString(cs)), style_id, .. } => {
                    assert_eq!(name, "");
                    assert_eq!(cs.len(), 2);
                    assert!(style_id.is_none());
                }
                _ => panic!("expected a line placemark"),
            }
        }
        _ => panic!("expected a folder"),
    }
}

#[test]
fn styles_and_style_maps() {
    let doc = convert_document(&multi_test());
    assert!(doc.styles.contains_key("redLine"));
    let style = doc.styles.get("redLine").unwrap();
    assert_eq!(style.line_color.as_deref(), Some("ff0000ff"));
    assert_eq!(style.line_width, Some(3.0));
    assert_eq!(style.poly_color.as_deref(), Some("7f00ff00"));
    assert!(style.icon_href.is_none());
    assert_eq!(doc.style_maps.get("pairMap").map(|s| s.as_str()), Some("redLine"));
    assert_eq!(doc.resolve_style("pairMap").map(|s| s.id.as_str()), Some("redLine"));
}

#[test]
fn empty_document() {
    let doc = convert_document(&KmlNode::<f64>::Document { elements: vec![element("name", "Empty")] });
    assert_eq!(doc.name.as_deref(), Some("Empty"));
    assert!(doc.features.is_empty());
    assert_eq!(doc.styles.len(), 0);
}

#[test]
fn other_geometry_becomes_empty_collection() {
    let doc = convert_document(&placemark(Some("M"), Some(KmlGeometry::Other), None));
    match &doc.features[0] {
        Feature::Placemark { geometry: Some(Geometry::MultiGeometry(gs)), .. } => assert!(gs.is_empty()),
        _ => panic!("expected an empty multi geometry"),
    }
}

#[test]
fn trim_hashes_strips_leading_hashes() {
    assert_eq!(trim_hashes("#abc"), "abc");
    assert_eq!(trim_hashes("##a#b"), "a#b");
    assert_eq!(trim_hashes("plain"), "plain");
    assert_eq!(trim_hashes("###"), "");
}
