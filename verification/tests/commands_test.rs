use kmlcli::commands::info::info_summary;
use kmlcli::commands::list::{collect_entries, geometry_type, Entry};
use kmlcli::commands::tree::{geometry_icon, tree_lines};
use kmlcli::model::{Coord, Feature, Geometry, KmlDocument, Style};
use kmlcli::text_map::TextMap;

fn pt() -> Geometry<f64> {
    Geometry::Point(Coord { lon: 1.0, lat: 2.0, alt: None })
}

fn pm(name: &str, geometry: Option<Geometry<f64>>) -> Feature<f64> {
    Feature::Placemark { name: name.to_string(), geometry, style_id: None, description: None }
}

fn doc() -> KmlDocument<f64> {
    let mut styles = TextMap::new();
    styles.insert(
        "s".to_string(),
        Style { id: "s".to_string(), line_color: None, line_width: None, poly_color: None, icon_href: None },
    );
    KmlDocument {
        name: Some("Multi Test".to_string()),
        features: vec![
            Feature::Folder {
                name: "Routes".to_string(),
                features: vec![
                    pm("Road", Some(Geometry::LineString(vec![]))),
                    Feature::Folder { name: "Zones".to_string(), features: vec![pm("Zone A", Some(Geometry::Polygon(vec![])))] },
                ],
            },
            pm("Spot", Some(pt())),
            pm("Nowhere", None),
        ],
        styles,
        style_maps: TextMap::new(),
    }
}

#[test]
fn info_counts() {
    let info = info_summary(&doc());
    assert_eq!(info.name.as_deref(), Some("Multi Test"));
    assert_eq!(info.placemark_count, 4);
    assert_eq!(info.folder_count, 2);
    assert_eq!(info.feature_count, 6);
    assert_eq!(info.style_count, 1);
}

#[test]
fn list_entries_with_paths() {
    let d = doc();
    let mut entries: Vec<Entry> = Vec::new();
    collect_entries(&d.features, "", &mut entries);
    let rows: Vec<(&str, &str, Option<&str>, &str)> =
        entries.iter().map(|e| (e.name.as_str(), e.kind, e.geometry, e.path.as_str())).collect();
    assert_eq!(
        rows,
        vec![
            ("Routes", "folder", None, "Routes"),
            ("Road", "placemark", Some("linestring"), "Routes/Road"),
            ("Zones", "folder", None, "Routes/Zones"),
            ("Zone A", "placemark", Some("polygon"), "Routes/Zones/Zone A"),
            ("Spot", "placemark", Some("point"), "Spot"),
            ("Nowhere", "placemark", None, "Nowhere"),
        ]
    );
}

#[test]
fn list_entries_under_a_prefix() {
    let mut entries = Vec::new();
    collect_entries(&[pm("A", Some(Geometry::MultiGeometry(vec![])))], "Top", &mut entries);
    assert_eq!(entries.len(), 1);
    assert_eq!(entries[0].path, "Top/A");
    assert_eq!(entries[0].geometry, Some("multi"));
    assert_eq!(geometry_type(&pt()), "point");
}

#[test]
fn tree_output() {
    let lines = tree_lines(&doc());
    assert_eq!(
        lines,
        vec![
            "📄 Multi Test",
            "├── 📁 Routes",
            "│   ├── ─ Road",
            "│   └── 📁 Zones",
            "│       └── ◻ Zone A",
            "├── ● Spot",
            "└── · Nowhere",
        ]
    );
    assert!(lines.iter().any(|l| l.contains("Routes")));
    assert!(lines.iter().any(|l| l.contains("Zone A")));
}

#[test]
fn tree_of_unnamed_empty_document() {
    let d: KmlDocument<f64> = KmlDocument { name: None, features: vec![], styles: TextMap::new(), style_maps: TextMap::new() };
    assert_eq!(tree_lines(&d), vec!["📄 (unnamed)"]);
    assert_eq!(geometry_icon(&Geometry::<f64>::MultiGeometry(vec![])), "◈");
}

#[test]
fn every_view_counts_the_same_features() {
    let d = doc();
    let info = info_summary(&d);
    let mut entries = Vec::new();
    collect_entries(&d.features, "", &mut entries);
    let lines = tree_lines(&d);
    assert_eq!(entries.len(), info.feature_count);
    assert_eq!(lines.len(), info.feature_count + 1);
    assert_eq!(d.flatten().len(), info.feature_count);
}
