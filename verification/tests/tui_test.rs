use kmlcli::model::{Coord, Feature, Geometry, KmlDocument};
use kmlcli::text_map::TextMap;
use kmlcli::tiles::render::MapColor;
use kmlcli::tui::app::{build_tree_items, first_coord, tree_panel_layout, visible_indices, AppState, MapRequest};
use kmlcli::tui::details::{description_preview, details_lines, geom_info, DetailLine, Tone};
use kmlcli::tui::input::{handle_key, handle_mouse, Action, Focus, KeyCode, KeyEvent, KeyModifiers, MouseEvent, MouseEventKind};
use kmlcli::tui::map::{collect_labels, collect_segments, label_coord, paths_equal, DrawCmd, LabelAnchor};
use kmlcli::tui::tree::{kind_to_icon, render_row, TreeView, TreeViewItem};

const NONE: KeyModifiers = KeyModifiers { control: false, shift: false };
const CTRL: KeyModifiers = KeyModifiers { control: true, shift: false };
const SHIFT: KeyModifiers = KeyModifiers { control: false, shift: true };

fn key(code: KeyCode, modifiers: KeyModifiers) -> Action {
    handle_key(KeyEvent { code, modifiers })
}

fn wheel(kind: MouseEventKind, modifiers: KeyModifiers) -> Action {
    handle_mouse(MouseEvent { kind, modifiers })
}

#[test]
fn key_map() {
    assert_eq!(key(KeyCode::Char('q'), NONE), Action::Quit);
    assert_eq!(key(KeyCode::Char('c'), CTRL), Action::Quit);
    assert_eq!(key(KeyCode::Char('c'), NONE), Action::NoOp);
    assert_eq!(key(KeyCode::Char('h'), NONE), Action::PanLeft);
    assert_eq!(key(KeyCode::Char('j'), NONE), Action::PanDown);
    assert_eq!(key(KeyCode::Char('k'), NONE), Action::PanUp);
    assert_eq!(key(KeyCode::Char('l'), NONE), Action::PanRight);
    assert_eq!(key(KeyCode::Left, NONE), Action::PanLeft);
    assert_eq!(key(KeyCode::Right, NONE), Action::PanRight);
    assert_eq!(key(KeyCode::Up, NONE), Action::MoveUp);
    assert_eq!(key(KeyCode::Down, NONE), Action::MoveDown);
    assert_eq!(key(KeyCode::Enter, NONE), Action::ToggleExpand);
    assert_eq!(key(KeyCode::Char('+'), NONE), Action::ZoomIn);
    assert_eq!(key(KeyCode::Char('='), NONE), Action::ZoomIn);
    assert_eq!(key(KeyCode::Char('-'), NONE), Action::ZoomOut);
    assert_eq!(key(KeyCode::Char('t'), NONE), Action::ToggleTree);
    assert_eq!(key(KeyCode::Tab, NONE), Action::ToggleTree);
    assert_eq!(key(KeyCode::Other, NONE), Action::NoOp);
    assert_ne!(Focus::Tree, Focus::MapView);
}

#[test]
fn mouse_map() {
    assert_eq!(wheel(MouseEventKind::ScrollUp, NONE), Action::PanUp);
    assert_eq!(wheel(MouseEventKind::ScrollDown, NONE), Action::PanDown);
    assert_eq!(wheel(MouseEventKind::ScrollUp, SHIFT), Action::PanLeft);
    assert_eq!(wheel(MouseEventKind::ScrollDown, SHIFT), Action::PanRight);
    assert_eq!(wheel(MouseEventKind::ScrollUp, CTRL), Action::ZoomIn);
    assert_eq!(wheel(MouseEventKind::ScrollDown, CTRL), Action::ZoomOut);
    assert_eq!(wheel(MouseEventKind::ScrollDown, KeyModifiers { control: true, shift: true }), Action::PanRight);
    assert_eq!(wheel(MouseEventKind::ScrollUp, KeyModifiers { control: true, shift: true }), Action::PanLeft);
    assert_eq!(wheel(MouseEventKind::ScrollLeft, NONE), Action::PanLeft);
    assert_eq!(wheel(MouseEventKind::ScrollRight, NONE), Action::PanRight);
    assert_eq!(wheel(MouseEventKind::Other, NONE), Action::NoOp);
}

fn c(lon: i32, lat: i32) -> Coord<i32> {
    Coord { lon, lat, alt: None }
}

fn pm(name: &str, geometry: Option<Geometry<i32>>) -> Feature<i32> {
    Feature::Placemark { name: name.to_string(), geometry, style_id: None, description: None }
}

fn doc() -> KmlDocument<i32> {
    KmlDocument {
        name: Some("D".to_string()),
        features: vec![
            Feature::Folder {
                name: "F".to_string(),
                features: vec![
                    pm("P", Some(Geometry::Point(c(1, 2)))),
                    Feature::Folder { name: "G".to_string(), features: vec![pm("L", Some(Geometry::LineString(vec![c(0, 0), c(1, 1), c(2, 2)])))] },
                ],
            },
            pm("Q", Some(Geometry::Polygon(vec![vec![c(5, 5), c(6, 5), c(5, 5)]]))),
            Feature::Folder { name: "Empty".to_string(), features: vec![] },
        ],
        styles: TextMap::new(),
        style_maps: TextMap::new(),
    }
}

#[test]
fn tree_items_in_preorder() {
    let d = doc();
    let items = build_tree_items(&d.features, 0, &[]);
    let rows: Vec<(usize, &str, &str, bool, bool, Vec<usize>)> = items
        .iter()
        .map(|i| (i.depth, i.name.as_str(), i.kind.as_str(), i.expanded, i.has_children, i.feature_path.clone()))
        .collect();
    assert_eq!(
        rows,
        vec![
            (0, "F", "folder", true, true, vec![0]),
            (1, "P", "point", false, false, vec![0, 0]),
            (1, "G", "folder", false, true, vec![0, 1]),
            (2, "L", "line", false, false, vec![0, 1, 0]),
            (0, "Q", "polygon", true, false, vec![1]),
            (0, "Empty", "folder", true, false, vec![2]),
        ]
    );
    // G is collapsed, so L is hidden.
    assert_eq!(visible_indices(&items), vec![0, 1, 2, 4, 5]);
}

#[test]
fn navigation_moves_over_visible_rows() {
    let d = doc();
    let mut st = AppState::new(build_tree_items(&d.features, 0, &[]));
    st.tree_visible_rows = 2;
    assert_eq!(st.handle_action(Action::MoveDown), MapRequest::Nothing);
    assert_eq!((st.selected, st.tree_scroll), (1, 0));
    st.handle_action(Action::MoveDown);
    assert_eq!((st.selected, st.tree_scroll), (2, 1));
    st.handle_action(Action::MoveDown);
    assert_eq!((st.selected, st.tree_scroll), (4, 2));
    st.handle_action(Action::MoveUp);
    assert_eq!((st.selected, st.tree_scroll), (2, 2));
    st.handle_action(Action::MoveUp);
    st.handle_action(Action::MoveUp);
    assert_eq!((st.selected, st.tree_scroll), (0, 0));
    st.handle_action(Action::MoveUp);
    assert_eq!((st.selected, st.tree_scroll), (0, 0));
}

#[test]
fn toggle_expand_and_center() {
    let d = doc();
    let mut st = AppState::new(build_tree_items(&d.features, 0, &[]));
    assert_eq!(st.handle_action(Action::ToggleExpand), MapRequest::Nothing);
    assert!(!st.tree_items[0].expanded);
    assert_eq!(st.visible_indices(), vec![0, 4, 5]);
    st.handle_action(Action::ToggleExpand);
    assert!(st.tree_items[0].expanded);
    st.selected = 1;
    assert_eq!(st.handle_action(Action::ToggleExpand), MapRequest::CenterOnSelection);
    assert_eq!(st.first_coord_of_selected(&d).map(|c| (c.lon, c.lat)), Some((1, 2)));
    st.selected = 4;
    assert_eq!(st.first_coord_of_selected(&d).map(|c| (c.lon, c.lat)), Some((5, 5)));
    st.selected = 2;
    assert!(st.first_coord_of_selected(&d).is_none());
}

#[test]
fn flags_and_map_requests() {
    let mut st = AppState::new(Vec::new());
    assert!(st.show_tree);
    assert_eq!(st.handle_action(Action::ToggleTree), MapRequest::Nothing);
    assert!(!st.show_tree);
    assert_eq!(st.handle_action(Action::ZoomIn), MapRequest::ZoomIn);
    assert_eq!(st.handle_action(Action::PanDown), MapRequest::PanDown);
    assert_eq!(st.handle_action(Action::MoveDown), MapRequest::Nothing);
    assert_eq!(st.handle_action(Action::NoOp), MapRequest::Nothing);
    assert!(!st.should_quit);
    st.handle_action(Action::Quit);
    assert!(st.should_quit);
}

#[test]
fn first_coords_of_geometries() {
    assert_eq!(first_coord(&Geometry::LineString(vec![c(3, 4), c(5, 6)])).map(|p| p.lon), Some(3));
    assert!(first_coord(&Geometry::<i32>::LineString(vec![])).is_none());
    assert!(first_coord(&Geometry::<i32>::Polygon(vec![vec![]])).is_none());
    assert_eq!(first_coord(&Geometry::MultiGeometry(vec![Geometry::Point(c(7, 8))])).map(|p| p.lat), Some(8));
}

#[test]
fn panel_layout() {
    assert!(tree_panel_layout(39, 30, 5).is_none());
    assert!(tree_panel_layout(80, 9, 5).is_none());
    let l = tree_panel_layout(90, 30, 5).unwrap();
    assert_eq!((l.x, l.y, l.width, l.height, l.visible_rows), (1, 1, 30, 7, 5));
    let tall = tree_panel_layout(200, 20, 500).unwrap();
    assert_eq!((tall.width, tall.height, tall.visible_rows), (50, 16, 14));
    let small = tree_panel_layout(60, 12, 0).unwrap();
    assert_eq!((small.width, small.height, small.visible_rows), (25, 4, 2));
}

#[test]
fn tree_view_rows() {
    assert_eq!(kind_to_icon("folder"), "📁");
    assert_eq!(kind_to_icon("line"), "─");
    assert_eq!(kind_to_icon("placemark"), "·");
    let items = vec![
        TreeViewItem { depth: 0, name: "Folder".to_string(), icon: "📁", expanded: true, has_children: true },
        TreeViewItem { depth: 1, name: "Point".to_string(), icon: "●", expanded: false, has_children: false },
        TreeViewItem { depth: 1, name: "Sub".to_string(), icon: "📁", expanded: false, has_children: true },
    ];
    assert_eq!(render_row(&items[0], 40), "▼ 📁 Folder");
    assert_eq!(render_row(&items[1], 40), "    ● Point");
    assert_eq!(render_row(&items[2], 40), "  ▶ 📁 Sub");
    assert_eq!(render_row(&items[1], 5), "    ●");
    let view = TreeView::new(&items, 2, 1);
    let lines = view.lines(40, 5);
    assert_eq!(lines, vec![("    ● Point".to_string(), false), ("  ▶ 📁 Sub".to_string(), true)]);
    assert_eq!(view.lines(40, 1).len(), 1);
    assert!(TreeView::new(&items, 0, 3).lines(40, 5).is_empty());
}

#[test]
fn details_of_selection() {
    let none = details_lines::<i32>(None);
    assert!(matches!(&none[..], [DetailLine::Plain { text, tone: Tone::DarkGray }] if text == "No selection"));

    let d = doc();
    let folder = details_lines(Some(&d.features[0]));
    assert!(matches!(&folder[0], DetailLine::Title { icon: "📁 ", icon_tone: Tone::Default, name } if name == "F"));
    assert!(matches!(&folder[1], DetailLine::Plain { text, tone: Tone::Gray } if text == "2 item(s)"));

    let point = details_lines(Some(&d.features[0]));
    assert_eq!(point.len(), 2);

    let full = Feature::Placemark {
        name: "Zone".to_string(),
        geometry: Some(Geometry::Polygon(vec![vec![c(0, 0), c(1, 0), c(0, 0)], vec![c(3, 3)]])),
        style_id: Some("red".to_string()),
        description: Some("short".to_string()),
    };
    let lines = details_lines(Some(&full));
    assert_eq!(lines.len(), 4);
    assert!(matches!(&lines[0], DetailLine::Title { icon: "◻ ", icon_tone: Tone::Yellow, name } if name == "Zone"));
    assert!(matches!(&lines[1], DetailLine::Plain { text, tone: Tone::Gray } if text == "Polygon — 2 ring(s), 4 points"));
    assert!(matches!(&lines[2], DetailLine::Plain { text, tone: Tone::DarkGray } if text == "short"));
    assert!(matches!(&lines[3], DetailLine::Plain { text, tone: Tone::DarkGray } if text == "style: red"));

    let spot = pm("Spot", Some(Geometry::Point(c(9, 9))));
    let lines = details_lines(Some(&spot));
    assert!(matches!(&lines[1], DetailLine::PointInfo { at } if at.lon == 9));
}

#[test]
fn geometry_summaries() {
    assert_eq!(geom_info(&Geometry::LineString(vec![c(0, 0), c(1, 1)])), "LineString — 2 points");
    assert_eq!(geom_info(&Geometry::<i32>::MultiGeometry(vec![])), "MultiGeometry — 0 geometries");
}

#[test]
fn description_previews() {
    assert_eq!(description_preview("hello"), "hello");
    let long: String = "x".repeat(61);
    assert_eq!(description_preview(&long), format!("{}…", "x".repeat(60)));
    let exact: String = "y".repeat(60);
    assert_eq!(description_preview(&exact), exact);
    // Thirty two-byte characters: more than sixty bytes is not reached.
    let accented: String = "é".repeat(30);
    assert_eq!(description_preview(&accented), accented);
    let accented_long: String = "é".repeat(31);
    assert_eq!(description_preview(&accented_long), format!("{}…", accented_long));
}

#[test]
fn map_segments_and_selection() {
    let d = doc();
    let cmds = collect_segments(&d, Some(&[0usize, 1, 0][..]));
    // P: one point; L: two lines (selected); Q: two lines.
    assert_eq!(cmds.len(), 5);
    assert!(matches!(cmds[0], DrawCmd::Point { at, color: MapColor::White } if at.lon == 1));
    assert!(matches!(cmds[1], DrawCmd::Line { from, to, color: MapColor::Yellow } if from.lon == 0 && to.lon == 1));
    assert!(matches!(cmds[2], DrawCmd::Line { color: MapColor::Yellow, .. }));
    assert!(matches!(cmds[3], DrawCmd::Line { color: MapColor::White, .. }));
    let none = collect_segments(&d, None);
    assert!(none.iter().all(|c| !matches!(c, DrawCmd::Line { color: MapColor::Yellow, .. } | DrawCmd::Point { color: MapColor::Yellow, .. })));
}

#[test]
fn map_labels() {
    let d = doc();
    let labels = collect_labels(&d, Some(&[1usize][..]));
    assert_eq!(labels.len(), 3);
    assert_eq!(labels[0].text, "P");
    assert!(matches!(labels[1].anchor, LabelAnchor::At(p) if p.lon == 1 && p.lat == 1));
    assert!(matches!(labels[2].anchor, LabelAnchor::RingCentroid(r) if r.len() == 3));
    assert_eq!(labels[2].color, MapColor::Yellow);
    assert_eq!(labels[0].color, MapColor::White);
    assert!(label_coord(&Geometry::<i32>::Polygon(vec![])).is_none());
    assert!(label_coord(&Geometry::<i32>::MultiGeometry(vec![])).is_none());
    assert!(paths_equal(&[1, 2], &[1, 2]));
    assert!(!paths_equal(&[1, 2], &[1]));
}

#[test]
fn toggling_twice_restores_and_down_up_returns() {
    let d = doc();
    let mut st = AppState::new(build_tree_items(&d.features, 0, &[]));
    let before: Vec<bool> = st.tree_items.iter().map(|i| i.expanded).collect();
    st.handle_action(Action::ToggleExpand);
    st.handle_action(Action::ToggleExpand);
    let after: Vec<bool> = st.tree_items.iter().map(|i| i.expanded).collect();
    assert_eq!(before, after);
    st.selected = 2;
    st.handle_action(Action::MoveDown);
    assert_eq!(st.selected, 4);
    st.handle_action(Action::MoveUp);
    assert_eq!(st.selected, 2);
}

#[test]
fn panel_rows_show_visible_rows() {
    let d = doc();
    let mut st = AppState::new(build_tree_items(&d.features, 0, &[]));
    st.selected = 4;
    let (rows, pos) = st.panel_rows();
    let names: Vec<&str> = rows.iter().map(|r| r.name.as_str()).collect();
    assert_eq!(names, vec!["F", "P", "G", "Q", "Empty"]);
    assert_eq!(rows[0].icon, "📁");
    assert_eq!(rows[3].icon, "◻");
    assert_eq!(pos, 3);
    st.selected = 3;
    assert_eq!(st.panel_rows().1, 0);
}
