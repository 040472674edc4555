use vstd::prelude::*;

use crate::text::str_eq;
use crate::text_map::TextMap;
use crate::tiles::decode::{DecodedFeature, TilePoint};
use crate::tiles::proto::GeomType;

verus! {

broadcast use vstd::string::group_string_axioms;

/// A terminal colour of the map.
#[derive(Debug, Clone, Copy, PartialEq, Eq, Structural)]
pub enum MapColor {
    Blue,
    DarkGray,
    Gray,
    Green,
    White,
    Yellow,
    Rgb(u8, u8, u8),
}

/// A line of tile background between two points of a ring.
pub struct TileSegment<P> {
    pub from: P,
    pub to: P,
    pub color: MapColor,
}

/// A place name from a tile, anchored at a point, shown from zoom level
/// `min_zoom` on.
pub struct TileLabel<P> {
    pub at: P,
    pub text: String,
    pub color: MapColor,
    pub min_zoom: u32,
}

/// A label as (anchor, text, colour, minimum zoom).
pub type LabelView<P> = (P, Seq<char>, MapColor, u32);

/// The colour in which the geometry of a tile layer is drawn; `None` for
/// layers that are not drawn.
pub open spec fn layer_color_of(layer: Seq<char>) -> Option<MapColor> {
    if layer == "water"@ || layer == "waterway"@ {
        Some(MapColor::Blue)
    } else if layer == "landuse"@ || layer == "landcover"@ {
        Some(MapColor::DarkGray)
    } else if layer == "park"@ {
        Some(MapColor::Green)
    } else if layer == "transportation"@ {
        Some(MapColor::Rgb(80, 80, 80))
    } else if layer == "building"@ {
        Some(MapColor::Rgb(60, 60, 60))
    } else if layer == "boundary"@ {
        Some(MapColor::Rgb(100, 100, 100))
    } else {
        None
    }
}

pub fn layer_color(layer: &str) -> (c: Option<MapColor>)
    ensures
        c == layer_color_of(layer@),
{
    if str_eq(layer, "water") || str_eq(layer, "waterway") {
        Some(MapColor::Blue)
    } else if str_eq(layer, "landuse") || str_eq(layer, "landcover") {
        Some(MapColor::DarkGray)
    } else if str_eq(layer, "park") {
        Some(MapColor::Green)
    } else if str_eq(layer, "transportation") {
        Some(MapColor::Rgb(80, 80, 80))
    } else if str_eq(layer, "building") {
        Some(MapColor::Rgb(60, 60, 60))
    } else if str_eq(layer, "boundary") {
        Some(MapColor::Rgb(100, 100, 100))
    } else {
        None
    }
}

/// The tile layers whose geometry the map draws, each with its colour.
pub open spec fn drawn_layers() -> Map<Seq<char>, MapColor> {
    map![
        "water"@ => MapColor::Blue,
        "waterway"@ => MapColor::Blue,
        "landuse"@ => MapColor::DarkGray,
        "landcover"@ => MapColor::DarkGray,
        "park"@ => MapColor::Green,
        "transportation"@ => MapColor::Rgb(80, 80, 80),
        "building"@ => MapColor::Rgb(60, 60, 60),
        "boundary"@ => MapColor::Rgb(100, 100, 100),
    ]
}

/// Law: a layer has a colour exactly when it is one of the drawn layers,
/// and then it is that layer's colour; so every drawn layer's lines and
/// polygons are drawn (in the class colour of its road, for
/// `transportation`), and no other layer's are.
pub proof fn lemma_drawn_layers_have_colors(layer: Seq<char>, props: Map<Seq<char>, String>)
    ensures
        layer_color_of(layer) == if drawn_layers().contains_key(layer) {
            Some(drawn_layers()[layer])
        } else {
            None
        },
        segment_color_of(layer, props) is Some <==> drawn_layers().contains_key(layer),
{
    reveal_strlit("water");
    reveal_strlit("waterway");
    reveal_strlit("landuse");
    reveal_strlit("landcover");
    reveal_strlit("park");
    reveal_strlit("transportation");
    reveal_strlit("building");
    reveal_strlit("boundary");
    let m = drawn_layers();
    assert("water"@.len() == 5 && "waterway"@.len() == 8 && "landuse"@.len() == 7);
    assert("landcover"@.len() == 9 && "park"@.len() == 4 && "transportation"@.len() == 14);
    assert("building"@.len() == 8 && "boundary"@.len() == 8);
    assert("waterway"@[0] != "building"@[0] && "waterway"@[0] != "boundary"@[0]);
    assert("building"@[1] != "boundary"@[1]);
    assert(m.dom() =~= set![
        "water"@,
        "waterway"@,
        "landuse"@,
        "landcover"@,
        "park"@,
        "transportation"@,
        "building"@,
        "boundary"@,
    ]);
    if layer == "water"@ {
        assert(m[layer] == MapColor::Blue);
    } else if layer == "waterway"@ {
        assert(m[layer] == MapColor::Blue);
    } else if layer == "landuse"@ {
        assert(m[layer] == MapColor::DarkGray);
    } else if layer == "landcover"@ {
        assert(m[layer] == MapColor::DarkGray);
    } else if layer == "park"@ {
        assert(m[layer] == MapColor::Green);
    } else if layer == "transportation"@ {
        assert(m[layer] == MapColor::Rgb(80, 80, 80));
    } else if layer == "building"@ {
        assert(m[layer] == MapColor::Rgb(60, 60, 60));
    } else if layer == "boundary"@ {
        assert(m[layer] == MapColor::Rgb(100, 100, 100));
    } else {
        assert(!m.contains_key(layer));
    }
}

/// The colour of a place label by its `class` property.
pub open spec fn place_color_of(class: Seq<char>) -> MapColor {
    if class == "country"@ {
        MapColor::White
    } else if class == "state"@ {
        MapColor::Rgb(180, 180, 180)
    } else if class == "city"@ {
        MapColor::Rgb(200, 200, 200)
    } else if class == "town"@ {
        MapColor::Rgb(150, 150, 150)
    } else if class == "village"@ || class == "hamlet"@ || class == "suburb"@ || class
        == "quarter"@ || class == "neighbourhood"@ {
        MapColor::Rgb(120, 120, 120)
    } else {
        MapColor::Rgb(100, 100, 100)
    }
}

/// The value of property `key`, or the empty text when there is none.
pub open spec fn prop_or_empty(props: Map<Seq<char>, String>, key: Seq<char>) -> Seq<char> {
    if props.dom().contains(key) {
        props[key]@
    } else {
        Seq::empty()
    }
}

/// The colour of a label of a tile layer; `None` for layers whose names are
/// not shown.
pub open spec fn label_color_of(layer: Seq<char>, props: Map<Seq<char>, String>) -> Option<
    MapColor,
> {
    if layer == "place"@ {
        Some(place_color_of(prop_or_empty(props, "class"@)))
    } else if layer == "transportation_name"@ {
        Some(MapColor::Rgb(90, 90, 90))
    } else if layer == "water_name"@ {
        Some(MapColor::Rgb(80, 80, 180))
    } else if layer == "mountain_peak"@ {
        Some(MapColor::Rgb(160, 140, 100))
    } else if layer == "poi"@ {
        Some(MapColor::Rgb(100, 100, 100))
    } else {
        None
    }
}

fn place_color(class: &str) -> (c: MapColor)
    ensures
        c == place_color_of(class@),
{
    if str_eq(class, "country") {
        MapColor::White
    } else if str_eq(class, "state") {
        MapColor::Rgb(180, 180, 180)
    } else if str_eq(class, "city") {
        MapColor::Rgb(200, 200, 200)
    } else if str_eq(class, "town") {
        MapColor::Rgb(150, 150, 150)
    } else if str_eq(class, "village") || str_eq(class, "hamlet") || str_eq(class, "suburb")
        || str_eq(class, "quarter") || str_eq(class, "neighbourhood") {
        MapColor::Rgb(120, 120, 120)
    } else {
        MapColor::Rgb(100, 100, 100)
    }
}

pub fn label_color(layer: &str, props: &crate::text_map::TextMap<String>) -> (c: Option<MapColor>)
    ensures
        c == label_color_of(layer@, props@),
{
    if str_eq(layer, "place") {
        let c = match props.get("class") {
            Some(s) => place_color(s.as_str()),
            None => {
                proof {
                    reveal_strlit("");
                    assert(""@ =~= Seq::<char>::empty());
                }
                place_color("")
            },
        };
        Some(c)
    } else if str_eq(layer, "transportation_name") {
        Some(MapColor::Rgb(90, 90, 90))
    } else if str_eq(layer, "water_name") {
        Some(MapColor::Rgb(80, 80, 180))
    } else if str_eq(layer, "mountain_peak") {
        Some(MapColor::Rgb(160, 140, 100))
    } else if str_eq(layer, "poi") {
        Some(MapColor::Rgb(100, 100, 100))
    } else {
        None
    }
}

/// The colour of a road by its `class` property: major roads stand out,
/// the others are drawn in the gray of the transportation layer.
pub open spec fn road_color_of(class: Seq<char>) -> MapColor {
    if class == "motorway"@ || class == "trunk"@ {
        MapColor::Rgb(170, 110, 60)
    } else if class == "primary"@ {
        MapColor::Rgb(140, 120, 80)
    } else if class == "secondary"@ {
        MapColor::Rgb(110, 100, 80)
    } else {
        MapColor::Rgb(80, 80, 80)
    }
}

fn road_color(class: &str) -> (c: MapColor)
    ensures
        c == road_color_of(class@),
{
    if str_eq(class, "motorway") || str_eq(class, "trunk") {
        MapColor::Rgb(170, 110, 60)
    } else if str_eq(class, "primary") {
        MapColor::Rgb(140, 120, 80)
    } else if str_eq(class, "secondary") {
        MapColor::Rgb(110, 100, 80)
    } else {
        MapColor::Rgb(80, 80, 80)
    }
}

/// The colour in which a feature's geometry is drawn: roads by their class,
/// other layers by `layer_color_of`; `None` for layers that are not drawn.
pub open spec fn segment_color_of(layer: Seq<char>, props: Map<Seq<char>, String>) -> Option<MapColor> {
    if layer == "transportation"@ {
        Some(road_color_of(prop_or_empty(props, "class"@)))
    } else {
        layer_color_of(layer)
    }
}

fn class_of<'a>(props: &'a TextMap<String>) -> (c: &'a str)
    ensures
        c@ == prop_or_empty(props@, "class"@),
{
    match props.get("class") {
        Some(s) => s.as_str(),
        None => {
            proof {
                reveal_strlit("");
                assert(""@ =~= Seq::<char>::empty());
            }
            ""
        },
    }
}

pub fn segment_color(layer: &str, props: &TextMap<String>) -> (c: Option<MapColor>)
    ensures
        c == segment_color_of(layer@, props@),
{
    if str_eq(layer, "transportation") {
        Some(road_color(class_of(props)))
    } else {
        layer_color(layer)
    }
}

/// A segment that draws nothing: its two ends are the same tile-local point
/// (it is shorter than one unit of the tile's grid).
pub open spec fn is_micro(a: TilePoint, b: TilePoint) -> bool {
    a.0 == b.0 && a.1 == b.1
}

/// The segments between consecutive points of a ring, but for micro ones.
pub open spec fn ring_segments(r: Seq<TilePoint>, c: MapColor) -> Seq<(TilePoint, TilePoint, MapColor)>
    decreases r.len(),
{
    if r.len() < 2 {
        Seq::empty()
    } else {
        let a = r[r.len() - 2];
        let b = r[r.len() - 1];
        ring_segments(r.drop_last(), c) + if is_micro(a, b) {
            Seq::empty()
        } else {
            seq![(a, b, c)]
        }
    }
}

pub open spec fn rings_segments(rs: Seq<Vec<TilePoint>>, c: MapColor) -> Seq<(TilePoint, TilePoint, MapColor)>
    decreases rs.len(),
{
    if rs.len() == 0 {
        Seq::empty()
    } else {
        rings_segments(rs.drop_last(), c) + ring_segments(rs.last()@, c)
    }
}

/// The segments a feature draws: those of its rings when its layer is drawn
/// and it is a line or a polygon; none otherwise.
pub open spec fn feature_segments(f: DecodedFeature<TilePoint>) -> Seq<(TilePoint, TilePoint, MapColor)> {
    match segment_color_of(f.layer@, f.properties@) {
        Some(c) => if f.geom_type == GeomType::LineString || f.geom_type == GeomType::Polygon {
            rings_segments(f.rings@, c)
        } else {
            Seq::empty()
        },
        None => Seq::empty(),
    }
}

pub open spec fn features_segments(fs: Seq<DecodedFeature<TilePoint>>) -> Seq<(TilePoint, TilePoint, MapColor)>
    decreases fs.len(),
{
    if fs.len() == 0 {
        Seq::empty()
    } else {
        features_segments(fs.drop_last()) + feature_segments(fs.last())
    }
}

pub open spec fn segments_view<P>(ss: Seq<TileSegment<P>>) -> Seq<(P, P, MapColor)> {
    ss.map_values(|s: TileSegment<P>| (s.from, s.to, s.color))
}

fn push_ring_segments(ring: &Vec<TilePoint>, color: MapColor, segments: &mut Vec<TileSegment<TilePoint>>)
    ensures
        segments_view(final(segments)@) == segments_view(old(segments)@) + ring_segments(ring@, color),
{
    let ghost start = segments_view(segments@);
    if ring.len() < 2 {
        assert(segments_view(segments@) =~= start + ring_segments(ring@, color));
        return;
    }
    let mut k: usize = 1;
    assert(ring_segments(ring@.take(1), color) =~= Seq::<(TilePoint, TilePoint, MapColor)>::empty());
    assert(segments_view(segments@) =~= start + ring_segments(ring@.take(1), color));
    while k < ring.len()
        invariant
            1 <= k <= ring@.len(),
            segments_view(segments@) == start + ring_segments(ring@.take(k as int), color),
        decreases ring@.len() - k,
    {
        let from = ring[k - 1];
        let to = ring[k];
        let ghost prev = segments@;
        assert(ring@.take(k + 1).drop_last() =~= ring@.take(k as int));
        if from.0 != to.0 || from.1 != to.1 {
            segments.push(TileSegment { from, to, color });
            assert(segments_view(segments@) =~= segments_view(prev).push((from, to, color)));
            assert(segments_view(segments@) =~= start + ring_segments(ring@.take(k + 1), color));
        } else {
            assert(segments_view(segments@) =~= start + ring_segments(ring@.take(k + 1), color));
        }
        k = k + 1;
    }
    assert(ring@.take(k as int) =~= ring@);
}

/// The background segments of decoded tile features: each pair of
/// consecutive, distinct points of the rings of line and polygon features
/// whose layer is drawn, in the colour of the layer (of the road class, for
/// roads).
pub fn render_tile_features(features: &[DecodedFeature<TilePoint>]) -> (segments: Vec<
    TileSegment<TilePoint>,
>)
    ensures
        segments_view(segments@) == features_segments(features@),
{
    let mut segments: Vec<TileSegment<TilePoint>> = Vec::new();
    let mut i: usize = 0;
    assert(segments_view(segments@) =~= Seq::<(TilePoint, TilePoint, MapColor)>::empty());
    while i < features.len()
        invariant
            i <= features@.len(),
            segments_view(segments@) == features_segments(features@.take(i as int)),
        decreases features@.len() - i,
    {
        let feature = &features[i];
        assert(features@.take(i + 1).drop_last() =~= features@.take(i as int));
        let ghost before = segments_view(segments@);
        match segment_color(feature.layer.as_str(), &feature.properties) {
            Some(color) => {
                if feature.geom_type == GeomType::LineString || feature.geom_type
                    == GeomType::Polygon {
                    let mut r: usize = 0;
                    while r < feature.rings.len()
                        invariant
                            r <= feature.rings@.len(),
                            segments_view(segments@) == before + rings_segments(
                                feature.rings@.take(r as int),
                                color,
                            ),
                        decreases feature.rings@.len() - r,
                    {
                        assert(feature.rings@.take(r + 1).drop_last() =~= feature.rings@.take(
                            r as int,
                        ));
                        push_ring_segments(&feature.rings[r], color, &mut segments);
                        r = r + 1;
                    }
                    assert(feature.rings@.take(r as int) =~= feature.rings@);
                } else {
                    assert(segments_view(segments@) =~= before + feature_segments(*feature));
                }
            },
            None => {
                assert(segments_view(segments@) =~= before + feature_segments(*feature));
            },
        }
        i = i + 1;
    }
    assert(features@.take(i as int) =~= features@);
    segments
}

/// The zoom level from which a label of a tile layer is shown: countries
/// first, then states, cities, towns and smaller places; water names, peaks,
/// road names and points of interest as the map comes closer.
pub open spec fn label_zoom_of(layer: Seq<char>, props: Map<Seq<char>, String>) -> u32 {
    if layer == "place"@ {
        let class = prop_or_empty(props, "class"@);
        if class == "country"@ {
            2
        } else if class == "state"@ {
            4
        } else if class == "city"@ {
            6
        } else if class == "town"@ {
            8
        } else {
            10
        }
    } else if layer == "water_name"@ {
        8
    } else if layer == "mountain_peak"@ {
        10
    } else if layer == "transportation_name"@ {
        12
    } else {
        14
    }
}

pub fn label_zoom(layer: &str, props: &TextMap<String>) -> (z: u32)
    ensures
        z == label_zoom_of(layer@, props@),
{
    if str_eq(layer, "place") {
        let class = class_of(props);
        if str_eq(class, "country") {
            2
        } else if str_eq(class, "state") {
            4
        } else if str_eq(class, "city") {
            6
        } else if str_eq(class, "town") {
            8
        } else {
            10
        }
    } else if str_eq(layer, "water_name") {
        8
    } else if str_eq(layer, "mountain_peak") {
        10
    } else if str_eq(layer, "transportation_name") {
        12
    } else {
        14
    }
}

/// The label a feature shows: its non-empty `name` property, at the first
/// point of its first ring, in the colour of its layer's labels, from the
/// zoom level of its layer and class; nothing when any of these is missing.
pub open spec fn feature_label<P>(f: DecodedFeature<P>) -> Seq<LabelView<P>> {
    let props = f.properties@;
    if !props.dom().contains("name"@) || props["name"@]@.len() == 0 {
        Seq::empty()
    } else {
        match label_color_of(f.layer@, props) {
            Some(c) => if f.rings@.len() > 0 && f.rings@[0]@.len() > 0 {
                seq![(f.rings@[0]@[0], props["name"@]@, c, label_zoom_of(f.layer@, props))]
            } else {
                Seq::empty()
            },
            None => Seq::empty(),
        }
    }
}

pub open spec fn features_labels<P>(fs: Seq<DecodedFeature<P>>) -> Seq<LabelView<P>>
    decreases fs.len(),
{
    if fs.len() == 0 {
        Seq::empty()
    } else {
        features_labels(fs.drop_last()) + feature_label(fs.last())
    }
}

pub open spec fn labels_view<P>(ls: Seq<TileLabel<P>>) -> Seq<LabelView<P>> {
    ls.map_values(|l: TileLabel<P>| (l.at, l.text@, l.color, l.min_zoom))
}

/// Extract labels from decoded tile features (place names, road names, water names).
pub fn render_tile_labels<P: Copy>(features: &[DecodedFeature<P>]) -> (labels: Vec<TileLabel<P>>)
    ensures
        labels_view(labels@) == features_labels(features@),
{
    let mut labels: Vec<TileLabel<P>> = Vec::new();
    let mut i: usize = 0;
    assert(labels_view(labels@) =~= Seq::<LabelView<P>>::empty());
    while i < features.len()
        invariant
            i <= features@.len(),
            labels_view(labels@) == features_labels(features@.take(i as int)),
        decreases features@.len() - i,
    {
        let feature = &features[i];
        assert(features@.take(i + 1).drop_last() =~= features@.take(i as int));
        let ghost before = labels_view(labels@);
        if let Some(name) = feature.properties.get("name") {
            if !name.as_str().is_empty() {
                if let Some(color) = label_color(feature.layer.as_str(), &feature.properties) {
                    if feature.rings.len() > 0 && feature.rings[0].len() > 0 {
                        let at = feature.rings[0][0];
                        let min_zoom = label_zoom(feature.layer.as_str(), &feature.properties);
                        labels.push(TileLabel { at, text: name.clone(), color, min_zoom });
                    }
                }
            }
        }
        assert(labels_view(labels@) =~= before + feature_label(*feature));
        i = i + 1;
    }
    assert(features@.take(i as int) =~= features@);
    labels
}

/// A tile drawn once for all: its background segments and its labels.
pub struct RenderedTile {
    pub segments: Vec<TileSegment<TilePoint>>,
    pub labels: Vec<TileLabel<TilePoint>>,
}

/// The segments and labels of a tile's decoded features.
pub fn prerender_tile(features: &[DecodedFeature<TilePoint>]) -> (r: RenderedTile)
    ensures
        segments_view(r.segments@) == features_segments(features@),
        labels_view(r.labels@) == features_labels(features@),
{
    RenderedTile { segments: render_tile_features(features), labels: render_tile_labels(features) }
}

/// A decoded feature drawn once for all: its segments and labels in tile
/// points, with the extent of its layer, which places those points.
pub struct RenderedFeature {
    pub extent: u32,
    pub drawn: RenderedTile,
}

/// `r` is `f` drawn: the same extent, and the segments and labels of `f`.
pub open spec fn rendered_as(r: RenderedFeature, f: DecodedFeature<TilePoint>) -> bool {
    &&& r.extent == f.extent
    &&& segments_view(r.drawn.segments@) == features_segments(seq![f])
    &&& labels_view(r.drawn.labels@) == features_labels(seq![f])
}

/// Each decoded feature of a tile drawn on its own, in order: what the tile
/// cache keeps of a tile.
pub fn render_tile(features: Vec<DecodedFeature<TilePoint>>) -> (r: Vec<RenderedFeature>)
    ensures
        r@.len() == features@.len(),
        forall|i: int| 0 <= i < r@.len() ==> #[trigger] rendered_as(r@[i], features@[i]),
{
    let ghost all = features@;
    let mut rest = features;
    let mut reversed: Vec<RenderedFeature> = Vec::new();
    while rest.len() > 0
        invariant
            rest@.len() + reversed@.len() == all.len(),
            rest@ == all.take(rest@.len() as int),
            forall|j: int|
                0 <= j < reversed@.len() ==> #[trigger] rendered_as(reversed@[j], all[all.len() - 1 - j]),
        decreases rest@.len(),
    {
        let ghost before = rest@;
        let f = rest.pop().unwrap();
        assert(f == all[all.len() - 1 - reversed@.len()]);
        let extent = f.extent;
        let mut one: Vec<DecodedFeature<TilePoint>> = Vec::new();
        one.push(f);
        assert(one@ =~= seq![f]);
        let drawn = prerender_tile(one.as_slice());
        reversed.push(RenderedFeature { extent, drawn });
        assert(rest@ =~= all.take(rest@.len() as int));
    }
    let mut out: Vec<RenderedFeature> = Vec::new();
    while reversed.len() > 0
        invariant
            out@.len() + reversed@.len() == all.len(),
            forall|j: int|
                0 <= j < reversed@.len() ==> #[trigger] rendered_as(reversed@[j], all[all.len() - 1 - j]),
            forall|i: int| 0 <= i < out@.len() ==> #[trigger] rendered_as(out@[i], all[i]),
        decreases reversed@.len(),
    {
        let ghost k = reversed@.len() - 1;
        assert(rendered_as(reversed@[k], all[all.len() - 1 - k]));
        let r = reversed.pop().unwrap();
        out.push(r);
    }
    out
}

/// The labels shown at zoom level `zoom`: those whose minimum zoom it
/// reaches, in order.
pub fn visible_labels<P: Copy>(labels: &[TileLabel<P>], zoom: u32) -> (shown: Vec<TileLabel<P>>)
    ensures
        labels_view(shown@) == labels_view(labels@).filter(|l: LabelView<P>| l.3 <= zoom),
{
    let ghost all = labels_view(labels@);
    let ghost keep = |l: LabelView<P>| l.3 <= zoom;
    let mut shown: Vec<TileLabel<P>> = Vec::new();
    let mut k: usize = 0;
    assert(all.take(0) =~= Seq::<LabelView<P>>::empty());
    while k < labels.len()
        invariant
            keep == (|l: LabelView<P>| l.3 <= zoom),
            all == labels_view(labels@),
            k <= labels@.len(),
            labels_view(shown@) == all.take(k as int).filter(keep),
        decreases labels@.len() - k,
    {
        proof {
            assert(all.take(k + 1) =~= all.take(k as int).push(all[k as int]));
            all.take(k as int).lemma_filter_push(all[k as int], keep);
        }
        if labels[k].min_zoom <= zoom {
            let ghost before = shown@;
            shown.push(TileLabel {
                at: labels[k].at,
                text: labels[k].text.clone(),
                color: labels[k].color,
                min_zoom: labels[k].min_zoom,
            });
            assert(labels_view(shown@) =~= labels_view(before).push(all[k as int]));
        }
        k = k + 1;
    }
    assert(all.take(k as int) =~= all);
    shown
}

/// Whether some label among the first `n` of `s` has the text `t`.
pub open spec fn text_among<P>(s: Seq<LabelView<P>>, n: int, t: Seq<char>) -> bool {
    exists|j: int| 0 <= j < n && #[trigger] s[j].1 == t
}

/// The labels of `s` whose text no earlier label has, in order: the first
/// label of each text.
pub open spec fn first_of_each_text<P>(s: Seq<LabelView<P>>) -> Seq<LabelView<P>>
    decreases s.len(),
{
    if s.len() == 0 {
        Seq::empty()
    } else {
        let kept = first_of_each_text(s.drop_last());
        if text_among(s, s.len() - 1, s.last().1) {
            kept
        } else {
            kept.push(s.last())
        }
    }
}

/// Deduplication keeps every text: a text appears among the kept labels
/// exactly when it appears among all the labels.
pub proof fn lemma_kept_texts<P>(s: Seq<LabelView<P>>, t: Seq<char>)
    ensures
        text_among(first_of_each_text(s), first_of_each_text(s).len() as int, t) <==> text_among(
            s,
            s.len() as int,
            t,
        ),
    decreases s.len(),
{
    if s.len() > 0 {
        let p = s.drop_last();
        lemma_kept_texts(p, t);
        let kept = first_of_each_text(p);
        if text_among(p, p.len() as int, t) {
            let j = choose|j: int| 0 <= j < p.len() && #[trigger] p[j].1 == t;
            assert(s[j].1 == t);
        }
        if text_among(s, s.len() as int, t) {
            let j = choose|j: int| 0 <= j < s.len() && #[trigger] s[j].1 == t;
            if j < p.len() {
                assert(p[j].1 == t);
            }
        }
        if text_among(s, s.len() - 1, s.last().1) {
            if t == s.last().1 {
                let j = choose|j: int| 0 <= j < s.len() - 1 && #[trigger] s[j].1 == t;
                assert(p[j].1 == t);
            }
        } else {
            let k2 = kept.push(s.last());
            if text_among(kept, kept.len() as int, t) {
                let j = choose|j: int| 0 <= j < kept.len() && #[trigger] kept[j].1 == t;
                assert(k2[j].1 == t);
            }
            if text_among(k2, k2.len() as int, t) {
                let j = choose|j: int| 0 <= j < k2.len() && #[trigger] k2[j].1 == t;
                if j < kept.len() {
                    assert(kept[j].1 == t);
                } else {
                    assert(s[s.len() - 1].1 == t);
                }
            }
            if t == s.last().1 {
                assert(k2[kept.len() as int].1 == t);
            }
        }
    }
}

/// Deduplication leaves no text twice.
pub proof fn lemma_kept_texts_distinct<P>(s: Seq<LabelView<P>>)
    ensures
        forall|i: int, j: int|
            0 <= i < j < first_of_each_text(s).len() ==> #[trigger] first_of_each_text(s)[i].1
                != #[trigger] first_of_each_text(s)[j].1,
    decreases s.len(),
{
    if s.len() > 0 {
        let p = s.drop_last();
        lemma_kept_texts_distinct(p);
        let kept = first_of_each_text(p);
        if !text_among(s, s.len() - 1, s.last().1) {
            lemma_kept_texts(p, s.last().1);
            let k2 = kept.push(s.last());
            assert forall|i: int, j: int| 0 <= i < j < k2.len() implies k2[i].1 != k2[j].1 by {
                if j == kept.len() {
                    if k2[i].1 == k2[j].1 {
                        assert(kept[i].1 == s.last().1);
                        assert(text_among(kept, kept.len() as int, s.last().1));
                        let m = choose|m: int| 0 <= m < p.len() && #[trigger] p[m].1 == s.last().1;
                        assert(s[m].1 == s.last().1);
                    }
                } else {
                    assert(k2[i] == kept[i]);
                    assert(k2[j] == kept[j]);
                }
            }
        }
    }
}

/// Keeps the first label of each text, in order, and drops later labels
/// with the same text.
pub fn dedup_labels<P: Copy>(labels: &mut Vec<TileLabel<P>>)
    ensures
        labels_view(final(labels)@) == first_of_each_text(labels_view(old(labels)@)),
{
    let ghost all = labels_view(labels@);
    let mut kept: Vec<TileLabel<P>> = Vec::new();
    let mut i: usize = 0;
    assert(labels_view(kept@) =~= first_of_each_text(all.take(0)));
    while i < labels.len()
        invariant
            all == labels_view(labels@),
            i <= labels@.len(),
            labels_view(kept@) == first_of_each_text(all.take(i as int)),
        decreases labels@.len() - i,
    {
        let ghost prefix = all.take(i as int);
        let ghost next = all.take(i + 1);
        assert(next.drop_last() =~= prefix);
        proof {
            lemma_kept_texts(prefix, all[i as int].1);
        }
        let mut seen = false;
        let mut k: usize = 0;
        while k < kept.len()
            invariant
                k <= kept@.len(),
                seen == text_among(labels_view(kept@), k as int, labels@[i as int].text@),
                all == labels_view(labels@),
                i < labels@.len(),
            decreases kept@.len() - k,
        {
            if str_eq(kept[k].text.as_str(), labels[i].text.as_str()) {
                assert(labels_view(kept@)[k as int].1 == labels@[i as int].text@);
                seen = true;
            } else if seen {
            } else {
                assert forall|j: int| 0 <= j < k + 1 implies #[trigger] labels_view(kept@)[j].1
                    != labels@[i as int].text@ by {
                    if j == k {
                    } else {
                        assert(!text_among(labels_view(kept@), k as int, labels@[i as int].text@));
                    }
                }
            }
            k = k + 1;
        }
        proof {
            if text_among(next, i as int, next.last().1) {
                let j = choose|j: int| 0 <= j < i && #[trigger] next[j].1 == next.last().1;
                assert(prefix[j].1 == next.last().1);
            }
            if text_among(prefix, prefix.len() as int, all[i as int].1) {
                let j = choose|j: int| 0 <= j < prefix.len() && #[trigger] prefix[j].1 == all[i as int].1;
                assert(next[j].1 == next.last().1);
            }
        }
        if !seen {
            let label = TileLabel {
                at: labels[i].at,
                text: labels[i].text.clone(),
                color: labels[i].color,
                min_zoom: labels[i].min_zoom,
            };
            let ghost before = kept@;
            kept.push(label);
            assert(labels_view(kept@) =~= labels_view(before).push(all[i as int]));
        }
        i = i + 1;
    }
    assert(all.take(i as int) =~= all);
    *labels = kept;
}

} // verus!
