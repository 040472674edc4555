use vstd::prelude::*;

use crate::model::{Coord, Feature, Geometry, KmlDocument, Style};
use crate::text::str_eq;
use crate::text_map::TextMap;
use vstd::string::{StrSliceExecFns, StringExecFns};

verus! {

broadcast use vstd::string::group_string_axioms;

// ---------------------------------------------------------------------------
// The KML element tree as read from a file, as far as the conversion reads it.
// ---------------------------------------------------------------------------

pub struct KmlCoord<N> {
    pub x: N,
    pub y: N,
    pub z: Option<N>,
}

pub enum KmlGeometry<N> {
    Point(KmlCoord<N>),
    LineString(Vec<KmlCoord<N>>),
    LinearRing(Vec<KmlCoord<N>>),
    Polygon { outer: Vec<KmlCoord<N>>, inner: Vec<Vec<KmlCoord<N>>> },
    MultiGeometry(Vec<KmlGeometry<N>>),
    /// Any other geometry element (a 3D model, say).
    Other,
}

pub struct KmlPlacemark<N> {
    pub name: Option<String>,
    pub description: Option<String>,
    pub geometry: Option<KmlGeometry<N>>,
    pub style_url: Option<String>,
}

pub struct KmlFolder<N> {
    pub name: Option<String>,
    pub elements: Vec<KmlNode<N>>,
}

pub struct KmlLineStyle<N> {
    pub color: String,
    pub width: N,
}

pub struct KmlPolyStyle {
    pub color: String,
}

pub struct KmlIconStyle {
    /// The href of the style's icon.
    pub href: String,
}

pub struct KmlStyle<N> {
    pub id: Option<String>,
    pub line: Option<KmlLineStyle<N>>,
    pub poly: Option<KmlPolyStyle>,
    pub icon: Option<KmlIconStyle>,
}

pub struct KmlPair {
    pub key: String,
    pub style_url: String,
}

pub struct KmlStyleMap {
    pub id: Option<String>,
    pub pairs: Vec<KmlPair>,
}

/// A generic element (such as a document's `<name>`).
pub struct KmlElement {
    pub name: String,
    pub content: Option<String>,
}

pub enum KmlNode<N> {
    KmlDocument { elements: Vec<KmlNode<N>> },
    Document { elements: Vec<KmlNode<N>> },
    Folder(KmlFolder<N>),
    Placemark(KmlPlacemark<N>),
    Style(KmlStyle<N>),
    StyleMap(KmlStyleMap),
    Element(KmlElement),
    /// Any other element.
    Other,
}

// ---------------------------------------------------------------------------
// Geometry.
// ---------------------------------------------------------------------------

pub open spec fn coord_of<N>(k: KmlCoord<N>, c: Coord<N>) -> bool {
    c.lon == k.x && c.lat == k.y && c.alt == k.z
}

pub open spec fn coords_of<N>(ks: Seq<KmlCoord<N>>, cs: Seq<Coord<N>>) -> bool {
    ks.len() == cs.len() && forall|i: int| 0 <= i < ks.len() ==> coord_of(#[trigger] ks[i], cs[i])
}

/// `g` is the conversion of `kg`: x, y, z become lon, lat, alt; a linear
/// ring becomes a line string; a polygon becomes its outer ring followed by
/// its inner rings; any other geometry becomes an empty collection.
pub open spec fn geometry_of<N>(kg: KmlGeometry<N>, g: Geometry<N>) -> bool
    decreases kg,
{
    match kg {
        KmlGeometry::Point(k) => g matches Geometry::Point(c) && coord_of(k, c),
        KmlGeometry::LineString(ks) => g matches Geometry::LineString(cs) && coords_of(ks@, cs@),
        KmlGeometry::LinearRing(ks) => g matches Geometry::LineString(cs) && coords_of(ks@, cs@),
        KmlGeometry::Polygon { outer, inner } => g matches Geometry::Polygon(rings) && {
            &&& rings@.len() == inner@.len() + 1
            &&& coords_of(outer@, rings@[0]@)
            &&& forall|i: int| 0 <= i < inner@.len() ==> coords_of((#[trigger] inner@[i])@, rings@[i + 1]@)
        },
        KmlGeometry::MultiGeometry(kgs) => g matches Geometry::MultiGeometry(gs) && geometries_of(kgs@, gs@),
        KmlGeometry::Other => g matches Geometry::MultiGeometry(gs) && gs@.len() == 0,
    }
}

pub open spec fn geometries_of<N>(kgs: Seq<KmlGeometry<N>>, gs: Seq<Geometry<N>>) -> bool
    decreases kgs,
{
    &&& kgs.len() == gs.len()
    &&& forall|i: int| 0 <= i < kgs.len() ==> geometry_of(#[trigger] kgs[i], gs[i])
}

fn convert_coords<N: Copy>(ks: &Vec<KmlCoord<N>>) -> (cs: Vec<Coord<N>>)
    ensures
        coords_of(ks@, cs@),
{
    let mut cs: Vec<Coord<N>> = Vec::new();
    let mut i: usize = 0;
    while i < ks.len()
        invariant
            i <= ks@.len(),
            cs@.len() == i,
            forall|j: int| 0 <= j < i ==> coord_of(#[trigger] ks@[j], cs@[j]),
        decreases ks@.len() - i,
    {
        let k = &ks[i];
        cs.push(Coord { lon: k.x, lat: k.y, alt: k.z });
        i = i + 1;
    }
    cs
}

fn convert_geometry<N: Copy>(geom: &KmlGeometry<N>) -> (g: Geometry<N>)
    ensures
        geometry_of(*geom, g),
    decreases geom,
{
    match geom {
        KmlGeometry::Point(p) => Geometry::Point(Coord { lon: p.x, lat: p.y, alt: p.z }),
        KmlGeometry::LineString(ls) => Geometry::LineString(convert_coords(ls)),
        KmlGeometry::LinearRing(lr) => Geometry::LineString(convert_coords(lr)),
        KmlGeometry::Polygon { outer, inner } => {
            let mut rings: Vec<Vec<Coord<N>>> = Vec::new();
            // outer ring first
            rings.push(convert_coords(outer));
            // inner rings
            let mut i: usize = 0;
            while i < inner.len()
                invariant
                    i <= inner@.len(),
                    rings@.len() == i + 1,
                    coords_of(outer@, rings@[0]@),
                    forall|j: int| 0 <= j < i ==> coords_of((#[trigger] inner@[j])@, rings@[j + 1]@),
                decreases inner@.len() - i,
            {
                rings.push(convert_coords(&inner[i]));
                i = i + 1;
            }
            Geometry::Polygon(rings)
        },
        KmlGeometry::MultiGeometry(mg) => Geometry::MultiGeometry(convert_geometries(mg.as_slice())),
        // Model placeholders and any other geometry
        KmlGeometry::Other => Geometry::MultiGeometry(Vec::new()),
    }
}

fn convert_geometries<N: Copy>(kgs: &[KmlGeometry<N>]) -> (gs: Vec<Geometry<N>>)
    ensures
        geometries_of(kgs@, gs@),
    decreases kgs@,
{
    let mut gs: Vec<Geometry<N>> = Vec::new();
    let mut i: usize = 0;
    while i < kgs.len()
        invariant
            i <= kgs@.len(),
            gs@.len() == i,
            forall|j: int| 0 <= j < i ==> geometry_of(#[trigger] kgs@[j], gs@[j]),
        decreases kgs@.len() - i,
    {
        gs.push(convert_geometry(&kgs[i]));
        i = i + 1;
    }
    gs
}

/// The coordinates of a KML geometry in document order: a polygon's outer
/// boundary, then its inner boundaries; a collection's members in order.
pub open spec fn kml_geometry_coords<N>(kg: KmlGeometry<N>) -> Seq<KmlCoord<N>>
    decreases kg,
{
    match kg {
        KmlGeometry::Point(k) => seq![k],
        KmlGeometry::LineString(ks) => ks@,
        KmlGeometry::LinearRing(ks) => ks@,
        KmlGeometry::Polygon { outer, inner } => outer@ + kml_rings_coords(inner@),
        KmlGeometry::MultiGeometry(kgs) => kml_geometries_coords(kgs@),
        KmlGeometry::Other => Seq::empty(),
    }
}

pub open spec fn kml_rings_coords<N>(rings: Seq<Vec<KmlCoord<N>>>) -> Seq<KmlCoord<N>>
    decreases rings.len(),
{
    if rings.len() == 0 {
        Seq::empty()
    } else {
        kml_rings_coords(rings.drop_last()) + rings.last()@
    }
}

pub open spec fn kml_geometries_coords<N>(kgs: Seq<KmlGeometry<N>>) -> Seq<KmlCoord<N>>
    decreases kgs,
{
    if kgs.len() == 0 {
        Seq::empty()
    } else {
        kml_geometries_coords(kgs.drop_last()) + kml_geometry_coords(kgs.last())
    }
}

proof fn lemma_coords_of_concat<N>(a: Seq<KmlCoord<N>>, b: Seq<Coord<N>>, c: Seq<KmlCoord<N>>, d: Seq<Coord<N>>)
    requires
        coords_of(a, b),
        coords_of(c, d),
    ensures
        coords_of(a + c, b + d),
{
    assert forall|i: int| 0 <= i < (a + c).len() implies coord_of(#[trigger] (a + c)[i], (b + d)[i]) by {
        if i < a.len() {
            assert(coord_of(a[i], b[i]));
        } else {
            assert(coord_of(c[i - a.len()], d[i - a.len()]));
        }
    }
}

proof fn lemma_polygon_coords<N>(
    outer: Seq<KmlCoord<N>>,
    inner: Seq<Vec<KmlCoord<N>>>,
    rings: Seq<Vec<Coord<N>>>,
    n: int,
)
    requires
        rings.len() == inner.len() + 1,
        coords_of(outer, rings[0]@),
        forall|i: int| 0 <= i < inner.len() ==> coords_of((#[trigger] inner[i])@, rings[i + 1]@),
        1 <= n <= rings.len(),
    ensures
        coords_of(outer + kml_rings_coords(inner.take(n - 1)), crate::model::rings_coords(rings.take(n))),
    decreases n,
{
    if n == 1 {
        assert(rings.take(1).drop_last() =~= Seq::<Vec<Coord<N>>>::empty());
        assert(inner.take(0) =~= Seq::<Vec<KmlCoord<N>>>::empty());
        assert(outer + kml_rings_coords(inner.take(0)) =~= outer);
        assert(rings.take(1).last() == rings[0]);
        assert(crate::model::rings_coords(rings.take(1).drop_last()) =~= Seq::<Coord<N>>::empty());
        assert(crate::model::rings_coords(rings.take(1)) =~= rings[0]@);
    } else {
        lemma_polygon_coords(outer, inner, rings, n - 1);
        assert(rings.take(n).drop_last() =~= rings.take(n - 1));
        assert(inner.take(n - 1).drop_last() =~= inner.take(n - 2));
        assert(coords_of(inner[n - 2]@, rings[n - 1]@));
        lemma_coords_of_concat(
            outer + kml_rings_coords(inner.take(n - 2)),
            crate::model::rings_coords(rings.take(n - 1)),
            inner[n - 2]@,
            rings[n - 1]@,
        );
        assert(outer + kml_rings_coords(inner.take(n - 1)) =~= outer + kml_rings_coords(inner.take(n - 2))
            + inner[n - 2]@);
    }
}

proof fn lemma_geometries_keep_coords<N>(kgs: Seq<KmlGeometry<N>>, gs: Seq<Geometry<N>>)
    requires
        geometries_of(kgs, gs),
    ensures
        coords_of(kml_geometries_coords(kgs), crate::model::geometries_coords(gs)),
    decreases kgs,
{
    if kgs.len() > 0 {
        let n = kgs.len() - 1;
        assert(geometries_of(kgs.drop_last(), gs.drop_last())) by {
            assert forall|i: int| 0 <= i < kgs.drop_last().len() implies geometry_of(
                #[trigger] kgs.drop_last()[i],
                gs.drop_last()[i],
            ) by {
                assert(geometry_of(kgs[i], gs[i]));
            }
        }
        lemma_geometries_keep_coords(kgs.drop_last(), gs.drop_last());
        assert(geometry_of(kgs[n], gs[n]));
        lemma_geometry_keeps_coords(kgs.last(), gs.last());
        lemma_coords_of_concat(
            kml_geometries_coords(kgs.drop_last()),
            crate::model::geometries_coords(gs.drop_last()),
            kml_geometry_coords(kgs.last()),
            crate::model::geometry_coords(gs.last()),
        );
    } else {
        assert(coords_of(Seq::<KmlCoord<N>>::empty(), Seq::<Coord<N>>::empty()));
    }
}

/// Law: converting a geometry keeps every coordinate, in document order:
/// the converted geometry's coordinates are, one for one, the KML
/// geometry's coordinates with x, y, z as lon, lat, alt. In particular a
/// converted collection has exactly as many members as the KML one, and its
/// member `i` is the conversion of KML member `i`.
pub proof fn lemma_geometry_keeps_coords<N>(kg: KmlGeometry<N>, g: Geometry<N>)
    requires
        geometry_of(kg, g),
    ensures
        coords_of(kml_geometry_coords(kg), crate::model::geometry_coords(g)),
        kg matches KmlGeometry::MultiGeometry(kgs) ==> (g matches Geometry::MultiGeometry(gs) && gs@.len()
            == kgs@.len() && forall|i: int|
            0 <= i < kgs@.len() ==> coords_of(
                kml_geometry_coords(#[trigger] kgs@[i]),
                crate::model::geometry_coords(gs@[i]),
            )),
    decreases kg,
{
    match kg {
        KmlGeometry::Point(k) => {
            assert(coords_of(seq![k], crate::model::geometry_coords(g)));
        },
        KmlGeometry::LineString(ks) => {},
        KmlGeometry::LinearRing(ks) => {},
        KmlGeometry::Polygon { outer, inner } => {
            if let Geometry::Polygon(rings) = g {
                lemma_polygon_coords(outer@, inner@, rings@, rings@.len() as int);
                assert(rings@.take(rings@.len() as int) =~= rings@);
                assert(inner@.take(inner@.len() as int) =~= inner@);
            }
        },
        KmlGeometry::MultiGeometry(kgs) => {
            if let Geometry::MultiGeometry(gs) = g {
                lemma_geometries_keep_coords(kgs@, gs@);
                assert forall|i: int| 0 <= i < kgs@.len() implies coords_of(
                    kml_geometry_coords(#[trigger] kgs@[i]),
                    crate::model::geometry_coords(gs@[i]),
                ) by {
                    lemma_geometry_keeps_coords(kgs@[i], gs@[i]);
                }
            }
        },
        KmlGeometry::Other => {
            assert(coords_of(Seq::<KmlCoord<N>>::empty(), crate::model::geometry_coords(g)));
        },
    }
}

// ---------------------------------------------------------------------------
// Placemarks and styles.
// ---------------------------------------------------------------------------

/// `s` without its leading `#` characters.
pub open spec fn trim_leading_hashes(s: Seq<char>) -> Seq<char>
    decreases s.len(),
{
    if s.len() > 0 && s[0] == '#' {
        trim_leading_hashes(s.drop_first())
    } else {
        s
    }
}

/// Removes the leading `#` characters of a style URL (`#id` names a style of
/// the same document).
pub fn trim_hashes(s: &str) -> (r: String)
    ensures
        r@ == trim_leading_hashes(s@),
{
    let n = s.unicode_len();
    let mut k: usize = 0;
    assert(s@.skip(0) =~= s@);
    while k < n && s.get_char(k) == '#'
        invariant
            n == s@.len(),
            k <= n,
            trim_leading_hashes(s@.skip(k as int)) == trim_leading_hashes(s@),
        decreases n - k,
    {
        assert(s@.skip(k as int).drop_first() =~= s@.skip(k + 1));
        k = k + 1;
    }
    let rest = s.substring_char(k, n);
    assert(rest@ =~= s@.skip(k as int));
    rest.to_string()
}

pub open spec fn text_or_empty(o: Option<String>) -> Seq<char> {
    match o {
        Some(s) => s@,
        None => Seq::empty(),
    }
}

pub open spec fn style_id_of(url: Option<String>, id: Option<String>) -> bool {
    match url {
        Some(u) => id matches Some(i) && i@ == trim_leading_hashes(u@),
        None => id.is_none(),
    }
}

pub open spec fn placemark_geometry_of<N>(kg: Option<KmlGeometry<N>>, g: Option<Geometry<N>>) -> bool {
    match kg {
        Some(k) => g matches Some(x) && geometry_of(k, x),
        None => g.is_none(),
    }
}

/// `f` is the conversion of `pm`: its name (empty when it has none), its
/// description, its style URL without the leading `#`, and its geometry.
pub open spec fn placemark_of<N>(pm: KmlPlacemark<N>, f: Feature<N>) -> bool {
    match f {
        Feature::Placemark { name, geometry, style_id, description } => {
            &&& name@ == text_or_empty(pm.name)
            &&& description == pm.description
            &&& style_id_of(pm.style_url, style_id)
            &&& placemark_geometry_of(pm.geometry, geometry)
        },
        Feature::Folder { .. } => false,
    }
}

fn clone_text(o: &Option<String>) -> (r: Option<String>)
    ensures
        r == *o,
{
    match o {
        Some(s) => Some(s.clone()),
        None => None,
    }
}

fn text_or_default(o: &Option<String>) -> (r: String)
    ensures
        r@ == text_or_empty(*o),
{
    match o {
        Some(s) => s.clone(),
        None => String::new(),
    }
}

fn convert_placemark<N: Copy>(pm: &KmlPlacemark<N>) -> (f: Feature<N>)
    ensures
        placemark_of(*pm, f),
{
    let name = text_or_default(&pm.name);
    let geometry = match &pm.geometry {
        Some(g) => Some(convert_geometry(g)),
        None => None,
    };
    let style_id = match &pm.style_url {
        Some(s) => Some(trim_hashes(s.as_str())),
        None => None,
    };
    let description = clone_text(&pm.description);
    Feature::Placemark { name, geometry, style_id, description }
}

/// The style that a KML style with an id becomes: its line color and width,
/// its polygon color, and its icon's href unless that is empty.
pub open spec fn style_of<N>(st: KmlStyle<N>, id: String) -> Style<N> {
    Style {
        id,
        line_color: match st.line {
            Some(l) => Some(l.color),
            None => None,
        },
        line_width: match st.line {
            Some(l) => Some(l.width),
            None => None,
        },
        poly_color: match st.poly {
            Some(p) => Some(p.color),
            None => None,
        },
        icon_href: match st.icon {
            Some(i) => if i.href@.len() > 0 {
                Some(i.href)
            } else {
                None
            },
            None => None,
        },
    }
}

fn convert_style_value<N: Copy>(style: &KmlStyle<N>, id: &String) -> (s: Style<N>)
    ensures
        s == style_of(*style, *id),
{
    Style {
        id: id.clone(),
        line_color: match &style.line {
            Some(l) => Some(l.color.clone()),
            None => None,
        },
        line_width: match &style.line {
            Some(l) => Some(l.width),
            None => None,
        },
        poly_color: match &style.poly {
            Some(p) => Some(p.color.clone()),
            None => None,
        },
        icon_href: match &style.icon {
            Some(i) => if i.href.as_str().unicode_len() > 0 {
                Some(i.href.clone())
            } else {
                None
            },
            None => None,
        },
    }
}

// ---------------------------------------------------------------------------
// What a list of elements contributes to the document.
// ---------------------------------------------------------------------------

/// `f` is the conversion of the folder or placemark `n`.
pub open spec fn feature_of<N>(n: KmlNode<N>, f: Feature<N>) -> bool
    decreases n,
{
    match n {
        KmlNode::Placemark(pm) => placemark_of(pm, f),
        KmlNode::Folder(fd) => match f {
            Feature::Folder { name, features } => {
                &&& name@ == text_or_empty(fd.name)
                &&& features_of(fd.elements@, features@)
            },
            Feature::Placemark { .. } => false,
        },
        _ => false,
    }
}

pub open spec fn is_feature_node<N>(n: KmlNode<N>) -> bool {
    n is Folder || n is Placemark
}

/// `fs` are the conversions of the folders and placemarks among `ns`, in order
/// (other elements yield no feature).
pub open spec fn features_of<N>(ns: Seq<KmlNode<N>>, fs: Seq<Feature<N>>) -> bool
    decreases ns,
{
    if ns.len() == 0 {
        fs.len() == 0
    } else if is_feature_node(ns.last()) {
        &&& fs.len() > 0
        &&& features_of(ns.drop_last(), fs.drop_last())
        &&& feature_of(ns.last(), fs.last())
    } else {
        features_of(ns.drop_last(), fs)
    }
}

/// The styles (id, style) that `n` defines, in document order: a style with
/// an id, or the styles inside a folder.
pub open spec fn node_styles<N>(n: KmlNode<N>) -> Seq<(String, Style<N>)>
    decreases n,
{
    match n {
        KmlNode::Style(st) => match st.id {
            Some(id) => seq![(id, style_of(st, id))],
            None => Seq::empty(),
        },
        KmlNode::Folder(fd) => nodes_styles(fd.elements@),
        _ => Seq::empty(),
    }
}

pub open spec fn nodes_styles<N>(ns: Seq<KmlNode<N>>) -> Seq<(String, Style<N>)>
    decreases ns,
{
    if ns.len() == 0 {
        Seq::empty()
    } else {
        nodes_styles(ns.drop_last()) + node_styles(ns.last())
    }
}

/// The style URL of the first pair whose key is "normal", without its
/// leading `#`.
pub open spec fn normal_target(pairs: Seq<KmlPair>) -> Option<Seq<char>>
    decreases pairs.len(),
{
    if pairs.len() == 0 {
        None
    } else if pairs[0].key@ == "normal"@ {
        Some(trim_leading_hashes(pairs[0].style_url@))
    } else {
        normal_target(pairs.drop_first())
    }
}

/// The style maps (id, target style id) that `n` defines, in document order:
/// a style map with an id and a "normal" pair, or those inside a folder.
pub open spec fn node_maps<N>(n: KmlNode<N>) -> Seq<(Seq<char>, Seq<char>)>
    decreases n,
{
    match n {
        KmlNode::StyleMap(sm) => match (sm.id, normal_target(sm.pairs@)) {
            (Some(id), Some(t)) => seq![(id@, t)],
            _ => Seq::empty(),
        },
        KmlNode::Folder(fd) => nodes_maps(fd.elements@),
        _ => Seq::empty(),
    }
}

pub open spec fn nodes_maps<N>(ns: Seq<KmlNode<N>>) -> Seq<(Seq<char>, Seq<char>)>
    decreases ns,
{
    if ns.len() == 0 {
        Seq::empty()
    } else {
        nodes_maps(ns.drop_last()) + node_maps(ns.last())
    }
}

/// Inserting the entries one after the other (a later id replaces an earlier one).
pub open spec fn apply_styles<N>(m: Map<Seq<char>, Style<N>>, es: Seq<(String, Style<N>)>) -> Map<Seq<char>, Style<N>>
    decreases es.len(),
{
    if es.len() == 0 {
        m
    } else {
        apply_styles(m, es.drop_last()).insert(es.last().0@, es.last().1)
    }
}

pub open spec fn apply_maps(m: Map<Seq<char>, Seq<char>>, es: Seq<(Seq<char>, Seq<char>)>) -> Map<Seq<char>, Seq<char>>
    decreases es.len(),
{
    if es.len() == 0 {
        m
    } else {
        apply_maps(m, es.drop_last()).insert(es.last().0, es.last().1)
    }
}

pub open spec fn text_values(m: Map<Seq<char>, String>) -> Map<Seq<char>, Seq<char>> {
    m.map_values(|s: String| s@)
}

/// The contents of the `<name>` elements among `ns`, in order.
pub open spec fn document_names<N>(ns: Seq<KmlNode<N>>) -> Seq<Option<String>>
    decreases ns.len(),
{
    if ns.len() == 0 {
        Seq::empty()
    } else {
        document_names(ns.drop_last()) + match ns.last() {
            KmlNode::Element(e) => if e.name@ == "name"@ { seq![e.content] } else { Seq::empty() },
            _ => Seq::empty(),
        }
    }
}

/// The document name after the names `names` were read: the last one read,
/// or `old` when there was none.
pub open spec fn name_after(old: Option<String>, names: Seq<Option<String>>) -> Option<String> {
    if names.len() == 0 {
        old
    } else {
        names.last()
    }
}

/// `new` is `old` with the elements `items` added at document level and the
/// names `names` read: their features appended, their styles and style maps
/// inserted in order, and the last name read (if any) as the name.
pub open spec fn doc_after<N>(
    old: KmlDocument<N>,
    new: KmlDocument<N>,
    items: Seq<KmlNode<N>>,
    names: Seq<Option<String>>,
) -> bool {
    &&& new.features@.len() >= old.features@.len()
    &&& new.features@.take(old.features@.len() as int) == old.features@
    &&& features_of(items, new.features@.skip(old.features@.len() as int))
    &&& new.styles@ == apply_styles(old.styles@, nodes_styles(items))
    &&& text_values(new.style_maps@) == apply_maps(text_values(old.style_maps@), nodes_maps(items))
    &&& new.name == name_after(old.name, names)
}

// ---------------------------------------------------------------------------
// Composition lemmas.
// ---------------------------------------------------------------------------

proof fn lemma_features_of_concat<N>(i1: Seq<KmlNode<N>>, f1: Seq<Feature<N>>, i2: Seq<KmlNode<N>>, f2: Seq<Feature<N>>)
    requires
        features_of(i1, f1),
        features_of(i2, f2),
    ensures
        features_of(i1 + i2, f1 + f2),
    decreases i2.len(),
{
    if i2.len() == 0 {
        assert(i1 + i2 =~= i1);
        assert(f1 + f2 =~= f1);
    } else {
        assert((i1 + i2).drop_last() =~= i1 + i2.drop_last());
        assert((i1 + i2).last() == i2.last());
        if is_feature_node(i2.last()) {
            assert((f1 + f2).drop_last() =~= f1 + f2.drop_last());
            lemma_features_of_concat(i1, f1, i2.drop_last(), f2.drop_last());
        } else {
            lemma_features_of_concat(i1, f1, i2.drop_last(), f2);
        }
    }
}

proof fn lemma_nodes_concat<N>(i1: Seq<KmlNode<N>>, i2: Seq<KmlNode<N>>)
    ensures
        nodes_styles(i1 + i2) == nodes_styles(i1) + nodes_styles(i2),
        nodes_maps(i1 + i2) == nodes_maps(i1) + nodes_maps(i2),
    decreases i2.len(),
{
    if i2.len() == 0 {
        assert(i1 + i2 =~= i1);
        assert(nodes_styles(i1) + nodes_styles(i2) =~= nodes_styles(i1));
        assert(nodes_maps(i1) + nodes_maps(i2) =~= nodes_maps(i1));
    } else {
        assert((i1 + i2).drop_last() =~= i1 + i2.drop_last());
        lemma_nodes_concat(i1, i2.drop_last());
        assert(nodes_styles(i1 + i2) =~= nodes_styles(i1) + nodes_styles(i2));
        assert(nodes_maps(i1 + i2) =~= nodes_maps(i1) + nodes_maps(i2));
    }
}

proof fn lemma_apply_concat<N>(
    m: Map<Seq<char>, Style<N>>,
    e1: Seq<(String, Style<N>)>,
    e2: Seq<(String, Style<N>)>,
    t: Map<Seq<char>, Seq<char>>,
    d1: Seq<(Seq<char>, Seq<char>)>,
    d2: Seq<(Seq<char>, Seq<char>)>,
)
    ensures
        apply_styles(apply_styles(m, e1), e2) == apply_styles(m, e1 + e2),
        apply_maps(apply_maps(t, d1), d2) == apply_maps(t, d1 + d2),
    decreases e2.len() + d2.len(),
{
    if e2.len() > 0 {
        assert((e1 + e2).drop_last() =~= e1 + e2.drop_last());
        lemma_apply_concat(m, e1, e2.drop_last(), t, d1, Seq::empty());
    } else {
        assert(e1 + e2 =~= e1);
    }
    if d2.len() > 0 {
        assert((d1 + d2).drop_last() =~= d1 + d2.drop_last());
        lemma_apply_concat(m, e1, Seq::empty(), t, d1, d2.drop_last());
    } else {
        assert(d1 + d2 =~= d1);
    }
}

proof fn lemma_doc_after_compose<N>(
    a: KmlDocument<N>,
    b: KmlDocument<N>,
    c: KmlDocument<N>,
    i1: Seq<KmlNode<N>>,
    n1: Seq<Option<String>>,
    i2: Seq<KmlNode<N>>,
    n2: Seq<Option<String>>,
)
    requires
        doc_after(a, b, i1, n1),
        doc_after(b, c, i2, n2),
    ensures
        doc_after(a, c, i1 + i2, n1 + n2),
{
    let la = a.features@.len() as int;
    let lb = b.features@.len() as int;
    let f1 = b.features@.skip(la);
    let f2 = c.features@.skip(lb);
    assert(c.features@.take(la) =~= b.features@.take(la));
    assert(c.features@.skip(la) =~= f1 + f2);
    lemma_features_of_concat(i1, f1, i2, f2);
    lemma_nodes_concat(i1, i2);
    lemma_apply_concat(a.styles@, nodes_styles(i1), nodes_styles(i2),
        text_values(a.style_maps@), nodes_maps(i1), nodes_maps(i2));
    if n2.len() == 0 {
        assert(n1 + n2 =~= n1);
    } else {
        assert((n1 + n2).last() == n2.last());
    }
}

// ---------------------------------------------------------------------------
// Conversion.
// ---------------------------------------------------------------------------

/// Records a style that has an id (a later one with the same id replaces it).
fn insert_style<N: Copy>(style: &KmlStyle<N>, doc: &mut KmlDocument<N>)
    ensures
        final(doc).styles@ == apply_styles(old(doc).styles@, node_styles(KmlNode::Style(*style))),
        final(doc).style_maps@ == old(doc).style_maps@,
        final(doc).features@ == old(doc).features@,
        final(doc).name == old(doc).name,
{
    if let Some(id) = &style.id {
        let our_style = convert_style_value(style, id);
        let ghost e = (*id, our_style);
        doc.styles.insert(id.clone(), our_style);
        assert(seq![e].drop_last() =~= Seq::<(String, Style<N>)>::empty());
        assert(node_styles(KmlNode::Style(*style)) == seq![e]);
        assert(apply_styles(old(doc).styles@, Seq::<(String, Style<N>)>::empty()) == old(doc).styles@);
        assert(apply_styles(old(doc).styles@, seq![e]) == old(doc).styles@.insert(id@, our_style));
    }
}

fn find_normal_target(pairs: &Vec<KmlPair>) -> (r: Option<String>)
    ensures
        match r {
            Some(t) => normal_target(pairs@) == Some(t@),
            None => normal_target(pairs@).is_none(),
        },
{
    let mut i: usize = 0;
    assert(pairs@.skip(0) =~= pairs@);
    while i < pairs.len()
        invariant
            i <= pairs@.len(),
            normal_target(pairs@.skip(i as int)) == normal_target(pairs@),
        decreases pairs@.len() - i,
    {
        assert(pairs@.skip(i as int)[0] == pairs@[i as int]);
        if str_eq(pairs[i].key.as_str(), "normal") {
            return Some(trim_hashes(pairs[i].style_url.as_str()));
        }
        assert(pairs@.skip(i as int).drop_first() =~= pairs@.skip(i + 1));
        i = i + 1;
    }
    None
}

/// Records where a style map with an id points: the style of its "normal" pair.
fn insert_style_map<N>(style_map: &KmlStyleMap, doc: &mut KmlDocument<N>)
    ensures
        text_values(final(doc).style_maps@) == apply_maps(
            text_values(old(doc).style_maps@),
            node_maps(KmlNode::<N>::StyleMap(*style_map)),
        ),
        final(doc).styles@ == old(doc).styles@,
        final(doc).features@ == old(doc).features@,
        final(doc).name == old(doc).name,
{
    if let Some(id) = &style_map.id {
        if let Some(target) = find_normal_target(&style_map.pairs) {
            let ghost old_maps = doc.style_maps@;
            let ghost t = target@;
            doc.style_maps.insert(id.clone(), target);
            assert(text_values(doc.style_maps@) =~= text_values(old_maps).insert(id@, t));
            assert(seq![(id@, t)].drop_last() =~= Seq::<(Seq<char>, Seq<char>)>::empty());
            assert(apply_maps(text_values(old_maps), Seq::<(Seq<char>, Seq<char>)>::empty()) == text_values(old_maps));
        }
    }
}

fn convert_folder<N: Copy>(folder: &KmlFolder<N>, doc: &mut KmlDocument<N>) -> (f: Feature<N>)
    ensures
        feature_of(KmlNode::Folder(*folder), f),
        final(doc).styles@ == apply_styles(old(doc).styles@, nodes_styles(folder.elements@)),
        text_values(final(doc).style_maps@) == apply_maps(
            text_values(old(doc).style_maps@),
            nodes_maps(folder.elements@),
        ),
        final(doc).features@ == old(doc).features@,
        final(doc).name == old(doc).name,
    decreases folder,
{
    let name = text_or_default(&folder.name);
    let mut features: Vec<Feature<N>> = Vec::new();
    let ghost styles0 = doc.styles@;
    let ghost maps0 = text_values(doc.style_maps@);
    let ghost feats0 = doc.features@;
    let ghost name0 = doc.name;
    let mut i: usize = 0;
    while i < folder.elements.len()
        invariant
            i <= folder.elements@.len(),
            features_of(folder.elements@.take(i as int), features@),
            doc.styles@ == apply_styles(styles0, nodes_styles(folder.elements@.take(i as int))),
            text_values(doc.style_maps@) == apply_maps(maps0, nodes_maps(folder.elements@.take(i as int))),
            doc.features@ == feats0,
            doc.name == name0,
        decreases folder.elements@.len() - i,
    {
        let ghost before = features@;
        let ghost styles_before = doc.styles@;
        let ghost maps_before = text_values(doc.style_maps@);
        let ghost el = folder.elements@[i as int];
        assert(folder.elements@.take(i + 1).drop_last() =~= folder.elements@.take(i as int));
        assert(folder.elements@.take(i + 1).last() == el);
        proof {
            lemma_apply_concat(styles0, nodes_styles(folder.elements@.take(i as int)), node_styles(el),
                maps0, nodes_maps(folder.elements@.take(i as int)), node_maps(el));
        }
        match &folder.elements[i] {
            KmlNode::Placemark(pm) => {
                let pf = convert_placemark(pm);
                assert(el == KmlNode::Placemark(*pm));
                assert(feature_of(el, pf));
                features.push(pf);
                assert(features@.drop_last() =~= before);
                assert(features@.last() == pf);
                assert(is_feature_node(el));
                assert(features_of(folder.elements@.take(i + 1), features@));
                assert(apply_styles(styles_before, node_styles(el)) =~= styles_before);
                assert(apply_maps(maps_before, node_maps(el)) =~= maps_before);
            },
            KmlNode::Folder(sub_folder) => {
                let sub = convert_folder(sub_folder, doc);
                features.push(sub);
                assert(features@.drop_last() =~= before);
                assert(features_of(folder.elements@.take(i + 1), features@));
            },
            KmlNode::Style(style) => {
                insert_style(style, doc);
                assert(apply_maps(maps_before, node_maps(el)) =~= maps_before);
            },
            KmlNode::StyleMap(style_map) => {
                insert_style_map(style_map, doc);
                assert(apply_styles(styles_before, node_styles(el)) =~= styles_before);
            },
            _ => {
                assert(apply_styles(styles_before, node_styles(el)) =~= styles_before);
                assert(apply_maps(maps_before, node_maps(el)) =~= maps_before);
            },
        }
        i = i + 1;
    }
    assert(folder.elements@.take(folder.elements@.len() as int) =~= folder.elements@);
    Feature::Folder { name, features }
}

/// The elements that `n` adds at document level: the children of a
/// `<Document>`, the document-level elements of each child of a `<kml>`
/// root, or `n` itself.
pub open spec fn level_items<N>(n: KmlNode<N>) -> Seq<KmlNode<N>>
    decreases n,
{
    match n {
        KmlNode::KmlDocument { elements } => levels_items(elements@),
        KmlNode::Document { elements } => elements@,
        _ => seq![n],
    }
}

pub open spec fn levels_items<N>(ns: Seq<KmlNode<N>>) -> Seq<KmlNode<N>>
    decreases ns,
{
    if ns.len() == 0 {
        Seq::empty()
    } else {
        levels_items(ns.drop_last()) + level_items(ns.last())
    }
}

/// The document names that `n` sets, in order: the `<name>` elements of each
/// `<Document>` reached from the root.
pub open spec fn names_of<N>(n: KmlNode<N>) -> Seq<Option<String>>
    decreases n,
{
    match n {
        KmlNode::KmlDocument { elements } => levels_names(elements@),
        KmlNode::Document { elements } => document_names(elements@),
        _ => Seq::empty(),
    }
}

pub open spec fn levels_names<N>(ns: Seq<KmlNode<N>>) -> Seq<Option<String>>
    decreases ns,
{
    if ns.len() == 0 {
        Seq::empty()
    } else {
        levels_names(ns.drop_last()) + names_of(ns.last())
    }
}

proof fn lemma_doc_after_same<N>(d: KmlDocument<N>)
    ensures
        doc_after(d, d, Seq::empty(), Seq::empty()),
{
    assert(d.features@.take(d.features@.len() as int) =~= d.features@);
    assert(d.features@.skip(d.features@.len() as int) =~= Seq::<Feature<N>>::empty());
}

/// An element that adds nothing at document level.
proof fn lemma_doc_after_inert<N>(d: KmlDocument<N>, n: KmlNode<N>)
    requires
        !is_feature_node(n),
        node_styles(n).len() == 0,
        node_maps(n).len() == 0,
    ensures
        doc_after(d, d, seq![n], Seq::empty()),
{
    lemma_doc_after_same(d);
    assert(seq![n].drop_last() =~= Seq::<KmlNode<N>>::empty());
    assert(nodes_styles(seq![n]) =~= Seq::<(String, Style<N>)>::empty());
    assert(nodes_maps(seq![n]) =~= Seq::<(Seq<char>, Seq<char>)>::empty());
}

fn process_document_child<N: Copy>(kml: &KmlNode<N>, doc: &mut KmlDocument<N>)
    ensures
        doc_after(*old(doc), *final(doc), seq![*kml], Seq::empty()),
{
    let ghost d0 = *doc;
    let ghost one = seq![*kml];
    proof {
        assert(one.drop_last() =~= Seq::<KmlNode<N>>::empty());
        assert(one.last() == *kml);
        assert(nodes_styles(Seq::<KmlNode<N>>::empty()) == Seq::<(String, Style<N>)>::empty());
        assert(nodes_maps(Seq::<KmlNode<N>>::empty()) == Seq::<(Seq<char>, Seq<char>)>::empty());
        assert(nodes_styles(one) =~= node_styles(*kml));
        assert(nodes_maps(one) =~= node_maps(*kml));
        assert(d0.features@.take(d0.features@.len() as int) =~= d0.features@);
    }
    match kml {
        KmlNode::Folder(folder) => {
            let feature = convert_folder(folder, doc);
            assert(node_styles(*kml) == nodes_styles(folder.elements@));
            assert(node_maps(*kml) == nodes_maps(folder.elements@));
            assert(features_of(Seq::<KmlNode<N>>::empty(), Seq::<Feature<N>>::empty()));
            assert(feature_of(*kml, feature));
            doc.features.push(feature);
            assert(doc.features@.take(d0.features@.len() as int) =~= d0.features@);
            assert(doc.features@.skip(d0.features@.len() as int) =~= seq![feature]);
            assert(seq![feature].drop_last() =~= Seq::<Feature<N>>::empty());
            assert(features_of(one, seq![feature]));
            assert(doc_after(d0, *doc, one, Seq::empty()));
        },
        KmlNode::Placemark(pm) => {
            let feature = convert_placemark(pm);
            assert(feature_of(*kml, feature));
            doc.features.push(feature);
            assert(doc.features@.take(d0.features@.len() as int) =~= d0.features@);
            assert(doc.features@.skip(d0.features@.len() as int) =~= seq![feature]);
            assert(seq![feature].drop_last() =~= Seq::<Feature<N>>::empty());
            assert(apply_styles(d0.styles@, node_styles(*kml)) =~= d0.styles@);
            assert(apply_maps(text_values(d0.style_maps@), node_maps(*kml)) =~= text_values(d0.style_maps@));
            assert(features_of(Seq::<KmlNode<N>>::empty(), Seq::<Feature<N>>::empty()));
            assert(features_of(one, seq![feature]));
            assert(doc_after(d0, *doc, one, Seq::empty()));
        },
        KmlNode::Style(style) => {
            insert_style(style, doc);
            assert(doc.features@.skip(d0.features@.len() as int) =~= Seq::<Feature<N>>::empty());
            assert(apply_maps(text_values(d0.style_maps@), node_maps(*kml)) =~= text_values(d0.style_maps@));
            assert(features_of(Seq::<KmlNode<N>>::empty(), Seq::<Feature<N>>::empty()));
            assert(doc_after(d0, *doc, one, Seq::empty()));
        },
        KmlNode::StyleMap(style_map) => {
            insert_style_map(style_map, doc);
            assert(doc.features@.skip(d0.features@.len() as int) =~= Seq::<Feature<N>>::empty());
            assert(apply_styles(d0.styles@, node_styles(*kml)) =~= d0.styles@);
            assert(features_of(Seq::<KmlNode<N>>::empty(), Seq::<Feature<N>>::empty()));
            assert(doc_after(d0, *doc, one, Seq::empty()));
        },
        _ => {
            proof {
                lemma_doc_after_inert(d0, *kml);
            }
        },
    }
}

/// Adds what the KML element `kml` holds to `doc`.
pub fn convert_kml<N: Copy>(kml: &KmlNode<N>, doc: &mut KmlDocument<N>)
    ensures
        doc_after(*old(doc), *final(doc), level_items(*kml), names_of(*kml)),
    decreases kml,
{
    let ghost d0 = *doc;
    match kml {
        KmlNode::KmlDocument { elements } => {
            convert_kmls(elements.as_slice(), doc);
        },
        KmlNode::Document { elements } => {
            // The document's name comes from its <name> element(s).
            let mut i: usize = 0;
            assert(elements@.take(0) =~= Seq::<KmlNode<N>>::empty());
            while i < elements.len()
                invariant
                    i <= elements@.len(),
                    doc.features@ == d0.features@,
                    doc.styles@ == d0.styles@,
                    doc.style_maps@ == d0.style_maps@,
                    doc.name == name_after(d0.name, document_names(elements@.take(i as int))),
                decreases elements@.len() - i,
            {
                assert(elements@.take(i + 1).drop_last() =~= elements@.take(i as int));
                if let KmlNode::Element(e) = &elements[i] {
                    if str_eq(e.name.as_str(), "name") {
                        doc.name = clone_text(&e.content);
                    }
                }
                proof {
                    let t = elements@.take(i as int);
                    let names = document_names(elements@.take(i + 1));
                    if names.len() > document_names(t).len() {
                        assert(names.last() == doc.name);
                    } else {
                        assert(names =~= document_names(t));
                    }
                }
                i = i + 1;
            }
            let ghost d1 = *doc;
            proof {
                lemma_doc_after_same(d1);
                assert(d1.features@.take(d0.features@.len() as int) =~= d0.features@);
                assert(elements@.take(elements@.len() as int) =~= elements@);
                assert(doc_after(d0, d1, Seq::empty(), document_names(elements@)));
            }
            // Then everything else.
            let mut j: usize = 0;
            while j < elements.len()
                invariant
                    j <= elements@.len(),
                    doc_after(d1, *doc, elements@.take(j as int), Seq::empty()),
                decreases elements@.len() - j,
            {
                let ghost d2 = *doc;
                let ghost el = elements@[j as int];
                match &elements[j] {
                    KmlNode::Element(_) => {
                        proof {
                            lemma_doc_after_inert(d2, el);
                        }
                    },
                    _ => process_document_child(&elements[j], doc),
                }
                proof {
                    let t = elements@.take(j as int);
                    assert(elements@.take(j + 1) =~= t + seq![el]);
                    lemma_doc_after_compose(d1, d2, *doc, t, Seq::empty(), seq![el], Seq::empty());
                    assert(Seq::<Option<String>>::empty() + Seq::<Option<String>>::empty() =~= Seq::<Option<String>>::empty());
                }
                j = j + 1;
            }
            proof {
                assert(elements@.take(elements@.len() as int) =~= elements@);
                lemma_doc_after_compose(d0, d1, *doc, Seq::empty(), document_names(elements@), elements@, Seq::empty());
                assert(Seq::<KmlNode<N>>::empty() + elements@ =~= elements@);
                assert(document_names(elements@) + Seq::<Option<String>>::empty() =~= document_names(elements@));
            }
        },
        _ => {
            process_document_child(kml, doc);
        },
    }
}

fn convert_kmls<N: Copy>(elements: &[KmlNode<N>], doc: &mut KmlDocument<N>)
    ensures
        doc_after(*old(doc), *final(doc), levels_items(elements@), levels_names(elements@)),
    decreases elements@,
{
    let ghost d0 = *doc;
    proof {
        lemma_doc_after_same(d0);
        assert(elements@.take(0) =~= Seq::<KmlNode<N>>::empty());
    }
    let mut i: usize = 0;
    while i < elements.len()
        invariant
            i <= elements@.len(),
            doc_after(d0, *doc, levels_items(elements@.take(i as int)), levels_names(elements@.take(i as int))),
        decreases elements@.len() - i,
    {
        let ghost d1 = *doc;
        convert_kml(&elements[i], doc);
        proof {
            let t = elements@.take(i as int);
            let el = elements@[i as int];
            assert(elements@.take(i + 1).drop_last() =~= t);
            lemma_doc_after_compose(d0, d1, *doc, levels_items(t), levels_names(t), level_items(el), names_of(el));
        }
        i = i + 1;
    }
    assert(elements@.take(elements@.len() as int) =~= elements@);
}

/// The document that a KML element tree describes: its name, its folders and
/// placemarks as features, and its styles and style maps.
pub fn convert_document<N: Copy>(kml: &KmlNode<N>) -> (doc: KmlDocument<N>)
    ensures
        doc.name == name_after(None, names_of(*kml)),
        features_of(level_items(*kml), doc.features@),
        doc.styles@ == apply_styles(Map::empty(), nodes_styles(level_items(*kml))),
        text_values(doc.style_maps@) == apply_maps(Map::empty(), nodes_maps(level_items(*kml))),
{
    let mut doc = KmlDocument {
        name: None,
        features: Vec::new(),
        styles: TextMap::new(),
        style_maps: TextMap::new(),
    };
    let ghost d0 = doc;
    assert(text_values(d0.style_maps@) =~= Map::<Seq<char>, Seq<char>>::empty());
    convert_kml(kml, &mut doc);
    assert(doc.features@.skip(0) =~= doc.features@);
    doc
}

/// A StyleMap resolves to its "normal" style: in a document converted from
/// `kml`, an id that no style has but that a style map maps (the last one
/// with that id, through its "normal" pair) to a defined style resolves to
/// that style.
pub proof fn lemma_style_map_resolves<N>(kml: KmlNode<N>, doc: KmlDocument<N>, id: Seq<char>)
    requires
        doc.styles@ == apply_styles(Map::empty(), nodes_styles(level_items(kml))),
        text_values(doc.style_maps@) == apply_maps(Map::empty(), nodes_maps(level_items(kml))),
        apply_maps(Map::empty(), nodes_maps(level_items(kml))).dom().contains(id),
        !doc.styles@.dom().contains(id),
        doc.styles@.dom().contains(apply_maps(Map::empty(), nodes_maps(level_items(kml)))[id]),
    ensures
        crate::model::resolved_style(doc.styles@, doc.style_maps@, id) == Some(
            doc.styles@[apply_maps(Map::empty(), nodes_maps(level_items(kml)))[id]],
        ),
{
    assert(text_values(doc.style_maps@).dom().contains(id));
    assert(doc.style_maps@.dom().contains(id));
    assert(text_values(doc.style_maps@)[id] == doc.style_maps@[id]@);
}

} // verus!
