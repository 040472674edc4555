use vstd::prelude::*;

use crate::model::{Coord, Feature, Geometry, KmlDocument};
use crate::tiles::render::MapColor;

verus! {

/// A KML drawing step, before projection onto the canvas.
pub enum DrawCmd<'a, N> {
    Line { from: &'a Coord<N>, to: &'a Coord<N>, color: MapColor },
    Point { at: &'a Coord<N>, color: MapColor },
}

/// A drawing step as plain values.
pub enum DrawView<N> {
    Line(Coord<N>, Coord<N>, MapColor),
    Point(Coord<N>, MapColor),
}

pub open spec fn draw_view<N>(c: DrawCmd<N>) -> DrawView<N> {
    match c {
        DrawCmd::Line { from, to, color } => DrawView::Line(*from, *to, color),
        DrawCmd::Point { at, color } => DrawView::Point(*at, color),
    }
}

pub open spec fn draws_view<N>(cs: Seq<DrawCmd<N>>) -> Seq<DrawView<N>> {
    cs.map_values(|c: DrawCmd<N>| draw_view(c))
}

/// The colour of a placemark: highlighted when its path is the selected one.
pub open spec fn path_color(path: Seq<usize>, selected: Option<Seq<usize>>) -> MapColor {
    if selected == Some(path) {
        MapColor::Yellow
    } else {
        MapColor::White
    }
}

/// The lines between consecutive points of a point list.
pub open spec fn line_draws<N>(cs: Seq<Coord<N>>, c: MapColor) -> Seq<DrawView<N>> {
    Seq::new(
        if cs.len() >= 2 {
            (cs.len() - 1) as nat
        } else {
            0
        },
        |k: int| DrawView::Line(cs[k], cs[k + 1], c),
    )
}

pub open spec fn rings_draws<N>(rings: Seq<Vec<Coord<N>>>, c: MapColor) -> Seq<DrawView<N>>
    decreases rings.len(),
{
    if rings.len() == 0 {
        Seq::empty()
    } else {
        rings_draws(rings.drop_last(), c) + line_draws(rings.last()@, c)
    }
}

/// How a geometry is drawn: a point as a point, a line and each ring of a
/// polygon as the segments between consecutive points, a collection as its
/// members in order.
pub open spec fn geom_draws<N>(g: Geometry<N>, c: MapColor) -> Seq<DrawView<N>>
    decreases g,
{
    match g {
        Geometry::Point(p) => seq![DrawView::Point(p, c)],
        Geometry::LineString(cs) => line_draws(cs@, c),
        Geometry::Polygon(rings) => rings_draws(rings@, c),
        Geometry::MultiGeometry(gs) => geoms_draws(gs@, c),
    }
}

pub open spec fn geoms_draws<N>(gs: Seq<Geometry<N>>, c: MapColor) -> Seq<DrawView<N>>
    decreases gs,
{
    if gs.len() == 0 {
        Seq::empty()
    } else {
        geoms_draws(gs.drop_last(), c) + geom_draws(gs.last(), c)
    }
}

/// How a feature at `path` is drawn: a placemark by its geometry, in the
/// colour of its selection state; a folder by its children.
pub open spec fn feature_draws<N>(f: Feature<N>, path: Seq<usize>, selected: Option<Seq<usize>>) -> Seq<
    DrawView<N>,
>
    decreases f,
{
    match f {
        Feature::Folder { features, .. } => children_draws(features@, path, selected),
        Feature::Placemark { geometry, .. } => match geometry {
            Some(g) => geom_draws(g, path_color(path, selected)),
            None => Seq::empty(),
        },
    }
}

/// How the children `fs` of the node at `prefix` are drawn, in order.
pub open spec fn children_draws<N>(fs: Seq<Feature<N>>, prefix: Seq<usize>, selected: Option<Seq<usize>>) -> Seq<
    DrawView<N>,
>
    decreases fs,
{
    if fs.len() == 0 {
        Seq::empty()
    } else {
        children_draws(fs.drop_last(), prefix, selected) + feature_draws(
            fs.last(),
            prefix.push((fs.len() - 1) as usize),
            selected,
        )
    }
}

pub open spec fn opt_path(p: Option<&[usize]>) -> Option<Seq<usize>> {
    match p {
        Some(s) => Some(s@),
        None => None,
    }
}

/// Whether two index paths are equal.
pub fn paths_equal(a: &[usize], b: &[usize]) -> (r: bool)
    ensures
        r == (a@ == b@),
{
    if a.len() != b.len() {
        return false;
    }
    let mut i: usize = 0;
    while i < a.len()
        invariant
            a@.len() == b@.len(),
            i <= a@.len(),
            forall|k: int| 0 <= k < i ==> a@[k] == b@[k],
        decreases a@.len() - i,
    {
        if a[i] != b[i] {
            return false;
        }
        i = i + 1;
    }
    assert(a@ =~= b@);
    true
}

fn is_selected(path: &[usize], selected: Option<&[usize]>) -> (r: bool)
    ensures
        r == (opt_path(selected) == Some(path@)),
{
    match selected {
        Some(sp) => paths_equal(sp, path),
        None => false,
    }
}

fn push_line<'a, N>(coords: &'a Vec<Coord<N>>, color: MapColor, cmds: &mut Vec<DrawCmd<'a, N>>)
    ensures
        draws_view(final(cmds)@) == draws_view(old(cmds)@) + line_draws(coords@, color),
{
    let ghost start = draws_view(cmds@);
    if coords.len() < 2 {
        assert(line_draws(coords@, color) =~= Seq::<DrawView<N>>::empty());
        assert(draws_view(cmds@) =~= start + line_draws(coords@, color));
        return;
    }
    let mut k: usize = 0;
    while k < coords.len() - 1
        invariant
            coords@.len() >= 2,
            k + 1 <= coords@.len(),
            draws_view(cmds@) == start + line_draws(coords@, color).take(k as int),
        decreases coords@.len() - k,
    {
        let ghost prev = cmds@;
        cmds.push(DrawCmd::Line { from: &coords[k], to: &coords[k + 1], color });
        assert(draws_view(cmds@) =~= draws_view(prev).push(
            DrawView::Line(coords@[k as int], coords@[k + 1], color),
        ));
        assert(line_draws(coords@, color).take(k + 1) =~= line_draws(coords@, color).take(
            k as int,
        ).push(DrawView::Line(coords@[k as int], coords@[k + 1], color)));
        k = k + 1;
    }
    assert(line_draws(coords@, color).take(k as int) =~= line_draws(coords@, color));
}

fn collect_geom_segments<'a, N>(geom: &'a Geometry<N>, color: MapColor, cmds: &mut Vec<DrawCmd<'a, N>>)
    ensures
        draws_view(final(cmds)@) == draws_view(old(cmds)@) + geom_draws(*geom, color),
    decreases geom,
{
    let ghost start = draws_view(cmds@);
    match geom {
        Geometry::Point(coord) => {
            cmds.push(DrawCmd::Point { at: coord, color });
            assert(draws_view(cmds@) =~= start + geom_draws(*geom, color));
        },
        Geometry::LineString(coords) => {
            push_line(coords, color, cmds);
        },
        Geometry::Polygon(rings) => {
            let mut r: usize = 0;
            while r < rings.len()
                invariant
                    r <= rings@.len(),
                    draws_view(cmds@) == start + rings_draws(rings@.take(r as int), color),
                decreases rings@.len() - r,
            {
                assert(rings@.take(r + 1).drop_last() =~= rings@.take(r as int));
                push_line(&rings[r], color, cmds);
                r = r + 1;
            }
            assert(rings@.take(r as int) =~= rings@);
        },
        Geometry::MultiGeometry(geoms) => {
            collect_geoms_segments(geoms.as_slice(), color, cmds);
        },
    }
}

fn collect_geoms_segments<'a, N>(geoms: &'a [Geometry<N>], color: MapColor, cmds: &mut Vec<DrawCmd<'a, N>>)
    ensures
        draws_view(final(cmds)@) == draws_view(old(cmds)@) + geoms_draws(geoms@, color),
    decreases geoms@,
{
    let ghost start = draws_view(cmds@);
    let mut g: usize = 0;
    while g < geoms.len()
        invariant
            g <= geoms@.len(),
            draws_view(cmds@) == start + geoms_draws(geoms@.take(g as int), color),
        decreases geoms@.len() - g,
    {
        assert(geoms@.take(g + 1).drop_last() =~= geoms@.take(g as int));
        collect_geom_segments(&geoms[g], color, cmds);
        g = g + 1;
    }
    assert(geoms@.take(g as int) =~= geoms@);
}

fn collect_feature_segments<'a, N>(
    feature: &'a Feature<N>,
    path: &[usize],
    selected: Option<&[usize]>,
    cmds: &mut Vec<DrawCmd<'a, N>>,
)
    ensures
        draws_view(final(cmds)@) == draws_view(old(cmds)@) + feature_draws(
            *feature,
            path@,
            opt_path(selected),
        ),
    decreases feature,
{
    match feature {
        Feature::Folder { features, .. } => {
            collect_children_segments(features.as_slice(), path, selected, cmds);
        },
        Feature::Placemark { geometry, .. } => {
            if let Some(geom) = geometry {
                let color = if is_selected(path, selected) {
                    MapColor::Yellow
                } else {
                    MapColor::White
                };
                collect_geom_segments(geom, color, cmds);
            } else {
                assert(draws_view(cmds@) =~= draws_view(cmds@) + Seq::<DrawView<N>>::empty());
            }
        },
    }
}

fn collect_children_segments<'a, N>(
    features: &'a [Feature<N>],
    path: &[usize],
    selected: Option<&[usize]>,
    cmds: &mut Vec<DrawCmd<'a, N>>,
)
    ensures
        draws_view(final(cmds)@) == draws_view(old(cmds)@) + children_draws(
            features@,
            path@,
            opt_path(selected),
        ),
    decreases features@,
{
    let ghost start = draws_view(cmds@);
    let mut i: usize = 0;
    while i < features.len()
        invariant
            i <= features@.len(),
            draws_view(cmds@) == start + children_draws(
                features@.take(i as int),
                path@,
                opt_path(selected),
            ),
        decreases features@.len() - i,
    {
        assert(features@.take(i + 1).drop_last() =~= features@.take(i as int));
        let mut child_path = vstd::slice::slice_to_vec(path);
        child_path.push(i);
        assert(child_path@ =~= path@.push(i));
        collect_feature_segments(&features[i], child_path.as_slice(), selected, cmds);
        i = i + 1;
    }
    assert(features@.take(i as int) =~= features@);
}

/// The drawing steps of the document's KML overlay, in document order; the
/// placemark at `selected` is drawn highlighted.
pub fn collect_segments<'a, N>(doc: &'a KmlDocument<N>, selected: Option<&[usize]>) -> (cmds: Vec<
    DrawCmd<'a, N>,
>)
    ensures
        draws_view(cmds@) == children_draws(doc.features@, Seq::empty(), opt_path(selected)),
{
    let mut cmds: Vec<DrawCmd<'a, N>> = Vec::new();
    let top: Vec<usize> = Vec::new();
    assert(draws_view(cmds@) =~= Seq::<DrawView<N>>::empty());
    collect_children_segments(doc.features.as_slice(), top.as_slice(), selected, &mut cmds);
    cmds
}

// -- Labels --

/// Where a KML label is placed: at a point of the geometry, or at the
/// centroid of a ring (the average of its points, which the caller computes).
pub enum LabelAnchor<'a, N> {
    At(&'a Coord<N>),
    RingCentroid(&'a Vec<Coord<N>>),
}

pub enum AnchorView<N> {
    At(Coord<N>),
    RingCentroid(Seq<Coord<N>>),
}

pub open spec fn anchor_view<N>(a: LabelAnchor<N>) -> AnchorView<N> {
    match a {
        LabelAnchor::At(c) => AnchorView::At(*c),
        LabelAnchor::RingCentroid(r) => AnchorView::RingCentroid(r@),
    }
}

/// A representative place for a geometry's label: a point itself, the
/// middle point of a line, the centroid of a polygon's outer ring, the
/// anchor of a collection's first member; none for an empty geometry.
pub open spec fn label_anchor_of<N>(g: Geometry<N>) -> Option<AnchorView<N>>
    decreases g,
{
    match g {
        Geometry::Point(c) => Some(AnchorView::At(c)),
        Geometry::LineString(cs) => if cs@.len() == 0 {
            None
        } else {
            Some(AnchorView::At(cs@[(cs@.len() / 2) as int]))
        },
        Geometry::Polygon(rings) => if rings@.len() == 0 || rings@[0]@.len() == 0 {
            None
        } else {
            Some(AnchorView::RingCentroid(rings@[0]@))
        },
        Geometry::MultiGeometry(gs) => if gs@.len() == 0 {
            None
        } else {
            label_anchor_of(gs@[0])
        },
    }
}

/// Pick a representative coordinate for label placement.
pub fn label_coord<N>(geom: &Geometry<N>) -> (r: Option<LabelAnchor<'_, N>>)
    ensures
        match r {
            Some(a) => label_anchor_of(*geom) == Some(anchor_view(a)),
            None => label_anchor_of(*geom) is None,
        },
    decreases geom,
{
    match geom {
        Geometry::Point(c) => Some(LabelAnchor::At(c)),
        Geometry::LineString(cs) => {
            if cs.len() == 0 {
                None
            } else {
                Some(LabelAnchor::At(&cs[cs.len() / 2]))
            }
        },
        Geometry::Polygon(rings) => {
            if rings.len() == 0 || rings[0].len() == 0 {
                None
            } else {
                Some(LabelAnchor::RingCentroid(&rings[0]))
            }
        },
        Geometry::MultiGeometry(gs) => {
            if gs.len() == 0 {
                None
            } else {
                label_coord(&gs[0])
            }
        },
    }
}

/// The label of a KML placemark.
pub struct KmlLabel<'a, N> {
    pub anchor: LabelAnchor<'a, N>,
    pub text: String,
    pub color: MapColor,
}

pub open spec fn kml_labels_view<N>(ls: Seq<KmlLabel<N>>) -> Seq<(AnchorView<N>, Seq<char>, MapColor)> {
    ls.map_values(|l: KmlLabel<N>| (anchor_view(l.anchor), l.text@, l.color))
}

/// The labels of a feature at `path`: a placemark with a geometry that has
/// an anchor is labelled with its name; a folder by its children's labels.
pub open spec fn feature_labels<N>(f: Feature<N>, path: Seq<usize>, selected: Option<Seq<usize>>) -> Seq<
    (AnchorView<N>, Seq<char>, MapColor),
>
    decreases f,
{
    match f {
        Feature::Folder { features, .. } => children_labels(features@, path, selected),
        Feature::Placemark { name, geometry, .. } => match geometry {
            Some(g) => match label_anchor_of(g) {
                Some(a) => seq![(a, name@, path_color(path, selected))],
                None => Seq::empty(),
            },
            None => Seq::empty(),
        },
    }
}

pub open spec fn children_labels<N>(fs: Seq<Feature<N>>, prefix: Seq<usize>, selected: Option<Seq<usize>>) -> Seq<
    (AnchorView<N>, Seq<char>, MapColor),
>
    decreases fs,
{
    if fs.len() == 0 {
        Seq::empty()
    } else {
        children_labels(fs.drop_last(), prefix, selected) + feature_labels(
            fs.last(),
            prefix.push((fs.len() - 1) as usize),
            selected,
        )
    }
}

fn collect_feature_labels<'a, N>(
    feature: &'a Feature<N>,
    path: &[usize],
    selected: Option<&[usize]>,
    labels: &mut Vec<KmlLabel<'a, N>>,
)
    ensures
        kml_labels_view(final(labels)@) == kml_labels_view(old(labels)@) + feature_labels(
            *feature,
            path@,
            opt_path(selected),
        ),
    decreases feature,
{
    let ghost start = kml_labels_view(labels@);
    match feature {
        Feature::Folder { features, .. } => {
            collect_children_labels(features.as_slice(), path, selected, labels);
        },
        Feature::Placemark { name, geometry, .. } => {
            if let Some(geom) = geometry {
                if let Some(anchor) = label_coord(geom) {
                    let color = if is_selected(path, selected) {
                        MapColor::Yellow
                    } else {
                        MapColor::White
                    };
                    labels.push(KmlLabel { anchor, text: name.clone(), color });
                }
            }
            assert(kml_labels_view(labels@) =~= start + feature_labels(
                *feature,
                path@,
                opt_path(selected),
            ));
        },
    }
}

fn collect_children_labels<'a, N>(
    features: &'a [Feature<N>],
    path: &[usize],
    selected: Option<&[usize]>,
    labels: &mut Vec<KmlLabel<'a, N>>,
)
    ensures
        kml_labels_view(final(labels)@) == kml_labels_view(old(labels)@) + children_labels(
            features@,
            path@,
            opt_path(selected),
        ),
    decreases features@,
{
    let ghost start = kml_labels_view(labels@);
    let mut i: usize = 0;
    while i < features.len()
        invariant
            i <= features@.len(),
            kml_labels_view(labels@) == start + children_labels(
                features@.take(i as int),
                path@,
                opt_path(selected),
            ),
        decreases features@.len() - i,
    {
        assert(features@.take(i + 1).drop_last() =~= features@.take(i as int));
        let mut child_path = vstd::slice::slice_to_vec(path);
        child_path.push(i);
        assert(child_path@ =~= path@.push(i));
        collect_feature_labels(&features[i], child_path.as_slice(), selected, labels);
        i = i + 1;
    }
    assert(features@.take(i as int) =~= features@);
}

/// The labels of the document's placemarks, in document order; the
/// placemark at `selected` is labelled highlighted.
pub fn collect_labels<'a, N>(doc: &'a KmlDocument<N>, selected: Option<&[usize]>) -> (labels: Vec<
    KmlLabel<'a, N>,
>)
    ensures
        kml_labels_view(labels@) == children_labels(doc.features@, Seq::empty(), opt_path(selected)),
{
    let mut labels: Vec<KmlLabel<'a, N>> = Vec::new();
    let top: Vec<usize> = Vec::new();
    assert(kml_labels_view(labels@) =~= Seq::<(AnchorView<N>, Seq<char>, MapColor)>::empty());
    collect_children_labels(doc.features.as_slice(), top.as_slice(), selected, &mut labels);
    labels
}

/// The draws of a list of geometries, drawn one after another.
proof fn lemma_geoms_draws_flatten<N>(gs: Seq<Geometry<N>>, c: MapColor)
    ensures
        geoms_draws(gs, c) == gs.map_values(|g: Geometry<N>| geom_draws(g, c)).flatten(),
    decreases gs.len(),
{
    let f = |g: Geometry<N>| geom_draws(g, c);
    if gs.len() == 0 {
        assert(gs.map_values(f) =~= Seq::<Seq<DrawView<N>>>::empty());
    } else {
        lemma_geoms_draws_flatten(gs.drop_last(), c);
        assert(gs.map_values(f) =~= gs.drop_last().map_values(f).push(f(gs.last())));
        gs.drop_last().map_values(f).lemma_flatten_push(f(gs.last()));
    }
}

/// Law: a MultiGeometry is drawn as all its members, in order: its draws
/// are the draws of each member concatenated, so their number is the sum of
/// the members' numbers of draws.
pub proof fn lemma_collection_draws_all_members<N>(gs: Vec<Geometry<N>>, c: MapColor)
    ensures
        geom_draws(Geometry::MultiGeometry(gs), c) == gs@.map_values(|g: Geometry<N>| geom_draws(g, c)).flatten(),
        forall|i: int| 0 <= i < gs@.len() ==> #[trigger] geom_draws(gs@[i], c).len()
            <= geom_draws(Geometry::MultiGeometry(gs), c).len(),
{
    lemma_geoms_draws_flatten(gs@, c);
    let parts = gs@.map_values(|g: Geometry<N>| geom_draws(g, c));
    assert forall|i: int| 0 <= i < gs@.len() implies #[trigger] geom_draws(gs@[i], c).len()
        <= geom_draws(Geometry::MultiGeometry(gs), c).len() by {
        parts.lemma_flatten_length_ge_single_element_length(i);
        parts.lemma_flatten_and_flatten_alt_are_equivalent();
        assert(parts[i] == geom_draws(gs@[i], c));
    }
}

} // verus!
