use vstd::prelude::*;

use crate::text_map::TextMap;

verus! {

/// A position. The library is generic over the number type `N` of the
/// coordinates; it only carries them.
pub struct Coord<N> {
    pub lon: N,
    pub lat: N,
    pub alt: Option<N>,
}

pub enum Geometry<N> {
    Point(Coord<N>),
    LineString(Vec<Coord<N>>),
    Polygon(Vec<Vec<Coord<N>>>),
    MultiGeometry(Vec<Geometry<N>>),
}

pub enum Feature<N> {
    Folder { name: String, features: Vec<Feature<N>> },
    Placemark {
        name: String,
        geometry: Option<Geometry<N>>,
        style_id: Option<String>,
        description: Option<String>,
    },
}

pub struct Style<N> {
    pub id: String,
    pub line_color: Option<String>,
    pub line_width: Option<N>,
    pub poly_color: Option<String>,
    pub icon_href: Option<String>,
}

pub struct KmlDocument<N> {
    pub name: Option<String>,
    pub features: Vec<Feature<N>>,
    pub styles: TextMap<Style<N>>,
    /// Maps StyleMap id to target Style id (the "normal" pair).
    /// KML StyleMap is an indirection layer Google Maps exports use heavily.
    pub style_maps: TextMap<String>,
}

// ---------------------------------------------------------------------------
// Coordinates of a document, in document order.
// ---------------------------------------------------------------------------

pub open spec fn geometry_coords<N>(g: Geometry<N>) -> Seq<Coord<N>>
    decreases g,
{
    match g {
        Geometry::Point(c) => seq![c],
        Geometry::LineString(cs) => cs@,
        Geometry::Polygon(rings) => rings_coords(rings@),
        Geometry::MultiGeometry(gs) => geometries_coords(gs@),
    }
}

pub open spec fn rings_coords<N>(rings: Seq<Vec<Coord<N>>>) -> Seq<Coord<N>>
    decreases rings.len(),
{
    if rings.len() == 0 {
        Seq::empty()
    } else {
        rings_coords(rings.drop_last()) + rings.last()@
    }
}

pub open spec fn geometries_coords<N>(gs: Seq<Geometry<N>>) -> Seq<Coord<N>>
    decreases gs,
{
    if gs.len() == 0 {
        Seq::empty()
    } else {
        geometries_coords(gs.drop_last()) + geometry_coords(gs.last())
    }
}

pub open spec fn feature_coords<N>(f: Feature<N>) -> Seq<Coord<N>>
    decreases f,
{
    match f {
        Feature::Folder { features, .. } => features_coords(features@),
        Feature::Placemark { geometry, .. } => match geometry {
            Some(g) => geometry_coords(g),
            None => Seq::empty(),
        },
    }
}

pub open spec fn features_coords<N>(fs: Seq<Feature<N>>) -> Seq<Coord<N>>
    decreases fs,
{
    if fs.len() == 0 {
        Seq::empty()
    } else {
        features_coords(fs.drop_last()) + feature_coords(fs.last())
    }
}

pub open spec fn refs_view<N>(s: Seq<&Coord<N>>) -> Seq<Coord<N>> {
    s.map_values(|c: &Coord<N>| *c)
}

proof fn lemma_refs_push<N>(s: Seq<&Coord<N>>, c: &Coord<N>)
    ensures
        refs_view(s.push(c)) == refs_view(s).push(*c),
{
    assert(refs_view(s.push(c)) =~= refs_view(s).push(*c));
}

fn push_all<'a, N>(cs: &'a Vec<Coord<N>>, coords: &mut Vec<&'a Coord<N>>)
    ensures
        refs_view(final(coords)@) == refs_view(old(coords)@) + cs@,
{
    let ghost start = refs_view(coords@);
    let mut i: usize = 0;
    while i < cs.len()
        invariant
            i <= cs@.len(),
            refs_view(coords@) == start + cs@.take(i as int),
        decreases cs@.len() - i,
    {
        proof {
            lemma_refs_push(coords@, &cs@[i as int]);
            assert(cs@.take(i + 1) =~= cs@.take(i as int).push(cs@[i as int]));
        }
        coords.push(&cs[i]);
        i = i + 1;
    }
    assert(cs@.take(cs@.len() as int) =~= cs@);
}

fn collect_geom_coords<'a, N>(geom: &'a Geometry<N>, coords: &mut Vec<&'a Coord<N>>)
    ensures
        refs_view(final(coords)@) == refs_view(old(coords)@) + geometry_coords(*geom),
    decreases geom,
{
    match geom {
        Geometry::Point(c) => {
            proof {
                lemma_refs_push(coords@, c);
            }
            coords.push(c);
        },
        Geometry::LineString(cs) => {
            push_all(cs, coords);
        },
        Geometry::Polygon(rings) => {
            let ghost start = refs_view(coords@);
            let mut i: usize = 0;
            while i < rings.len()
                invariant
                    i <= rings@.len(),
                    refs_view(coords@) == start + rings_coords(rings@.take(i as int)),
                decreases rings@.len() - i,
            {
                assert(rings@.take(i + 1).drop_last() =~= rings@.take(i as int));
                push_all(&rings[i], coords);
                i = i + 1;
            }
            assert(rings@.take(rings@.len() as int) =~= rings@);
        },
        Geometry::MultiGeometry(geoms) => {
            collect_geoms_coords(geoms.as_slice(), coords);
        },
    }
}

fn collect_geoms_coords<'a, N>(geoms: &'a [Geometry<N>], coords: &mut Vec<&'a Coord<N>>)
    ensures
        refs_view(final(coords)@) == refs_view(old(coords)@) + geometries_coords(geoms@),
    decreases geoms@,
{
    let ghost start = refs_view(coords@);
    let mut i: usize = 0;
    while i < geoms.len()
        invariant
            i <= geoms@.len(),
            refs_view(coords@) == start + geometries_coords(geoms@.take(i as int)),
        decreases geoms@.len() - i,
    {
        assert(geoms@.take(i + 1).drop_last() =~= geoms@.take(i as int));
        collect_geom_coords(&geoms[i], coords);
        i = i + 1;
    }
    assert(geoms@.take(geoms@.len() as int) =~= geoms@);
}

fn collect_coords<'a, N>(feature: &'a Feature<N>, coords: &mut Vec<&'a Coord<N>>)
    ensures
        refs_view(final(coords)@) == refs_view(old(coords)@) + feature_coords(*feature),
    decreases feature,
{
    match feature {
        Feature::Folder { features, .. } => {
            collect_forest_coords(features.as_slice(), coords);
        },
        Feature::Placemark { geometry, .. } => {
            if let Some(geom) = geometry {
                collect_geom_coords(geom, coords);
            } else {
                assert(refs_view(coords@) =~= refs_view(coords@) + Seq::<Coord<N>>::empty());
            }
        },
    }
}

fn collect_forest_coords<'a, N>(features: &'a [Feature<N>], coords: &mut Vec<&'a Coord<N>>)
    ensures
        refs_view(final(coords)@) == refs_view(old(coords)@) + features_coords(features@),
    decreases features@,
{
    let ghost start = refs_view(coords@);
    let mut i: usize = 0;
    while i < features.len()
        invariant
            i <= features@.len(),
            refs_view(coords@) == start + features_coords(features@.take(i as int)),
        decreases features@.len() - i,
    {
        assert(features@.take(i + 1).drop_last() =~= features@.take(i as int));
        collect_coords(&features[i], coords);
        i = i + 1;
    }
    assert(features@.take(features@.len() as int) =~= features@);
}

impl<N> KmlDocument<N> {
    /// Every coordinate of the document, in document order.
    pub fn all_coords(&self) -> (coords: Vec<&Coord<N>>)
        ensures
            refs_view(coords@) == features_coords(self.features@),
    {
        let mut coords = Vec::new();
        collect_forest_coords(self.features.as_slice(), &mut coords);
        assert(refs_view(Seq::<&Coord<N>>::empty()) =~= Seq::<Coord<N>>::empty());
        coords
    }
}

// ---------------------------------------------------------------------------
// The feature tree in pre-order, with the index path of each feature.
// ---------------------------------------------------------------------------

/// `f` at `path`, followed by its descendants in pre-order.
pub open spec fn feature_flat<N>(f: Feature<N>, path: Seq<usize>) -> Seq<(Seq<usize>, Feature<N>)>
    decreases f,
{
    seq![(path, f)] + match f {
        Feature::Folder { features, .. } => features_flat(features@, path),
        Feature::Placemark { .. } => Seq::empty(),
    }
}

/// The features `fs` (children of the node at `prefix`) and their
/// descendants in pre-order, each with its index path.
pub open spec fn features_flat<N>(fs: Seq<Feature<N>>, prefix: Seq<usize>) -> Seq<(Seq<usize>, Feature<N>)>
    decreases fs,
{
    if fs.len() == 0 {
        Seq::empty()
    } else {
        features_flat(fs.drop_last(), prefix) + feature_flat(fs.last(), prefix.push((fs.len() - 1) as usize))
    }
}

pub open spec fn flat_view<N>(s: Seq<(Vec<usize>, &Feature<N>)>) -> Seq<(Seq<usize>, Feature<N>)> {
    s.map_values(|e: (Vec<usize>, &Feature<N>)| (e.0@, *e.1))
}

fn flatten_recursive<'a, N>(
    feature: &'a Feature<N>,
    path: Vec<usize>,
    result: &mut Vec<(Vec<usize>, &'a Feature<N>)>,
)
    ensures
        flat_view(final(result)@) == flat_view(old(result)@) + feature_flat(*feature, path@),
    decreases feature,
{
    let ghost start = flat_view(result@);
    let entry_path = path.clone();
    assert(entry_path@ =~= path@);
    result.push((entry_path, feature));
    assert(flat_view(result@) =~= start + seq![(path@, *feature)]);
    if let Feature::Folder { features, .. } = feature {
        flatten_children(features.as_slice(), &path, result);
    } else {
        assert(flat_view(result@) =~= start + feature_flat(*feature, path@));
    }
}

fn flatten_children<'a, N>(
    features: &'a [Feature<N>],
    path: &Vec<usize>,
    result: &mut Vec<(Vec<usize>, &'a Feature<N>)>,
)
    ensures
        flat_view(final(result)@) == flat_view(old(result)@) + features_flat(features@, path@),
    decreases features@,
{
    let ghost start = flat_view(result@);
    let mut i: usize = 0;
    while i < features.len()
        invariant
            i <= features@.len(),
            flat_view(result@) == start + features_flat(features@.take(i as int), path@),
        decreases features@.len() - i,
    {
        assert(features@.take(i + 1).drop_last() =~= features@.take(i as int));
        let mut child_path = path.clone();
        assert(child_path@ =~= path@);
        child_path.push(i);
        flatten_recursive(&features[i], child_path, result);
        i = i + 1;
    }
    assert(features@.take(features@.len() as int) =~= features@);
}

impl<N> KmlDocument<N> {
    /// Every feature of the document in pre-order, each with its index path
    /// from the top level.
    pub fn flatten(&self) -> (flat: Vec<(Vec<usize>, &Feature<N>)>)
        ensures
            flat_view(flat@) == features_flat(self.features@, Seq::empty()),
    {
        let mut result = Vec::new();
        let path: Vec<usize> = Vec::new();
        flatten_children(self.features.as_slice(), &path, &mut result);
        assert(flat_view(Seq::<(Vec<usize>, &Feature<N>)>::empty()) =~= Seq::<(Seq<usize>, Feature<N>)>::empty());
        result
    }
}

// ---------------------------------------------------------------------------
// Feature counts.
// ---------------------------------------------------------------------------

/// Number of folders and placemarks at any depth under (and including) `f`.
pub open spec fn feature_size<N>(f: Feature<N>) -> nat
    decreases f,
{
    match f {
        Feature::Folder { features, .. } => 1 + features_size(features@),
        Feature::Placemark { .. } => 1,
    }
}

pub open spec fn features_size<N>(fs: Seq<Feature<N>>) -> nat
    decreases fs,
{
    if fs.len() == 0 {
        0
    } else {
        features_size(fs.drop_last()) + feature_size(fs.last())
    }
}

/// Number of placemarks at any depth.
pub open spec fn feature_placemarks<N>(f: Feature<N>) -> nat
    decreases f,
{
    match f {
        Feature::Folder { features, .. } => features_placemarks(features@),
        Feature::Placemark { .. } => 1,
    }
}

pub open spec fn features_placemarks<N>(fs: Seq<Feature<N>>) -> nat
    decreases fs,
{
    if fs.len() == 0 {
        0
    } else {
        features_placemarks(fs.drop_last()) + feature_placemarks(fs.last())
    }
}

/// Number of folders at any depth.
pub open spec fn feature_folders<N>(f: Feature<N>) -> nat
    decreases f,
{
    match f {
        Feature::Folder { features, .. } => 1 + features_folders(features@),
        Feature::Placemark { .. } => 0,
    }
}

pub open spec fn features_folders<N>(fs: Seq<Feature<N>>) -> nat
    decreases fs,
{
    if fs.len() == 0 {
        0
    } else {
        features_folders(fs.drop_last()) + feature_folders(fs.last())
    }
}

pub proof fn lemma_size_prefix_monotone<N>(fs: Seq<Feature<N>>, i: int, j: int)
    requires
        0 <= i <= j <= fs.len(),
    ensures
        features_size(fs.take(i)) <= features_size(fs.take(j)),
    decreases j - i,
{
    if i < j {
        assert(fs.take(j).drop_last() =~= fs.take(j - 1));
        lemma_size_prefix_monotone(fs, i, j - 1);
    }
}

pub proof fn lemma_size_step<N>(fs: Seq<Feature<N>>, i: int)
    requires
        0 <= i < fs.len(),
    ensures
        features_size(fs.take(i + 1)) == features_size(fs.take(i)) + feature_size(fs[i]),
        features_placemarks(fs.take(i + 1)) == features_placemarks(fs.take(i)) + feature_placemarks(fs[i]),
        features_folders(fs.take(i + 1)) == features_folders(fs.take(i)) + feature_folders(fs[i]),
        features_size(fs.take(i + 1)) <= features_size(fs),
{
    assert(fs.take(i + 1).drop_last() =~= fs.take(i));
    lemma_size_prefix_monotone(fs, i + 1, fs.len() as int);
    assert(fs.take(fs.len() as int) =~= fs);
}

/// Counts (placemarks, folders) at any depth.
pub fn count_features<N>(features: &[Feature<N>]) -> (r: (usize, usize))
    requires
        features_size(features@) <= usize::MAX,
    ensures
        r.0 == features_placemarks(features@),
        r.1 == features_folders(features@),
    decreases features@,
{
    let mut placemarks: usize = 0;
    let mut folders: usize = 0;
    let mut i: usize = 0;
    while i < features.len()
        invariant
            i <= features@.len(),
            features_size(features@) <= usize::MAX,
            placemarks == features_placemarks(features@.take(i as int)),
            folders == features_folders(features@.take(i as int)),
            placemarks + folders == features_size(features@.take(i as int)),
        decreases features@.len() - i,
    {
        proof {
            lemma_size_step(features@, i as int);
            lemma_counts_add_up(features@[i as int]);
        }
        match &features[i] {
            Feature::Folder { features: children, .. } => {
                folders += 1;
                let (p, fo) = count_features(children.as_slice());
                placemarks += p;
                folders += fo;
            },
            Feature::Placemark { .. } => {
                placemarks += 1;
            },
        }
        i = i + 1;
    }
    assert(features@.take(features@.len() as int) =~= features@);
    (placemarks, folders)
}

/// Counts every feature (folders and placemarks) at any depth.
pub fn count_all_features<N>(features: &[Feature<N>]) -> (total: usize)
    requires
        features_size(features@) <= usize::MAX,
    ensures
        total == features_size(features@),
    decreases features@,
{
    let mut total: usize = 0;
    let mut i: usize = 0;
    while i < features.len()
        invariant
            i <= features@.len(),
            features_size(features@) <= usize::MAX,
            total == features_size(features@.take(i as int)),
        decreases features@.len() - i,
    {
        proof {
            lemma_size_step(features@, i as int);
        }
        total += 1;
        if let Feature::Folder { features: children, .. } = &features[i] {
            total += count_all_features(children.as_slice());
        }
        i = i + 1;
    }
    assert(features@.take(features@.len() as int) =~= features@);
    total
}

/// The number of features at any depth, or `None` when that number does
/// not fit in a `usize` (the bound under which the counting functions above
/// work).
pub fn checked_feature_count<N>(features: &[Feature<N>]) -> (r: Option<usize>)
    ensures
        match r {
            Some(n) => n == features_size(features@),
            None => features_size(features@) > usize::MAX,
        },
    decreases features@,
{
    let mut total: usize = 0;
    let mut i: usize = 0;
    while i < features.len()
        invariant
            i <= features@.len(),
            total == features_size(features@.take(i as int)),
        decreases features@.len() - i,
    {
        proof {
            lemma_size_step(features@, i as int);
        }
        let own: usize = match &features[i] {
            Feature::Folder { features: children, .. } => match checked_feature_count(children.as_slice()) {
                Some(c) => match c.checked_add(1) {
                    Some(x) => x,
                    None => return None,
                },
                None => return None,
            },
            Feature::Placemark { .. } => 1,
        };
        match total.checked_add(own) {
            Some(t) => total = t,
            None => return None,
        }
        i = i + 1;
    }
    assert(features@.take(features@.len() as int) =~= features@);
    Some(total)
}

/// Every feature is a folder or a placemark: the two counts add up to the total.
pub proof fn lemma_counts_add_up<N>(f: Feature<N>)
    ensures
        feature_placemarks(f) + feature_folders(f) == feature_size(f),
    decreases f,
{
    if let Feature::Folder { features, .. } = f {
        lemma_forest_counts_add_up(features@);
    }
}

/// Placemarks and folders together are all the features of a forest.
pub proof fn lemma_forest_counts_add_up<N>(fs: Seq<Feature<N>>)
    ensures
        features_placemarks(fs) + features_folders(fs) == features_size(fs),
    decreases fs,
{
    if fs.len() > 0 {
        lemma_forest_counts_add_up(fs.drop_last());
        lemma_counts_add_up(fs.last());
    }
}

// ---------------------------------------------------------------------------
// Lookups.
// ---------------------------------------------------------------------------

/// The feature that the index path `path` leads to from the features `fs`:
/// each index selects a child of the folder reached so far; the walk stops
/// at a placemark (later indices are ignored) and fails on a missing index
/// or an empty path.
pub open spec fn feature_at<N>(fs: Seq<Feature<N>>, path: Seq<usize>) -> Option<Feature<N>>
    decreases path.len(),
{
    if path.len() == 0 || path[0] >= fs.len() {
        None
    } else {
        let f = fs[path[0] as int];
        if path.len() == 1 {
            Some(f)
        } else {
            match f {
                Feature::Folder { features, .. } => feature_at(features@, path.drop_first()),
                Feature::Placemark { .. } => Some(f),
            }
        }
    }
}

/// The style that `id` names: a style with that id, or else the style that a
/// style map with that id points to.
pub open spec fn resolved_style<N>(
    styles: Map<Seq<char>, Style<N>>,
    style_maps: Map<Seq<char>, String>,
    id: Seq<char>,
) -> Option<Style<N>> {
    if styles.dom().contains(id) {
        Some(styles[id])
    } else if style_maps.dom().contains(id) && styles.dom().contains(style_maps[id]@) {
        Some(styles[style_maps[id]@])
    } else {
        None
    }
}

impl<N> KmlDocument<N> {
    /// Resolve a style id, following one level of StyleMap indirection.
    pub fn resolve_style(&self, id: &str) -> (r: Option<&Style<N>>)
        ensures
            match r {
                Some(s) => resolved_style(self.styles@, self.style_maps@, id@) == Some(*s),
                None => resolved_style(self.styles@, self.style_maps@, id@).is_none(),
            },
    {
        if let Some(s) = self.styles.get(id) {
            return Some(s);
        }
        match self.style_maps.get(id) {
            Some(target) => self.styles.get(target.as_str()),
            None => None,
        }
    }

    /// The feature at the index path `path` (see `feature_at`).
    pub fn get_feature(&self, path: &[usize]) -> (r: Option<&Feature<N>>)
        ensures
            match r {
                Some(f) => feature_at(self.features@, path@) == Some(*f),
                None => feature_at(self.features@, path@).is_none(),
            },
    {
        let mut features: &Vec<Feature<N>> = &self.features;
        let mut feature: Option<&Feature<N>> = None;
        let mut i: usize = 0;
        while i < path.len()
            invariant_except_break
                i <= path@.len(),
                i == 0 ==> features@ == self.features@ && feature.is_none(),
                i > 0 ==> feature_at(self.features@, path@) == feature_at(features@, path@.skip(i as int)),
                i > 0 ==> feature.is_some(),
                i > 0 ==> i < path@.len(),
            ensures
                match feature {
                    Some(f) => feature_at(self.features@, path@) == Some(*f),
                    None => feature_at(self.features@, path@).is_none(),
                },
            decreases path@.len() - i,
        {
            let idx = path[i];
            proof {
                let rest = path@.skip(i as int);
                assert(rest[0] == idx);
                assert(rest.drop_first() =~= path@.skip(i + 1));
                if i == 0 {
                    assert(rest =~= path@);
                }
            }
            if idx >= features.len() {
                feature = None;
                break;
            }
            let f = &features[idx];
            feature = Some(f);
            if i + 1 == path.len() {
                assert(path@.skip(i as int).len() == 1);
                break;
            }
            match f {
                Feature::Folder { features: children, .. } => {
                    features = children;
                },
                Feature::Placemark { .. } => {
                    break;
                },
            }
            i = i + 1;
        }
        feature
    }
}

// ---------------------------------------------------------------------------
// Laws relating the traversals.
// ---------------------------------------------------------------------------

pub proof fn lemma_feature_flat_len<N>(f: Feature<N>, path: Seq<usize>)
    ensures
        feature_flat(f, path).len() == feature_size(f),
    decreases f,
{
    if let Feature::Folder { features, .. } = f {
        lemma_features_flat_len(features@, path);
    }
}

pub proof fn lemma_features_flat_len<N>(fs: Seq<Feature<N>>, prefix: Seq<usize>)
    ensures
        features_flat(fs, prefix).len() == features_size(fs),
    decreases fs,
{
    if fs.len() > 0 {
        lemma_features_flat_len(fs.drop_last(), prefix);
        lemma_feature_flat_len(fs.last(), prefix.push((fs.len() - 1) as usize));
    }
}

proof fn lemma_feature_at_drop_last<N>(fs: Seq<Feature<N>>, r: Seq<usize>)
    requires
        fs.len() > 0,
        feature_at(fs.drop_last(), r).is_some(),
    ensures
        feature_at(fs, r) == feature_at(fs.drop_last(), r),
{
}

proof fn lemma_feature_flat_paths<N>(f: Feature<N>, path: Seq<usize>)
    ensures
        forall|k: int| 0 <= k < feature_flat(f, path).len() ==> {
            let e = #[trigger] feature_flat(f, path)[k];
            &&& e.0.len() >= path.len()
            &&& e.0.take(path.len() as int) == path
            &&& e.0.len() == path.len() ==> e.1 == f
            &&& e.0.len() > path.len() ==> (f matches Feature::Folder { features, .. }
                && feature_at(features@, e.0.skip(path.len() as int)) == Some(e.1))
        },
    decreases f,
{
    let flat = feature_flat(f, path);
    match f {
        Feature::Folder { features, .. } => {
            let kids = features_flat(features@, path);
            assert(features@.len() == features.len());
            lemma_features_flat_paths(features@, path);
            assert(flat == seq![(path, f)] + kids);
            assert forall|k: int| 0 <= k < flat.len() implies {
                let e = #[trigger] flat[k];
                &&& e.0.len() >= path.len()
                &&& e.0.take(path.len() as int) == path
                &&& e.0.len() == path.len() ==> e.1 == f
                &&& e.0.len() > path.len() ==> (f matches Feature::Folder { features, .. }
                    && feature_at(features@, e.0.skip(path.len() as int)) == Some(e.1))
            } by {
                if k == 0 {
                    assert(flat[k] == (path, f));
                    assert(path.take(path.len() as int) =~= path);
                } else {
                    assert(flat[k] == kids[k - 1]);
                }
            }
        },
        Feature::Placemark { .. } => {
            assert(flat =~= seq![(path, f)]);
            assert(path.take(path.len() as int) =~= path);
        },
    }
}

proof fn lemma_features_flat_paths<N>(fs: Seq<Feature<N>>, prefix: Seq<usize>)
    requires
        fs.len() <= usize::MAX,
    ensures
        forall|k: int| 0 <= k < features_flat(fs, prefix).len() ==> {
            let e = #[trigger] features_flat(fs, prefix)[k];
            &&& e.0.len() > prefix.len()
            &&& e.0.take(prefix.len() as int) == prefix
            &&& feature_at(fs, e.0.skip(prefix.len() as int)) == Some(e.1)
        },
    decreases fs,
{
    if fs.len() > 0 {
        let n = fs.len() - 1;
        let head = features_flat(fs.drop_last(), prefix);
        let p = prefix.push(n as usize);
        let tail = feature_flat(fs.last(), p);
        lemma_features_flat_paths(fs.drop_last(), prefix);
        lemma_feature_flat_paths(fs.last(), p);
        let flat = features_flat(fs, prefix);
        assert(flat == head + tail);
        assert forall|k: int| 0 <= k < flat.len() implies {
            let e = #[trigger] flat[k];
            &&& e.0.len() > prefix.len()
            &&& e.0.take(prefix.len() as int) == prefix
            &&& feature_at(fs, e.0.skip(prefix.len() as int)) == Some(e.1)
        } by {
            if k < head.len() {
                let e = head[k];
                assert(flat[k] == e);
                lemma_feature_at_drop_last(fs, e.0.skip(prefix.len() as int));
            } else {
                let e = tail[k - head.len()];
                assert(flat[k] == e);
                assert(e.0.take(p.len() as int) == p);
                assert(e.0.take(prefix.len() as int) =~= p.take(prefix.len() as int));
                assert(p.take(prefix.len() as int) =~= prefix);
                let r = e.0.skip(prefix.len() as int);
                assert(r[0] == p[prefix.len() as int]);
                if e.0.len() == p.len() {
                    assert(r.len() == 1);
                } else {
                    assert(r.drop_first() =~= e.0.skip(p.len() as int));
                }
            }
        }
    }
}

/// Law: `flatten` lists every feature of the document exactly once per
/// position (as many entries as `count_all_features` counts), and the path
/// of each entry leads back to that entry's feature (`get_feature`).
pub proof fn lemma_flatten_paths_resolve<N>(doc: KmlDocument<N>)
    ensures
        features_flat(doc.features@, Seq::empty()).len() == features_size(doc.features@),
        forall|k: int| 0 <= k < features_flat(doc.features@, Seq::empty()).len() ==>
            feature_at(doc.features@, (#[trigger] features_flat(doc.features@, Seq::empty())[k]).0)
                == Some(features_flat(doc.features@, Seq::empty())[k].1),
{
    let empty = Seq::<usize>::empty();
    assert(doc.features@.len() == doc.features.len());
    lemma_features_flat_len(doc.features@, empty);
    lemma_features_flat_paths(doc.features@, empty);
    assert forall|k: int| 0 <= k < features_flat(doc.features@, empty).len() implies
        feature_at(doc.features@, (#[trigger] features_flat(doc.features@, empty)[k]).0)
            == Some(features_flat(doc.features@, empty)[k].1) by {
        let e = features_flat(doc.features@, empty)[k];
        assert(e.0.skip(0) =~= e.0);
    }
}

} // verus!
