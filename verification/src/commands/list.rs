use vstd::prelude::*;

use crate::model::{Feature, Geometry};
use vstd::string::StringExecFns;

verus! {

broadcast use vstd::string::group_string_axioms;

/// One line of the `list` output.
pub struct Entry {
    pub name: String,
    pub kind: &'static str,
    pub geometry: Option<&'static str>,
    /// The names of the enclosing folders and of the feature, joined by `/`.
    pub path: String,
}

/// The type of a geometry as the listing names it.
pub open spec fn geometry_type_of<N>(g: Geometry<N>) -> Seq<char> {
    match g {
        Geometry::Point(_) => "point"@,
        Geometry::LineString(_) => "linestring"@,
        Geometry::Polygon(_) => "polygon"@,
        Geometry::MultiGeometry(_) => "multi"@,
    }
}

pub fn geometry_type<N>(geom: &Geometry<N>) -> (t: &'static str)
    ensures
        t@ == geometry_type_of(*geom),
{
    match geom {
        Geometry::Point(_) => "point",
        Geometry::LineString(_) => "linestring",
        Geometry::Polygon(_) => "polygon",
        Geometry::MultiGeometry(_) => "multi",
    }
}

/// `name` under the folder path `prefix`.
pub open spec fn join_path(prefix: Seq<char>, name: Seq<char>) -> Seq<char> {
    if prefix.len() == 0 {
        name
    } else {
        prefix + "/"@ + name
    }
}

/// An entry as (name, kind, geometry type, path).
pub type EntryView = (Seq<char>, Seq<char>, Option<Seq<char>>, Seq<char>);

pub open spec fn entry_view(e: Entry) -> EntryView {
    (e.name@, e.kind@, match e.geometry {
        Some(g) => Some(g@),
        None => None,
    }, e.path@)
}

/// The entries of `f` and its descendants (pre-order) under the folder path `prefix`.
pub open spec fn feature_entries<N>(f: Feature<N>, prefix: Seq<char>) -> Seq<EntryView>
    decreases f,
{
    match f {
        Feature::Folder { name, features } => {
            let path = join_path(prefix, name@);
            seq![(name@, "folder"@, None::<Seq<char>>, path)] + features_entries(features@, path)
        },
        Feature::Placemark { name, geometry, .. } => seq![(
            name@,
            "placemark"@,
            match geometry {
                Some(g) => Some(geometry_type_of(g)),
                None => None,
            },
            join_path(prefix, name@),
        )],
    }
}

pub open spec fn features_entries<N>(fs: Seq<Feature<N>>, prefix: Seq<char>) -> Seq<EntryView>
    decreases fs,
{
    if fs.len() == 0 {
        Seq::empty()
    } else {
        features_entries(fs.drop_last(), prefix) + feature_entries(fs.last(), prefix)
    }
}

pub open spec fn entries_view(es: Seq<Entry>) -> Seq<EntryView> {
    es.map_values(|e: Entry| entry_view(e))
}

fn path_of(prefix: &str, name: &String) -> (p: String)
    ensures
        p@ == join_path(prefix@, name@),
{
    if prefix.unicode_len() == 0 {
        name.clone()
    } else {
        let mut p = String::from_str(prefix);
        p.append("/");
        p.append(name.as_str());
        p
    }
}

pub fn collect_entries<N>(features: &[Feature<N>], path_prefix: &str, entries: &mut Vec<Entry>)
    ensures
        entries_view(final(entries)@) == entries_view(old(entries)@) + features_entries(features@, path_prefix@),
    decreases features@,
{
    let ghost start = entries_view(entries@);
    let mut i: usize = 0;
    while i < features.len()
        invariant
            i <= features@.len(),
            entries_view(entries@) == start + features_entries(features@.take(i as int), path_prefix@),
        decreases features@.len() - i,
    {
        assert(features@.take(i + 1).drop_last() =~= features@.take(i as int));
        let ghost before = entries_view(entries@);
        match &features[i] {
            Feature::Folder { name, features: children } => {
                let path = path_of(path_prefix, name);
                let ghost p = path@;
                entries.push(Entry { name: name.clone(), kind: "folder", geometry: None, path: path.clone() });
                assert(entries_view(entries@) =~= before + seq![(name@, "folder"@, None::<Seq<char>>, p)]);
                collect_entries(children.as_slice(), path.as_str(), entries);
                assert(entries_view(entries@) =~= before + feature_entries(features@[i as int], path_prefix@));
            },
            Feature::Placemark { name, geometry, .. } => {
                let path = path_of(path_prefix, name);
                let g = match geometry {
                    Some(g) => Some(geometry_type(g)),
                    None => None,
                };
                entries.push(Entry { name: name.clone(), kind: "placemark", geometry: g, path });
                assert(entries_view(entries@) =~= before + feature_entries(features@[i as int], path_prefix@));
            },
        }
        i = i + 1;
    }
    assert(features@.take(features@.len() as int) =~= features@);
}

/// The listing has one entry per feature at any depth.
pub proof fn lemma_entries_len<N>(fs: Seq<Feature<N>>, prefix: Seq<char>)
    ensures
        features_entries(fs, prefix).len() == crate::model::features_size(fs),
    decreases fs,
{
    if fs.len() > 0 {
        lemma_entries_len(fs.drop_last(), prefix);
        lemma_feature_entries_len(fs.last(), prefix);
    }
}

proof fn lemma_feature_entries_len<N>(f: Feature<N>, prefix: Seq<char>)
    ensures
        feature_entries(f, prefix).len() == crate::model::feature_size(f),
    decreases f,
{
    if let Feature::Folder { name, features } = f {
        lemma_entries_len(features@, join_path(prefix, name@));
    }
}

} // verus!
