use vstd::prelude::*;

use crate::model::{Feature, Geometry, KmlDocument};
use vstd::string::StringExecFns;

verus! {

broadcast use vstd::string::group_string_axioms;

/// The glyph that the tree output shows for a geometry.
pub open spec fn geometry_icon_of<N>(g: Geometry<N>) -> Seq<char> {
    match g {
        Geometry::Point(_) => "●"@,
        Geometry::LineString(_) => "─"@,
        Geometry::Polygon(_) => "◻"@,
        Geometry::MultiGeometry(_) => "◈"@,
    }
}

pub fn geometry_icon<N>(geom: &Geometry<N>) -> (icon: &'static str)
    ensures
        icon@ == geometry_icon_of(*geom),
{
    match geom {
        Geometry::Point(_) => "●",
        Geometry::LineString(_) => "─",
        Geometry::Polygon(_) => "◻",
        Geometry::MultiGeometry(_) => "◈",
    }
}

/// The branch drawn before the last child of a folder, and before the others.
pub open spec fn connector_of(is_last: bool) -> Seq<char> {
    if is_last {
        "└──"@
    } else {
        "├──"@
    }
}

/// The prefix of the lines under a child: the guide line continues below
/// every child but the last.
pub open spec fn child_prefix_of(prefix: Seq<char>, is_last: bool) -> Seq<char> {
    if is_last {
        prefix + "    "@
    } else {
        prefix + "│   "@
    }
}

/// The lines that draw `f` (and, for a folder, its subtree) under `prefix`.
pub open spec fn feature_lines<N>(f: Feature<N>, prefix: Seq<char>, is_last: bool) -> Seq<
    Seq<char>,
>
    decreases f,
{
    match f {
        Feature::Folder { name, features } => seq![
            prefix + connector_of(is_last) + " 📁 "@ + name@,
        ] + forest_lines(features@, child_prefix_of(prefix, is_last)),
        Feature::Placemark { name, geometry, .. } => {
            let icon = match geometry {
                Some(g) => geometry_icon_of(g),
                None => "·"@,
            };
            seq![prefix + connector_of(is_last) + " "@ + icon + " "@ + name@]
        },
    }
}

/// The lines of siblings none of which is the last child.
pub open spec fn siblings_lines<N>(fs: Seq<Feature<N>>, prefix: Seq<char>) -> Seq<Seq<char>>
    decreases fs,
{
    if fs.len() == 0 {
        Seq::empty()
    } else {
        siblings_lines(fs.drop_last(), prefix) + feature_lines(fs.last(), prefix, false)
    }
}

/// The lines of a list of sibling features: the last one closes the branch.
pub open spec fn forest_lines<N>(fs: Seq<Feature<N>>, prefix: Seq<char>) -> Seq<Seq<char>>
    decreases fs,
{
    if fs.len() == 0 {
        Seq::empty()
    } else {
        siblings_lines(fs.drop_last(), prefix) + feature_lines(fs.last(), prefix, true)
    }
}

/// The whole output of the `tree` subcommand, one line per element.
pub open spec fn tree_text<N>(doc: KmlDocument<N>) -> Seq<Seq<char>> {
    let root = match doc.name {
        Some(n) => n@,
        None => "(unnamed)"@,
    };
    seq!["📄 "@ + root] + forest_lines(doc.features@, Seq::empty())
}

pub open spec fn lines_view(v: Seq<String>) -> Seq<Seq<char>> {
    v.map_values(|s: String| s@)
}

proof fn lemma_lines_push(v: Seq<String>, s: String)
    ensures
        lines_view(v.push(s)) == lines_view(v) + seq![s@],
{
    assert(lines_view(v.push(s)) =~= lines_view(v) + seq![s@]);
}

fn push_feature_lines<N>(feature: &Feature<N>, prefix: &str, is_last: bool, lines: &mut Vec<String>)
    ensures
        lines_view(final(lines)@) == lines_view(old(lines)@) + feature_lines(*feature, prefix@, is_last),
    decreases feature,
{
    let connector = if is_last {
        "└──"
    } else {
        "├──"
    };
    match feature {
        Feature::Folder { name, features: children } => {
            let mut line = String::from_str(prefix);
            line.append(connector);
            line.append(" 📁 ");
            line.append(name.as_str());
            proof {
                lemma_lines_push(lines@, line);
            }
            let ghost mid = lines_view(lines@) + seq![line@];
            lines.push(line);
            let mut child_prefix = String::from_str(prefix);
            if is_last {
                child_prefix.append("    ");
            } else {
                child_prefix.append("│   ");
            }
            print_features(children.as_slice(), child_prefix.as_str(), lines);
            assert(lines_view(lines@) == mid + forest_lines(
                children@,
                child_prefix_of(prefix@, is_last),
            ));
        },
        Feature::Placemark { name, geometry, .. } => {
            let icon = match geometry {
                Some(g) => geometry_icon(g),
                None => "·",
            };
            let mut line = String::from_str(prefix);
            line.append(connector);
            line.append(" ");
            line.append(icon);
            line.append(" ");
            line.append(name.as_str());
            proof {
                lemma_lines_push(lines@, line);
            }
            lines.push(line);
        },
    }
}

/// Appends the lines that draw `features` under `prefix`.
pub fn print_features<N>(features: &[Feature<N>], prefix: &str, lines: &mut Vec<String>)
    ensures
        lines_view(final(lines)@) == lines_view(old(lines)@) + forest_lines(features@, prefix@),
    decreases features@,
{
    let ghost start = lines_view(lines@);
    let count = features.len();
    let mut i: usize = 0;
    while i < count
        invariant
            count == features@.len(),
            i <= count,
            i < count ==> lines_view(lines@) == start + siblings_lines(
                features@.take(i as int),
                prefix@,
            ),
            i == count ==> lines_view(lines@) == start + forest_lines(features@, prefix@),
        decreases count - i,
    {
        assert(features@.take(i + 1).drop_last() =~= features@.take(i as int));
        let is_last = i + 1 == count;
        push_feature_lines(&features[i], prefix, is_last, lines);
        if is_last {
            assert(features@.take(i as int) =~= features@.drop_last());
        }
        i = i + 1;
    }
}

/// The lines that the `tree` subcommand prints for `doc`.
pub fn tree_lines<N>(doc: &KmlDocument<N>) -> (lines: Vec<String>)
    ensures
        lines_view(lines@) == tree_text(*doc),
{
    let mut header = String::from_str("📄 ");
    match &doc.name {
        Some(n) => header.append(n.as_str()),
        None => header.append("(unnamed)"),
    }
    let mut lines: Vec<String> = Vec::new();
    proof {
        lemma_lines_push(lines@, header);
    }
    lines.push(header);
    print_features(doc.features.as_slice(), "", &mut lines);
    proof {
        reveal_strlit("");
        assert(""@ =~= Seq::<char>::empty());
    }
    assert(lines_view(lines@) =~= tree_text(*doc));
    lines
}

proof fn lemma_feature_lines_len<N>(f: Feature<N>, prefix: Seq<char>, is_last: bool)
    ensures
        feature_lines(f, prefix, is_last).len() == crate::model::feature_size(f),
    decreases f,
{
    if let Feature::Folder { features, .. } = f {
        lemma_forest_lines_len(features@, child_prefix_of(prefix, is_last));
    }
}

proof fn lemma_siblings_lines_len<N>(fs: Seq<Feature<N>>, prefix: Seq<char>)
    ensures
        siblings_lines(fs, prefix).len() == crate::model::features_size(fs),
    decreases fs,
{
    if fs.len() > 0 {
        lemma_siblings_lines_len(fs.drop_last(), prefix);
        lemma_feature_lines_len(fs.last(), prefix, false);
    }
}

/// A list of siblings is drawn with one line per feature at any depth.
pub proof fn lemma_forest_lines_len<N>(fs: Seq<Feature<N>>, prefix: Seq<char>)
    ensures
        forest_lines(fs, prefix).len() == crate::model::features_size(fs),
    decreases fs,
{
    if fs.len() > 0 {
        lemma_siblings_lines_len(fs.drop_last(), prefix);
        lemma_feature_lines_len(fs.last(), prefix, true);
    }
}

} // verus!
