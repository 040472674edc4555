use vstd::prelude::*;

use crate::model::{Coord, Feature, Geometry};
use crate::text::{decimal, u64_text};
use vstd::string::{StrSliceExecFns, StringExecFns, StringSliceAdditionalSpecFns};

verus! {

broadcast use vstd::string::group_string_axioms;

/// The colour of a piece of text in the details panel.
#[derive(Debug, Clone, Copy, PartialEq, Eq, Structural)]
pub enum Tone {
    Default,
    Gray,
    DarkGray,
    Yellow,
}

/// A line of the details panel.
pub enum DetailLine<'a, N> {
    /// One piece of text.
    Plain { text: String, tone: Tone },
    /// An icon followed by a name in bold.
    Title { icon: &'static str, icon_tone: Tone, name: String },
    /// The position of a point, in gray; the caller writes its coordinates
    /// with four decimals.
    PointInfo { at: &'a Coord<N> },
}

pub enum DetailView<N> {
    Plain(Seq<char>, Tone),
    Title(Seq<char>, Tone, Seq<char>),
    PointInfo(Coord<N>),
}

pub open spec fn detail_view<N>(l: DetailLine<N>) -> DetailView<N> {
    match l {
        DetailLine::Plain { text, tone } => DetailView::Plain(text@, tone),
        DetailLine::Title { icon, icon_tone, name } => DetailView::Title(icon@, icon_tone, name@),
        DetailLine::PointInfo { at } => DetailView::PointInfo(*at),
    }
}

pub open spec fn details_view<N>(ls: Seq<DetailLine<N>>) -> Seq<DetailView<N>> {
    ls.map_values(|l: DetailLine<N>| detail_view(l))
}

/// The number of points of all rings of a polygon.
pub open spec fn rings_points<N>(rings: Seq<Vec<Coord<N>>>) -> nat
    decreases rings.len(),
{
    if rings.len() == 0 {
        0
    } else {
        rings_points(rings.drop_last()) + rings.last()@.len()
    }
}

/// The summary line of a geometry other than a point.
pub open spec fn geom_info_of<N>(g: Geometry<N>) -> Seq<char> {
    match g {
        Geometry::Point(_) => Seq::empty(),
        Geometry::LineString(cs) => "LineString — "@ + decimal(cs@.len()) + " points"@,
        Geometry::Polygon(rings) => "Polygon — "@ + decimal(rings@.len()) + " ring(s), "@ + decimal(
            rings_points(rings@),
        ) + " points"@,
        Geometry::MultiGeometry(gs) => "MultiGeometry — "@ + decimal(gs@.len())
            + " geometries"@,
    }
}

/// The summary line of a geometry: the point itself for a point, a text with
/// its counts otherwise.
pub open spec fn geom_line_of<N>(g: Geometry<N>) -> DetailView<N> {
    match g {
        Geometry::Point(c) => DetailView::PointInfo(c),
        _ => DetailView::Plain(geom_info_of(g), Tone::Gray),
    }
}

fn count_points<N>(rings: &Vec<Vec<Coord<N>>>) -> (n: usize)
    requires
        rings_points(rings@) <= usize::MAX,
    ensures
        n == rings_points(rings@),
{
    let mut total: usize = 0;
    let mut i: usize = 0;
    while i < rings.len()
        invariant
            i <= rings@.len(),
            rings_points(rings@) <= usize::MAX,
            total == rings_points(rings@.take(i as int)),
        decreases rings@.len() - i,
    {
        assert(rings@.take(i + 1).drop_last() =~= rings@.take(i as int));
        proof {
            lemma_rings_points_prefix(rings@, i + 1);
        }
        total = total + rings[i].len();
        i = i + 1;
    }
    assert(rings@.take(i as int) =~= rings@);
    total
}

proof fn lemma_rings_points_prefix<N>(rings: Seq<Vec<Coord<N>>>, k: int)
    requires
        0 <= k <= rings.len(),
    ensures
        rings_points(rings.take(k)) <= rings_points(rings),
    decreases rings.len(),
{
    if k < rings.len() {
        assert(rings.drop_last().take(k) =~= rings.take(k));
        lemma_rings_points_prefix(rings.drop_last(), k);
    } else {
        assert(rings.take(k) =~= rings);
    }
}

/// The summary text of a geometry other than a point.
pub fn geom_info<N>(geom: &Geometry<N>) -> (info: String)
    requires
        geom matches Geometry::Polygon(rings) ==> rings_points(rings@) <= usize::MAX,
    ensures
        info@ == geom_info_of(*geom),
{
    match geom {
        Geometry::Point(_) => String::new(),
        Geometry::LineString(cs) => {
            let mut s = String::from_str("LineString — ");
            s.append(u64_text(cs.len() as u64).as_str());
            s.append(" points");
            s
        },
        Geometry::Polygon(rings) => {
            let pts = count_points(rings);
            let mut s = String::from_str("Polygon — ");
            s.append(u64_text(rings.len() as u64).as_str());
            s.append(" ring(s), ");
            s.append(u64_text(pts as u64).as_str());
            s.append(" points");
            s
        },
        Geometry::MultiGeometry(gs) => {
            let mut s = String::from_str("MultiGeometry — ");
            s.append(u64_text(gs.len() as u64).as_str());
            s.append(" geometries");
            s
        },
    }
}

/// The first sixty characters of a description, followed by an ellipsis
/// when the description is longer than sixty bytes.
pub open spec fn preview_of(desc: Seq<char>) -> Seq<char> {
    let short = if desc.len() > 60 {
        desc.take(60)
    } else {
        desc
    };
    if vstd::utf8::encode_utf8(desc).len() > 60 {
        short + "…"@
    } else {
        short
    }
}

pub fn description_preview(desc: &str) -> (p: String)
    ensures
        p@ == preview_of(desc@),
{
    let n = desc.unicode_len();
    let end = if n > 60 {
        60
    } else {
        n
    };
    let mut p = String::from_str(desc.substring_char(0, end));
    assert(p@ =~= if desc@.len() > 60 {
        desc@.take(60)
    } else {
        desc@
    });
    let bytes = desc.as_bytes().len();
    if bytes > 60 {
        p.append("…");
    }
    p
}

/// The icon of a placemark's title line, by its geometry.
pub open spec fn title_icon_of<N>(g: Option<Geometry<N>>) -> Seq<char> {
    match g {
        Some(Geometry::Point(_)) => "● "@,
        Some(Geometry::LineString(_)) => "─ "@,
        Some(Geometry::Polygon(_)) => "◻ "@,
        Some(Geometry::MultiGeometry(_)) => "◈ "@,
        None => "· "@,
    }
}

pub open spec fn opt_line<N>(b: bool, l: DetailView<N>) -> Seq<DetailView<N>> {
    if b {
        seq![l]
    } else {
        Seq::empty()
    }
}

/// The lines of the details panel for the selected feature.
pub open spec fn details_of<N>(f: Option<Feature<N>>) -> Seq<DetailView<N>> {
    match f {
        None => seq![DetailView::Plain("No selection"@, Tone::DarkGray)],
        Some(Feature::Folder { name, features }) => seq![
            DetailView::Title("📁 "@, Tone::Default, name@),
            DetailView::Plain(decimal(features@.len()) + " item(s)"@, Tone::Gray),
        ],
        Some(Feature::Placemark { name, geometry, description, style_id }) => seq![
            DetailView::Title(title_icon_of(geometry), Tone::Yellow, name@),
        ] + opt_line(geometry is Some, geom_line_of(geometry->0)) + opt_line(
            description is Some,
            DetailView::Plain(preview_of(description->0@), Tone::DarkGray),
        ) + opt_line(
            style_id is Some,
            DetailView::Plain("style: "@ + style_id->0@, Tone::DarkGray),
        ),
    }
}

/// What the details panel shows for `feature`: the feature's title, then for
/// a folder its item count, for a placemark its geometry summary,
/// description preview and style id, each when present.
pub fn details_lines<'a, N>(feature: Option<&'a Feature<N>>) -> (lines: Vec<DetailLine<'a, N>>)
    requires
        feature matches Some(Feature::Placemark { geometry: Some(Geometry::Polygon(rings)), .. })
            ==> rings_points(rings@) <= usize::MAX,
    ensures
        details_view(lines@) == details_of(
            match feature {
                Some(f) => Some(*f),
                None => None,
            },
        ),
{
    let mut lines: Vec<DetailLine<'a, N>> = Vec::new();
    match feature {
        None => {
            lines.push(DetailLine::Plain { text: String::from_str("No selection"), tone: Tone::DarkGray });
        },
        Some(Feature::Folder { name, features }) => {
            lines.push(DetailLine::Title { icon: "📁 ", icon_tone: Tone::Default, name: name.clone() });
            let mut count = u64_text(features.len() as u64);
            count.append(" item(s)");
            lines.push(DetailLine::Plain { text: count, tone: Tone::Gray });
        },
        Some(Feature::Placemark { name, geometry, description, style_id }) => {
            let icon = match geometry {
                Some(Geometry::Point(_)) => "● ",
                Some(Geometry::LineString(_)) => "─ ",
                Some(Geometry::Polygon(_)) => "◻ ",
                Some(Geometry::MultiGeometry(_)) => "◈ ",
                None => "· ",
            };
            lines.push(DetailLine::Title { icon, icon_tone: Tone::Yellow, name: name.clone() });
            let ghost l1 = details_view(lines@);
            if let Some(geom) = geometry {
                match geom {
                    Geometry::Point(c) => {
                        lines.push(DetailLine::PointInfo { at: c });
                    },
                    _ => {
                        lines.push(DetailLine::Plain { text: geom_info(geom), tone: Tone::Gray });
                    },
                }
            }
            let ghost l2 = details_view(lines@);
            assert(l2 =~= l1 + opt_line(geometry is Some, geom_line_of(geometry->0)));
            if let Some(desc) = description {
                lines.push(
                    DetailLine::Plain { text: description_preview(desc.as_str()), tone: Tone::DarkGray },
                );
            }
            let ghost l3 = details_view(lines@);
            assert(l3 =~= l2 + opt_line(
                description is Some,
                DetailView::Plain(preview_of(description->0@), Tone::DarkGray),
            ));
            if let Some(sid) = style_id {
                let mut s = String::from_str("style: ");
                s.append(sid.as_str());
                lines.push(DetailLine::Plain { text: s, tone: Tone::DarkGray });
            }
        },
    }
    assert(details_view(lines@) =~= details_of(
        match feature {
            Some(f) => Some(*f),
            None => None,
        },
    ));
    lines
}

} // verus!
