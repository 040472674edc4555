use vstd::prelude::*;

verus! {

/// The geometry type of a vector tile feature.
#[derive(Debug, Clone, Copy, PartialEq, Eq, Structural)]
pub enum GeomType {
    Unknown,
    Point,
    LineString,
    Polygon,
}

/// The geometry type that a feature's raw `type` field stands for
/// (1 point, 2 line string, 3 polygon; anything else, or no field, is unknown).
pub open spec fn geom_type_of(t: Option<i32>) -> GeomType {
    match t {
        Some(1) => GeomType::Point,
        Some(2) => GeomType::LineString,
        Some(3) => GeomType::Polygon,
        _ => GeomType::Unknown,
    }
}

pub fn geom_type_from_field(t: Option<i32>) -> (g: GeomType)
    ensures
        g == geom_type_of(t),
{
    match t {
        Some(1) => GeomType::Point,
        Some(2) => GeomType::LineString,
        Some(3) => GeomType::Polygon,
        _ => GeomType::Unknown,
    }
}

/// A tag value of a vector tile layer. The floating-point variants are held
/// as the text that their `to_string` gives.
pub struct TileValue {
    pub string_value: Option<String>,
    pub float_value: Option<String>,
    pub double_value: Option<String>,
    pub int_value: Option<i64>,
    pub uint_value: Option<u64>,
    pub sint_value: Option<i64>,
    pub bool_value: Option<bool>,
}

/// A feature of a vector tile layer: interleaved key/value tag indices, the
/// raw geometry type field, and the geometry command stream.
pub struct TileFeature {
    pub tags: Vec<u32>,
    pub geom_type: Option<i32>,
    pub geometry: Vec<u32>,
}

pub struct Layer {
    pub name: String,
    pub extent: Option<u32>,
    pub features: Vec<TileFeature>,
    pub keys: Vec<String>,
    pub values: Vec<TileValue>,
}

/// A Mapbox vector tile.
pub struct Tile {
    pub layers: Vec<Layer>,
}

} // verus!
