use vstd::prelude::*;

use crate::text::{decimal, i64_text, signed_decimal, u64_text};
use crate::text_map::TextMap;
use crate::tiles::proto::{geom_type_from_field, geom_type_of, GeomType, Layer, Tile, TileFeature, TileValue};
use vstd::string::StringExecFns;

verus! {

broadcast use vstd::string::group_string_axioms;

/// A point in tile-local integer coordinates (before projection to lon/lat).
pub type TilePoint = (i32, i32);

/// The value that the zigzag encoding `val` stands for.
pub open spec fn zigzag_value(val: u32) -> int {
    if val % 2 == 0 {
        (val / 2) as int
    } else {
        -((val / 2) as int) - 1
    }
}

fn zigzag_decode(val: u32) -> (r: i32)
    ensures
        r as int == zigzag_value(val),
{
    let bit: u32 = val & 1;
    let half: u32 = val >> 1;
    assert(bit == val % 2 && half == val / 2 && bit <= 1 && half <= 0x7fff_ffff) by (bit_vector)
        requires
            bit == val & 1,
            half == val >> 1,
    ;
    let h: i32 = half as i32;
    let neg: i32 = 0 - (bit as i32);
    assert(h >= 0 && (neg == 0 ==> (h ^ neg) == h) && (neg == -1 ==> (h ^ neg) == -h - 1))
        by (bit_vector)
        requires
            h == half as i32,
            half <= 0x7fff_ffff,
    ;
    h ^ neg
}

/// Public wrapper for testing.
pub fn zigzag_decode_pub(val: u32) -> (r: i32)
    ensures
        r as int == zigzag_value(val),
{
    zigzag_decode(val)
}

/// The zigzag encoding of `v`: non-negative values to even numbers,
/// negative ones to odd numbers.
pub open spec fn zigzag_encoded(v: int) -> int {
    if v >= 0 {
        2 * v
    } else {
        -2 * v - 1
    }
}

/// Decoding undoes the encoding: each `i32` is encoded as a `u32` that
/// decodes back to it.
pub proof fn lemma_zigzag_roundtrip(v: i32)
    ensures
        0 <= zigzag_encoded(v as int) <= u32::MAX,
        zigzag_value(zigzag_encoded(v as int) as u32) == v,
{
}

/// No two integers decode to the same value, and every decoded value is an
/// `i32`.
pub proof fn lemma_zigzag_injective(a: u32, b: u32)
    ensures
        zigzag_value(a) == zigzag_value(b) ==> a == b,
        i32::MIN <= zigzag_value(a) <= i32::MAX,
{
}

/// The decoder's state between commands: the finished rings, the ring being
/// built, and the cursor position.
pub struct DecodeState {
    pub rings: Seq<Seq<TilePoint>>,
    pub current: Seq<TilePoint>,
    pub cx: i32,
    pub cy: i32,
}

pub open spec fn initial_state() -> DecodeState {
    DecodeState { rings: Seq::empty(), current: Seq::empty(), cx: 0, cy: 0 }
}

/// The command id of a command integer (its low three bits).
pub open spec fn command_id(cmd: u32) -> u32 {
    cmd % 8
}

/// The repeat count of a command integer (the bits above the id).
pub open spec fn command_count(cmd: u32) -> nat {
    (cmd / 8) as nat
}

/// Moves the cursor by the zigzag pair at `g[i], g[i + 1]` (wrapping on i32
/// overflow) and appends the new position to the current ring.
pub open spec fn push_point(g: Seq<u32>, i: int, s: DecodeState) -> DecodeState {
    let cx = s.cx.wrapping_add(zigzag_value(g[i]) as i32);
    let cy = s.cy.wrapping_add(zigzag_value(g[i + 1int]) as i32);
    DecodeState { current: s.current.push((cx, cy)), cx, cy, ..s }
}

/// Reads up to `count` coordinate pairs starting at `g[i]`, stopping early when
/// fewer than two integers remain. Returns the new state and the index after
/// the last pair read.
pub open spec fn read_points(g: Seq<u32>, i: nat, count: nat, s: DecodeState) -> (DecodeState, nat)
    decreases count,
{
    if count == 0 || i + 1 >= g.len() {
        (s, i)
    } else {
        read_points(g, i + 2, (count - 1) as nat, push_point(g, i as int, s))
    }
}

/// Closes the ring being built into the list of finished rings, if it has points.
pub open spec fn flush(s: DecodeState) -> DecodeState {
    if s.current.len() > 0 {
        DecodeState { rings: s.rings.push(s.current), current: Seq::empty(), ..s }
    } else {
        s
    }
}

/// ClosePath: repeats the first point of the current ring, if there is one.
pub open spec fn close_path(s: DecodeState) -> DecodeState {
    if s.current.len() > 0 {
        DecodeState { current: s.current.push(s.current[0]), ..s }
    } else {
        s
    }
}

pub proof fn lemma_read_points_bounds(g: Seq<u32>, i: nat, count: nat, s: DecodeState)
    ensures
        read_points(g, i, count, s).1 >= i,
        i <= g.len() ==> read_points(g, i, count, s).1 <= g.len(),
        read_points(g, i, count, s).0.rings == s.rings,
    decreases count,
{
    if count == 0 || i + 1 >= g.len() {
    } else {
        lemma_read_points_bounds(g, i + 2, (count - 1) as nat, push_point(g, i as int, s));
    }
}

/// The rings that the command stream `g` yields when decoding resumes at
/// index `i` in state `s` (MoveTo = 1, LineTo = 2, ClosePath = 7; other ids
/// are skipped).
pub open spec fn decode_from(g: Seq<u32>, i: nat, s: DecodeState) -> Seq<Seq<TilePoint>>
    decreases g.len() - i,
{
    if i >= g.len() {
        flush(s).rings
    } else {
        let cmd = g[i as int];
        let id = command_id(cmd);
        if id == 1 || id == 2 {
            let start = if id == 1 { flush(s) } else { s };
            let r = read_points(g, i + 1, command_count(cmd), start);
            proof {
                lemma_read_points_bounds(g, i + 1, command_count(cmd), start);
            }
            decode_from(g, r.1, r.0)
        } else if id == 7 {
            decode_from(g, i + 1, close_path(s))
        } else {
            decode_from(g, i + 1, s)
        }
    }
}

/// The rings that an MVT geometry command stream decodes to.
pub open spec fn decoded_rings(g: Seq<u32>) -> Seq<Seq<TilePoint>> {
    decode_from(g, 0, initial_state())
}

pub open spec fn rings_view(rings: Seq<Vec<TilePoint>>) -> Seq<Seq<TilePoint>> {
    rings.map_values(|r: Vec<TilePoint>| r@)
}

fn read_points_exec(
    geometry: &[u32],
    i: usize,
    count: usize,
    current: &mut Vec<TilePoint>,
    cx: &mut i32,
    cy: &mut i32,
    Ghost(rings): Ghost<Seq<Seq<TilePoint>>>,
) -> (j: usize)
    requires
        i <= geometry@.len(),
    ensures
        ({
            let r = read_points(
                geometry@,
                i as nat,
                count as nat,
                DecodeState { rings, current: old(current)@, cx: *old(cx), cy: *old(cy) },
            );
            &&& r.1 == j as nat
            &&& r.0 == DecodeState { rings, current: final(current)@, cx: *final(cx), cy: *final(cy) }
        }),
        i <= j <= geometry@.len(),
{
    proof {
        lemma_read_points_bounds(
            geometry@,
            i as nat,
            count as nat,
            DecodeState { rings, current: current@, cx: *cx, cy: *cy },
        );
    }
    let ghost target = read_points(
        geometry@,
        i as nat,
        count as nat,
        DecodeState { rings, current: current@, cx: *cx, cy: *cy },
    );
    let mut i = i;
    let mut k: usize = 0;
    while k < count
        invariant_except_break
            read_points(geometry@, i as nat, (count - k) as nat,
                DecodeState { rings, current: current@, cx: *cx, cy: *cy }) == target,
        invariant
            i <= geometry@.len(),
            k <= count,
        ensures
            read_points(geometry@, i as nat, (count - k) as nat,
                DecodeState { rings, current: current@, cx: *cx, cy: *cy }) == target,
            read_points(geometry@, i as nat, (count - k) as nat,
                DecodeState { rings, current: current@, cx: *cx, cy: *cy }) == (
                DecodeState { rings, current: current@, cx: *cx, cy: *cy }, i as nat),
        decreases count - k,
    {
        if geometry.len() - i < 2 {
            break;
        }
        let dx = zigzag_decode(geometry[i]);
        let dy = zigzag_decode(geometry[i + 1]);
        *cx = cx.wrapping_add(dx);
        *cy = cy.wrapping_add(dy);
        current.push((*cx, *cy));
        i = i + 2;
        k = k + 1;
    }
    i
}

/// Decodes an MVT geometry command stream into rings of tile-local points.
/// MoveTo (1) starts a new ring, LineTo (2) extends the current one, ClosePath
/// (7) repeats the ring's first point; a command whose pairs run past the end
/// of the stream stops at the last whole pair, and unknown ids are skipped.
pub fn decode_geometry(geometry: &[u32]) -> (rings: Vec<Vec<TilePoint>>)
    ensures
        rings_view(rings@) == decoded_rings(geometry@),
{
    let mut rings: Vec<Vec<TilePoint>> = Vec::new();
    let mut current: Vec<TilePoint> = Vec::new();
    let mut cx: i32 = 0;
    let mut cy: i32 = 0;
    let mut i: usize = 0;
    assert(rings_view(rings@) =~= Seq::<Seq<TilePoint>>::empty());
    while i < geometry.len()
        invariant
            i <= geometry@.len(),
            decode_from(
                geometry@,
                i as nat,
                DecodeState { rings: rings_view(rings@), current: current@, cx, cy },
            ) == decoded_rings(geometry@),
        decreases geometry@.len() - i,
    {
        let ghost s = DecodeState { rings: rings_view(rings@), current: current@, cx, cy };
        let cmd_int = geometry[i];
        let cmd_id = cmd_int & 0x7;
        let count = (cmd_int >> 3) as usize;
        assert(cmd_id == cmd_int % 8 && (cmd_int >> 3) == cmd_int / 8) by (bit_vector)
            requires
                cmd_id == cmd_int & 0x7,
        ;
        i = i + 1;
        if cmd_id == 1 || cmd_id == 2 {
            if cmd_id == 1 && current.len() > 0 {
                let finished = current;
                current = Vec::new();
                rings.push(finished);
                assert(rings_view(rings@) =~= s.rings.push(s.current));
            }
            let ghost start = DecodeState { rings: rings_view(rings@), current: current@, cx, cy };
            assert(start == if cmd_id == 1 { flush(s) } else { s });
            i = read_points_exec(geometry, i, count, &mut current, &mut cx, &mut cy, Ghost(rings_view(rings@)));
        } else if cmd_id == 7 {
            if current.len() > 0 {
                let first = current[0];
                current.push(first);
            }
        }
    }
    if current.len() > 0 {
        let ghost s = DecodeState { rings: rings_view(rings@), current: current@, cx, cy };
        rings.push(current);
        assert(rings_view(rings@) =~= s.rings.push(s.current));
    }
    rings
}

/// Law: a ClosePath never moves the cursor. Whatever the state, decoding
/// from a ClosePath goes on from the same cursor, with the same finished
/// rings; only the ring being built gains its first point again. So a MoveTo
/// that follows a ClosePath is taken from the last point read.
pub proof fn lemma_close_path_keeps_cursor(g: Seq<u32>, i: nat, s: DecodeState)
    requires
        i < g.len(),
        command_id(g[i as int]) == 7,
    ensures
        decode_from(g, i, s) == decode_from(
            g,
            i + 1,
            DecodeState {
                rings: s.rings,
                current: if s.current.len() > 0 {
                    s.current.push(s.current[0])
                } else {
                    s.current
                },
                cx: s.cx,
                cy: s.cy,
            },
        ),
{
}

/// Law: a MoveTo of one pair starts a new ring at the cursor moved by that
/// pair, after the ring being built (if any) is finished; so the first
/// point of every ring is relative to the point read just before, whatever
/// commands came in between.
pub proof fn lemma_move_to_starts_at_cursor(g: Seq<u32>, i: nat, s: DecodeState)
    requires
        i + 2 < g.len(),
        g[i as int] == 9,
    ensures
        decode_from(g, i, s) == decode_from(
            g,
            i + 3,
            DecodeState {
                rings: if s.current.len() > 0 {
                    s.rings.push(s.current)
                } else {
                    s.rings
                },
                current: seq![
                    (
                        s.cx.wrapping_add(zigzag_value(g[i + 1int]) as i32),
                        s.cy.wrapping_add(zigzag_value(g[i + 2int]) as i32),
                    ),
                ],
                cx: s.cx.wrapping_add(zigzag_value(g[i + 1int]) as i32),
                cy: s.cy.wrapping_add(zigzag_value(g[i + 2int]) as i32),
            },
        ),
{
    let start = flush(s);
    assert(command_id(9) == 1 && command_count(9) == 1);
    let p = push_point(g, i + 1int, start);
    assert(read_points(g, (i + 1) as nat, 1, start) == read_points(g, (i + 3) as nat, 0, p));
    assert(p.current =~= seq![(p.cx, p.cy)]);
}

/// The extent of a layer's tile-local coordinates when the layer gives none.
pub const DEFAULT_EXTENT: u32 = 4096;

/// A decoded vector tile feature. The rings hold points of type `P`: tile-local
/// integer points as decoded, or projected positions once the caller has
/// placed them on the map.
pub struct DecodedFeature<P> {
    pub layer: String,
    pub geom_type: GeomType,
    /// The layer's extent: the size of the tile in tile-local units.
    pub extent: u32,
    pub rings: Vec<Vec<P>>,
    pub properties: TextMap<String>,
}

pub open spec fn opt_text(o: Option<String>) -> Option<Seq<char>> {
    match o {
        Some(s) => Some(s@),
        None => None,
    }
}

/// The text of a tag value: the first variant present, in the order string,
/// int, float, double, uint, sint, bool.
pub open spec fn value_text_of(v: TileValue) -> Option<Seq<char>> {
    if v.string_value is Some {
        opt_text(v.string_value)
    } else if v.int_value is Some {
        Some(signed_decimal(v.int_value->0 as int))
    } else if v.float_value is Some {
        opt_text(v.float_value)
    } else if v.double_value is Some {
        opt_text(v.double_value)
    } else if v.uint_value is Some {
        Some(decimal(v.uint_value->0 as nat))
    } else if v.sint_value is Some {
        Some(signed_decimal(v.sint_value->0 as int))
    } else if v.bool_value is Some {
        Some(
            if v.bool_value->0 {
                "true"@
            } else {
                "false"@
            },
        )
    } else {
        None
    }
}

pub fn value_text(v: &TileValue) -> (t: Option<String>)
    ensures
        opt_text(t) == value_text_of(*v),
{
    if let Some(s) = &v.string_value {
        Some(s.clone())
    } else if let Some(n) = v.int_value {
        Some(i64_text(n))
    } else if let Some(s) = &v.float_value {
        Some(s.clone())
    } else if let Some(s) = &v.double_value {
        Some(s.clone())
    } else if let Some(n) = v.uint_value {
        Some(u64_text(n))
    } else if let Some(n) = v.sint_value {
        Some(i64_text(n))
    } else if let Some(b) = v.bool_value {
        if b {
            Some(String::from_str("true"))
        } else {
            Some(String::from_str("false"))
        }
    } else {
        None
    }
}

/// The property that the `k`-th tag pair stands for, if its key and value
/// indices are in range and the value has a variant.
pub open spec fn tag_entry(tags: Seq<u32>, keys: Seq<String>, values: Seq<TileValue>, k: int) -> Option<
    (Seq<char>, Seq<char>),
> {
    let ki = tags[2 * k] as int;
    let vi = tags[2 * k + 1] as int;
    if ki < keys.len() && vi < values.len() {
        match value_text_of(values[vi]) {
            Some(t) => Some((keys[ki]@, t)),
            None => None,
        }
    } else {
        None
    }
}

/// The properties of the first `k` tag pairs; a later pair overrides an
/// earlier one with the same key.
pub open spec fn tag_properties(tags: Seq<u32>, keys: Seq<String>, values: Seq<TileValue>, k: nat) -> Map<
    Seq<char>,
    Seq<char>,
>
    decreases k,
{
    if k == 0 {
        Map::empty()
    } else {
        let m = tag_properties(tags, keys, values, (k - 1) as nat);
        match tag_entry(tags, keys, values, k - 1) {
            Some(e) => m.insert(e.0, e.1),
            None => m,
        }
    }
}

/// The properties of a feature: one per whole pair of its tags.
pub open spec fn feature_properties_of(layer: Layer, f: TileFeature) -> Map<Seq<char>, Seq<char>> {
    tag_properties(f.tags@, layer.keys@, layer.values@, f.tags@.len() / 2)
}

pub open spec fn texts_view(m: Map<Seq<char>, String>) -> Map<Seq<char>, Seq<char>> {
    Map::new(|k: Seq<char>| m.dom().contains(k), |k: Seq<char>| m[k]@)
}

pub fn feature_properties(layer: &Layer, feature: &TileFeature) -> (props: TextMap<String>)
    ensures
        texts_view(props@) == feature_properties_of(*layer, *feature),
{
    let tags = &feature.tags;
    let mut props: TextMap<String> = TextMap::new();
    let mut ti: usize = 0;
    assert(texts_view(props@) =~= Map::empty());
    while tags.len() - ti >= 2
        invariant
            ti <= tags@.len(),
            ti % 2 == 0,
            texts_view(props@) == tag_properties(tags@, layer.keys@, layer.values@, (ti / 2) as nat),
        decreases tags@.len() - ti,
    {
        let ghost k = ti / 2;
        let key_idx = tags[ti] as usize;
        let val_idx = tags[ti + 1] as usize;
        let ghost before = texts_view(props@);
        if key_idx < layer.keys.len() && val_idx < layer.values.len() {
            match value_text(&layer.values[val_idx]) {
                Some(t) => {
                    let ghost tv = t@;
                    props.insert(layer.keys[key_idx].clone(), t);
                    assert(texts_view(props@) =~= before.insert(layer.keys@[key_idx as int]@, tv));
                },
                None => {},
            }
        }
        ti = ti + 2;
        assert(ti / 2 == k + 1);
    }
    assert(ti / 2 == tags@.len() / 2);
    props
}

/// A decoded feature as plain values.
pub struct FeatureView {
    pub layer: Seq<char>,
    pub geom_type: GeomType,
    pub extent: u32,
    pub rings: Seq<Seq<TilePoint>>,
    pub properties: Map<Seq<char>, Seq<char>>,
}

pub open spec fn feature_view(d: DecodedFeature<TilePoint>) -> FeatureView {
    FeatureView {
        layer: d.layer@,
        geom_type: d.geom_type,
        extent: d.extent,
        rings: rings_view(d.rings@),
        properties: texts_view(d.properties@),
    }
}

pub open spec fn extent_of(layer: Layer) -> u32 {
    match layer.extent {
        Some(e) => e,
        None => DEFAULT_EXTENT,
    }
}

/// What a feature of `layer` decodes to: nothing when its geometry yields
/// no ring.
pub open spec fn feature_decoded(layer: Layer, f: TileFeature) -> Seq<FeatureView> {
    let rings = decoded_rings(f.geometry@);
    if rings.len() == 0 {
        Seq::empty()
    } else {
        seq![
            FeatureView {
                layer: layer.name@,
                geom_type: geom_type_of(f.geom_type),
                extent: extent_of(layer),
                rings,
                properties: feature_properties_of(layer, f),
            },
        ]
    }
}

pub open spec fn layer_decoded(layer: Layer, fs: Seq<TileFeature>) -> Seq<FeatureView>
    decreases fs.len(),
{
    if fs.len() == 0 {
        Seq::empty()
    } else {
        layer_decoded(layer, fs.drop_last()) + feature_decoded(layer, fs.last())
    }
}

pub open spec fn layers_decoded(ls: Seq<Layer>) -> Seq<FeatureView>
    decreases ls.len(),
{
    if ls.len() == 0 {
        Seq::empty()
    } else {
        layers_decoded(ls.drop_last()) + layer_decoded(ls.last(), ls.last().features@)
    }
}

/// The features of a tile, layer by layer, in the order the tile lists them.
pub open spec fn tile_decoded(tile: Tile) -> Seq<FeatureView> {
    layers_decoded(tile.layers@)
}

pub open spec fn features_view(ds: Seq<DecodedFeature<TilePoint>>) -> Seq<FeatureView> {
    ds.map_values(|d: DecodedFeature<TilePoint>| feature_view(d))
}

/// Decodes every feature of every layer of `tile` whose geometry yields at
/// least one ring, with its layer name, geometry type, extent and properties.
pub fn decode_tile(tile: &Tile) -> (features: Vec<DecodedFeature<TilePoint>>)
    ensures
        features_view(features@) == tile_decoded(*tile),
{
    let mut features: Vec<DecodedFeature<TilePoint>> = Vec::new();
    let mut li: usize = 0;
    while li < tile.layers.len()
        invariant
            li <= tile.layers@.len(),
            features_view(features@) == layers_decoded(tile.layers@.take(li as int)),
        decreases tile.layers@.len() - li,
    {
        let layer = &tile.layers[li];
        let extent = match layer.extent {
            Some(e) => e,
            None => DEFAULT_EXTENT,
        };
        let ghost start = features_view(features@);
        let mut fi: usize = 0;
        while fi < layer.features.len()
            invariant
                fi <= layer.features@.len(),
                extent == extent_of(*layer),
                features_view(features@) == start + layer_decoded(*layer, layer.features@.take(fi as int)),
            decreases layer.features@.len() - fi,
        {
            let feature = &layer.features[fi];
            let rings = decode_geometry(feature.geometry.as_slice());
            let ghost before = features_view(features@);
            if rings.len() > 0 {
                let properties = feature_properties(layer, feature);
                let d = DecodedFeature {
                    layer: layer.name.clone(),
                    geom_type: geom_type_from_field(feature.geom_type),
                    extent,
                    rings,
                    properties,
                };
                features.push(d);
                assert(features_view(features@) =~= before + feature_decoded(*layer, *feature));
            } else {
                assert(features_view(features@) =~= before + feature_decoded(*layer, *feature));
            }
            assert(layer.features@.take(fi + 1).drop_last() =~= layer.features@.take(fi as int));
            fi = fi + 1;
        }
        assert(layer.features@.take(layer.features@.len() as int) =~= layer.features@);
        assert(tile.layers@.take(li + 1).drop_last() =~= tile.layers@.take(li as int));
        li = li + 1;
    }
    assert(tile.layers@.take(tile.layers@.len() as int) =~= tile.layers@);
    features
}

} // verus!
