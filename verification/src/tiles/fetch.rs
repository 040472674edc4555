use vstd::prelude::*;

use crate::text::{decimal, replace_all, replaced, u64_text};
use crate::tiles::math::TileCoord;

verus! {

broadcast use vstd::string::group_string_axioms;

/// What flate2's gzip decoder yields for `data`: the decompressed bytes, or
/// `None` when `data` is not a valid gzip stream.
pub uninterp spec fn gunzip_result(data: Seq<u8>) -> Option<Seq<u8>>;

pub open spec fn opt_bytes(o: Option<Vec<u8>>) -> Option<Seq<u8>> {
    match o {
        Some(v) => Some(v@),
        None => None,
    }
}

/// Decompresses `data` with `flate2::read::GzDecoder`, reading to the end.
/// Trusted: the result is `gunzip_result(data)`; what that is, is left to
/// flate2 and not stated.
#[verifier::external_body]
fn decompress_gzip(data: &[u8]) -> (r: Option<Vec<u8>>)
    ensures
        opt_bytes(r) == gunzip_result(data@),
{
    let mut decoder = flate2::read::GzDecoder::new(data);
    let mut buf = Vec::new();
    match std::io::Read::read_to_end(&mut decoder, &mut buf) {
        Ok(_) => Some(buf),
        Err(_) => None,
    }
}

/// The bytes to decode from a tile response body: its decompression when
/// it is gzip data, the body itself otherwise.
pub open spec fn payload_of(body: Seq<u8>, unzipped: Option<Seq<u8>>) -> Seq<u8> {
    match unzipped {
        Some(d) => d,
        None => body,
    }
}

/// Picks the payload of a tile response body given what decompressing it gave.
pub fn payload_from(body: &[u8], unzipped: Option<Vec<u8>>) -> (p: Vec<u8>)
    ensures
        p@ == payload_of(body@, opt_bytes(unzipped)),
{
    match unzipped {
        Some(d) => d,
        None => vstd::slice::slice_to_vec(body),
    }
}

/// The protobuf payload of a tile response body: `None` for an empty body
/// (a tile with nothing in it), otherwise the gunzipped body, or the body
/// as it is when it is not gzip data.
pub fn tile_payload(body: &[u8]) -> (p: Option<Vec<u8>>)
    ensures
        body@.len() == 0 ==> p is None,
        body@.len() > 0 ==> p is Some && p->0@ == payload_of(body@, gunzip_result(body@)),
{
    if body.len() == 0 {
        None
    } else {
        let unzipped = decompress_gzip(body);
        Some(payload_from(body, unzipped))
    }
}

/// The URL of a tile: the template with `{z}`, `{x}` and `{y}` replaced by
/// the tile's zoom, column and row in decimal.
pub open spec fn tile_url_of(template: Seq<char>, coord: TileCoord) -> Seq<char> {
    replaced(
        replaced(replaced(template, "{z}"@, decimal(coord.z as nat)), "{x}"@, decimal(coord.x as nat)),
        "{y}"@,
        decimal(coord.y as nat),
    )
}

pub fn tile_url(template: &str, coord: &TileCoord) -> (url: String)
    ensures
        url@ == tile_url_of(template@, *coord),
{
    proof {
        reveal_strlit("{z}");
        reveal_strlit("{x}");
        reveal_strlit("{y}");
    }
    let z = u64_text(coord.z as u64);
    let x = u64_text(coord.x as u64);
    let y = u64_text(coord.y as u64);
    let with_z = replace_all(template, "{z}", z.as_str());
    let with_x = replace_all(with_z.as_str(), "{x}", x.as_str());
    replace_all(with_x.as_str(), "{y}", y.as_str())
}

} // verus!
