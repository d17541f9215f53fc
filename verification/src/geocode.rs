//! The computing parts of the geocoder client: building the query URL for
//! the remote search service and picking the first candidate out of its
//! answer. The HTTP request itself and the JSON decoding stay outside the
//! library and hand their results in as plain values.

use vstd::prelude::*;
use vstd::utf8::encode_utf8;

use crate::error::ErrorKind;
use crate::error::SetupError;

verus! {

/// One candidate match as the geocoding service reports it: coordinates as
/// decimal text, and an optional human-readable place name.
#[derive(Debug, Clone)]
pub struct NominatimResult {
    pub lat: String,
    pub lon: String,
    pub display_name: Option<String>,
}

/// True for the bytes a URL query value may carry as they stand: ASCII
/// letters and digits and `-`, `.`, `_`, `~`.
pub open spec fn is_url_safe_byte(b: u8) -> bool {
    (('0' as u8) <= b && b <= ('9' as u8)) || (('A' as u8) <= b && b <= ('Z' as u8)) || (('a'
        as u8) <= b && b <= ('z' as u8)) || b == ('-' as u8) || b == ('.' as u8) || b == ('_'
        as u8) || b == ('~' as u8)
}

/// The character standing for the hex digit `d`, with capital letters for
/// ten to fifteen.
pub open spec fn hex_digit_char(d: u8) -> char
    recommends
        d < 16,
{
    if d < 10 {
        (('0' as u32) + (d as u32)) as char
    } else {
        (('A' as u32) + (d as u32) - 10) as char
    }
}

/// The percent-encoded form of a byte sequence: a safe byte stands as its
/// own character, and every other byte becomes `%` followed by its two
/// capital hex digits.
pub open spec fn percent_encoded(bytes: Seq<u8>) -> Seq<char>
    decreases bytes.len(),
{
    if bytes.len() == 0 {
        Seq::empty()
    } else {
        let head = if is_url_safe_byte(bytes[0]) {
            seq![bytes[0] as char]
        } else {
            seq!['%', hex_digit_char(bytes[0] / 16), hex_digit_char(bytes[0] % 16)]
        };
        head + percent_encoded(bytes.drop_first())
    }
}

/// The URL queried for a location: the fixed search endpoint, the
/// percent-encoded query text, and the JSON format flag.
pub open spec fn search_url_of(query: Seq<char>) -> Seq<char> {
    "https://nominatim.openstreetmap.org/search?q="@ + percent_encoded(encode_utf8(query))
        + "&format=json"@
}

/// Relies on `urlencoding::encode`: it percent-encodes every byte of the
/// argument's UTF-8 form except ASCII alphanumerics and `-`, `.`, `_`, `~`,
/// writing two capital hex digits after each `%`.
#[verifier::external_body]
fn url_encode(s: &str) -> (r: String)
    ensures
        r@ == percent_encoded(encode_utf8(s@)),
{
    urlencoding::encode(s).into_owned()
}

/// The exact URL sent to the geocoding service for this query text.
pub fn build_search_url(query: &str) -> (url: String)
    ensures
        url@ == search_url_of(query@),
{
    let mut url = String::from_str("https://nominatim.openstreetmap.org/search?q=");
    let encoded = url_encode(query);
    url.append(encoded.as_str());
    url.append("&format=json");
    url
}

/// The first candidate of the service's answer; exactly the empty answer is
/// refused, as a remote failure.
pub fn first_result(results: Vec<NominatimResult>) -> (r: Result<NominatimResult, SetupError>)
    ensures
        (results@.len() > 0 ==> (r matches Ok(first) && first == results@[0])),
        (results@.len() == 0 ==> (r matches Err(e) && e.kind == ErrorKind::RemoteFailure)),
{
    let mut rest = results;
    if rest.len() == 0 {
        Err(SetupError::new(ErrorKind::RemoteFailure, "No results found"))
    } else {
        Ok(rest.remove(0))
    }
}

/// The label shown for a candidate: its display name when the service gave
/// one, and a fixed fallback otherwise.
pub fn display_label(r: &NominatimResult) -> (s: String)
    ensures
        (r.display_name matches Some(d) ==> s@ == d@),
        (r.display_name is None ==> s@ == "Unknown location"@),
{
    match &r.display_name {
        Some(d) => d.clone(),
        None => String::from_str("Unknown location"),
    }
}

/// The `homepos` value for a pair of coordinates: latitude, one comma,
/// longitude.
pub fn format_homepos(lat: &str, lon: &str) -> (r: String)
    ensures
        r@ == lat@ + seq![','] + lon@,
{
    let mut r = lat.to_owned();
    r.append(",");
    r.append(lon);
    proof {
        reveal_strlit(",");
        assert(","@ =~= seq![',']);
        assert(lat@ + ","@ + lon@ =~= lat@ + seq![','] + lon@);
    }
    r
}

} // verus!
