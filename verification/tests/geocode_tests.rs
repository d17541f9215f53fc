use setupwiz::error::ErrorKind;
use setupwiz::geocode::build_search_url;
use setupwiz::geocode::display_label;
use setupwiz::geocode::first_result;
use setupwiz::geocode::format_homepos;
use setupwiz::geocode::NominatimResult;

fn candidate(lat: &str, lon: &str, name: Option<&str>) -> NominatimResult {
    NominatimResult {
        lat: String::from(lat),
        lon: String::from(lon),
        display_name: name.map(String::from),
    }
}

#[test]
fn search_url_keeps_safe_characters() {
    let url = build_search_url("Shorewood");
    assert_eq!(
        url,
        "https://nominatim.openstreetmap.org/search?q=Shorewood&format=json"
    );
}

#[test]
fn search_url_percent_encodes_spaces_and_punctuation() {
    let url = build_search_url("123 Main St, City State");
    assert_eq!(
        url,
        "https://nominatim.openstreetmap.org/search?q=123%20Main%20St%2C%20City%20State&format=json"
    );
}

#[test]
fn search_url_percent_encodes_multibyte_text() {
    let url = build_search_url("Z\u{fc}rich");
    assert_eq!(
        url,
        "https://nominatim.openstreetmap.org/search?q=Z%C3%BCrich&format=json"
    );
}

#[test]
fn empty_result_list_is_a_remote_failure() {
    let r = first_result(Vec::new());
    let e = r.err().unwrap();
    assert!(matches!(e.kind, ErrorKind::RemoteFailure));
    assert_eq!(e.message, "No results found");
    assert_eq!(e.exit_code(), 1);
}

#[test]
fn first_result_returns_the_first_candidate() {
    let r = first_result(vec![
        candidate("44.9", "-93.5", Some("Shorewood, MN")),
        candidate("39.1", "-84.1", None),
    ]);
    let first = r.ok().unwrap();
    assert_eq!(first.lat, "44.9");
    assert_eq!(first.lon, "-93.5");
    assert_eq!(first.display_name.as_deref(), Some("Shorewood, MN"));
}

#[test]
fn display_label_uses_the_reported_name() {
    let c = candidate("1", "2", Some("Somewhere"));
    assert_eq!(display_label(&c), "Somewhere");
}

#[test]
fn display_label_falls_back_when_no_name_is_given() {
    let c = candidate("1", "2", None);
    assert_eq!(display_label(&c), "Unknown location");
}

#[test]
fn homepos_value_joins_with_one_comma() {
    assert_eq!(format_homepos("12.34", "-56.78"), "12.34,-56.78");
}
