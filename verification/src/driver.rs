//! The decisions of the interactive run, parted from the prompts, the
//! network call and the file handling around them: what counts as an empty
//! location, what counts as a yes, which value each key receives, and what
//! happens to the line sequence once the geocoding outcome is known.

use vstd::prelude::*;

use crate::config::update_config_line;
use crate::config::updated_lines;
use crate::error::ErrorKind;
use crate::error::SetupError;
use crate::geocode::format_homepos;
use crate::text::lower_seq;
use crate::text::str_eq_fold;
use crate::text::trim_spec;
use crate::text::trim_str;

verus! {

/// Coordinates as they are written into the configuration file: latitude
/// and longitude, each already rendered as decimal text.
#[derive(Debug, Clone)]
pub struct Coordinates {
    pub lat: String,
    pub lon: String,
}

/// The `homepos` value for these coordinates: latitude, one comma,
/// longitude.
pub open spec fn homepos_value(c: Coordinates) -> Seq<char> {
    c.lat@ + seq![','] + c.lon@
}

/// The `location` value for a choice: `true` to enable location services,
/// `false` to leave them off.
pub open spec fn setting_value(enabled: bool) -> Seq<char> {
    if enabled {
        "true"@
    } else {
        "false"@
    }
}

/// True when an answer to the yes/no prompt counts as a yes: ignoring
/// surrounding whitespace and ASCII case, exactly `y` or `yes`.
pub open spec fn accepts_yes(answer: Seq<char>) -> bool {
    lower_seq(trim_spec(answer)) == "y"@ || lower_seq(trim_spec(answer)) == "yes"@
}

/// The location text a prompt answer stands for: surrounding whitespace is
/// dropped, and exactly a blank answer is refused.
pub fn decide_location(input: &str) -> (r: Result<String, SetupError>)
    ensures
        (trim_spec(input@).len() > 0 ==> (r matches Ok(q) && q@ == trim_spec(input@))),
        (trim_spec(input@).len() == 0 ==> (r matches Err(e) && e.kind == ErrorKind::EmptyInput)),
{
    let t = trim_str(input);
    if t.unicode_len() == 0 {
        Err(SetupError::new(ErrorKind::EmptyInput, "No location entered"))
    } else {
        Ok(t.to_owned())
    }
}

/// True when the answer to the location-services prompt enables them.
pub fn decide_enable(answer: &str) -> (r: bool)
    ensures
        r == accepts_yes(answer@),
{
    let t = trim_str(answer);
    let r = str_eq_fold(t, "y") || str_eq_fold(t, "yes");
    proof {
        reveal_strlit("y");
        reveal_strlit("yes");
        assert(lower_seq("y"@) =~= "y"@);
        assert(lower_seq("yes"@) =~= "yes"@);
    }
    r
}

/// The one decision taken once the geocoding outcome is known: on success
/// both keys are rewritten, `homepos` to the comma-joined coordinates and
/// `location` to the chosen setting; on failure the run stops with exit
/// status 1 and the line sequence is left exactly as it was.
pub fn apply_geocode_outcome(
    lines: &mut Vec<String>,
    outcome: &Result<Coordinates, SetupError>,
    enabled: bool,
) -> (r: Result<(), u8>)
    ensures
        (*outcome matches Ok(c) ==> r is Ok && final(lines).deep_view() == updated_lines(
            updated_lines(old(lines).deep_view(), "homepos"@, homepos_value(c)),
            "location"@,
            setting_value(enabled),
        )),
        (*outcome is Err ==> r == Err::<(), u8>(1u8) && final(lines)@ == old(lines)@),
{
    match outcome {
        Ok(c) => {
            let homepos = format_homepos(c.lat.as_str(), c.lon.as_str());
            update_config_line(lines, "homepos", homepos.as_str());
            if enabled {
                update_config_line(lines, "location", "true");
            } else {
                update_config_line(lines, "location", "false");
            }
            Ok(())
        },
        Err(_) => Err(1),
    }
}

} // verus!
