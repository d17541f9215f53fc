use setupwiz::driver::apply_geocode_outcome;
use setupwiz::driver::decide_enable;
use setupwiz::driver::decide_location;
use setupwiz::driver::Coordinates;
use setupwiz::error::ErrorKind;
use setupwiz::error::SetupError;

fn lines_of(strs: &[&str]) -> Vec<String> {
    let mut v = Vec::new();
    for s in strs {
        v.push(String::from(*s));
    }
    v
}

#[test]
fn blank_location_input_is_refused() {
    let e = decide_location("").err().unwrap();
    assert!(matches!(e.kind, ErrorKind::EmptyInput));
    assert_eq!(e.exit_code(), 1);
}

#[test]
fn whitespace_only_location_input_is_refused() {
    let e = decide_location("   \n").err().unwrap();
    assert!(matches!(e.kind, ErrorKind::EmptyInput));
}

#[test]
fn location_input_is_trimmed() {
    let q = decide_location("  Shorewood MN\n").ok().unwrap();
    assert_eq!(q, "Shorewood MN");
}

#[test]
fn yes_answers_enable_location_services() {
    assert!(decide_enable("y"));
    assert!(decide_enable("Y\n"));
    assert!(decide_enable("yes"));
    assert!(decide_enable("  YES  "));
}

#[test]
fn other_answers_leave_location_services_off() {
    assert!(!decide_enable("n"));
    assert!(!decide_enable("no"));
    assert!(!decide_enable(""));
    assert!(!decide_enable("yep"));
    assert!(!decide_enable("y e s"));
}

#[test]
fn successful_geocode_updates_both_keys() {
    let mut lines = lines_of(&["homepos = 0,0\n", "# a comment\n"]);
    let outcome = Ok(Coordinates {
        lat: String::from("12.34"),
        lon: String::from("-56.78"),
    });
    let r = apply_geocode_outcome(&mut lines, &outcome, true);
    assert!(r.is_ok());
    assert_eq!(
        lines,
        lines_of(&[
            "homepos = 12.34,-56.78\n",
            "# a comment\n",
            "location = true\n",
        ])
    );
}

#[test]
fn declined_location_services_write_false() {
    let mut lines = lines_of(&["location = true\n"]);
    let outcome = Ok(Coordinates {
        lat: String::from("1"),
        lon: String::from("2"),
    });
    let r = apply_geocode_outcome(&mut lines, &outcome, false);
    assert!(r.is_ok());
    assert_eq!(lines, lines_of(&["location = false\n", "homepos = 1,2\n"]));
}

#[test]
fn failed_geocode_exits_without_touching_the_lines() {
    let mut lines = lines_of(&["homepos = 0,0\n", "location = false\n"]);
    let outcome = Err(SetupError::new(ErrorKind::RemoteFailure, "No results found"));
    let r = apply_geocode_outcome(&mut lines, &outcome, true);
    assert_eq!(r, Err(1));
    assert_eq!(lines, lines_of(&["homepos = 0,0\n", "location = false\n"]));
}

#[test]
fn every_error_kind_maps_to_exit_status_one() {
    for kind in [
        ErrorKind::NotFound,
        ErrorKind::EmptyInput,
        ErrorKind::RemoteFailure,
        ErrorKind::IoFailure,
    ] {
        let e = SetupError::new(kind, "boom");
        assert_eq!(e.exit_code(), 1);
        assert_eq!(e.message(), "boom");
    }
}
