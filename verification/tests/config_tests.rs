use setupwiz::config::content_of_lines;
use setupwiz::config::lines_of_content;
use setupwiz::config::update_config_line;

fn lines_of(strs: &[&str]) -> Vec<String> {
    let mut v = Vec::new();
    for s in strs {
        v.push(String::from(*s));
    }
    v
}

#[test]
fn update_existing_key_rewrites_value_in_place() {
    let mut lines = lines_of(&["homepos = 0,0\n"]);
    update_config_line(&mut lines, "homepos", "12.34,-56.78");
    assert_eq!(lines, lines_of(&["homepos = 12.34,-56.78\n"]));
}

#[test]
fn update_leaves_other_lines_byte_identical() {
    let mut lines = lines_of(&[
        "# receiver settings\n",
        "gain = 49.6\n",
        "homepos = 0,0\n",
        "\n",
        "interactive = true\n",
    ]);
    update_config_line(&mut lines, "homepos", "12.34,-56.78");
    assert_eq!(
        lines,
        lines_of(&[
            "# receiver settings\n",
            "gain = 49.6\n",
            "homepos = 12.34,-56.78\n",
            "\n",
            "interactive = true\n",
        ])
    );
}

#[test]
fn update_missing_key_appends_one_line() {
    let mut lines = lines_of(&["homepos = 0,0\n", "gain = 49.6\n"]);
    update_config_line(&mut lines, "location", "true");
    assert_eq!(
        lines,
        lines_of(&["homepos = 0,0\n", "gain = 49.6\n", "location = true\n"])
    );
}

#[test]
fn update_missing_key_on_empty_file_appends() {
    let mut lines: Vec<String> = Vec::new();
    update_config_line(&mut lines, "location", "false");
    assert_eq!(lines, lines_of(&["location = false\n"]));
}

#[test]
fn update_duplicate_key_changes_only_first_occurrence() {
    let mut lines = lines_of(&["homepos = 1,1\n", "homepos = 2,2\n"]);
    update_config_line(&mut lines, "homepos", "9,9");
    assert_eq!(lines, lines_of(&["homepos = 9,9\n", "homepos = 2,2\n"]));
}

#[test]
fn update_never_matches_comments_or_blank_lines() {
    let mut lines = lines_of(&["# homepos = 0,0\n", "\n", "   \n", "  # location = true\n"]);
    update_config_line(&mut lines, "homepos", "5,5");
    assert_eq!(
        lines,
        lines_of(&[
            "# homepos = 0,0\n",
            "\n",
            "   \n",
            "  # location = true\n",
            "homepos = 5,5\n",
        ])
    );
}

#[test]
fn update_preserves_spacing_before_equals() {
    let mut lines = lines_of(&["  homepos   =   0,0\n"]);
    update_config_line(&mut lines, "homepos", "3,4");
    assert_eq!(lines, lines_of(&["  homepos   = 3,4\n"]));
}

#[test]
fn update_matches_key_without_spaces_around_equals() {
    let mut lines = lines_of(&["homepos=0,0\n"]);
    update_config_line(&mut lines, "homepos", "3,4");
    assert_eq!(lines, lines_of(&["homepos= 3,4\n"]));
}

#[test]
fn update_is_case_sensitive_on_keys() {
    let mut lines = lines_of(&["Homepos = 0,0\n"]);
    update_config_line(&mut lines, "homepos", "3,4");
    assert_eq!(lines, lines_of(&["Homepos = 0,0\n", "homepos = 3,4\n"]));
}

#[test]
fn lines_of_content_splits_and_reappends_newlines() {
    let lines = lines_of_content("a = 1\nb = 2\n");
    assert_eq!(lines, lines_of(&["a = 1\n", "b = 2\n"]));
}

#[test]
fn lines_of_content_of_empty_text_is_empty() {
    let lines = lines_of_content("");
    assert!(lines.is_empty());
}

#[test]
fn lines_of_content_adds_missing_final_newline() {
    let lines = lines_of_content("a = 1\nb = 2");
    assert_eq!(lines, lines_of(&["a = 1\n", "b = 2\n"]));
}

#[test]
fn lines_of_content_normalizes_crlf() {
    let lines = lines_of_content("a = 1\r\nb = 2\r\n");
    assert_eq!(lines, lines_of(&["a = 1\n", "b = 2\n"]));
}

#[test]
fn content_of_lines_concatenates() {
    let content = content_of_lines(&lines_of(&["a = 1\n", "# note\n", "\n"]));
    assert_eq!(content, "a = 1\n# note\n\n");
}

#[test]
fn read_then_write_reproduces_the_file() {
    let text = "# dump1090 settings\nhomepos = 0,0\n\ngain = 49.6\n";
    let lines = lines_of_content(text);
    let back = content_of_lines(&lines);
    assert_eq!(back, text);
}
