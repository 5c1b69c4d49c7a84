use party_sign_in::names::{clean_name, clean_token, clean_whitespace, fts_escape, is_all_caps,
    split_guest_names};

fn some(text: &str) -> Option<String> {
    Some(text.to_string())
}

#[test]
fn split_guest_names_cleans_each_part() {
    let names = split_guest_names("Jane Smith and John Doe, Bob Jones & SUE ANN");
    assert_eq!(
        names,
        vec![some("Jane Smith"), some("John Doe"), some("Bob Jones"), some("Sue Ann")]
    );
}

#[test]
fn split_guest_names_keeps_empty_parts_as_none() {
    assert_eq!(split_guest_names(""), vec![None]);
    assert_eq!(split_guest_names("Ann,, Bob ,"), vec![some("Ann"), None, some("Bob"), None]);
    assert_eq!(split_guest_names(" & "), vec![None, None]);
}

#[test]
fn split_guest_names_takes_and_in_any_case() {
    assert_eq!(split_guest_names("Ann AND Bob"), vec![some("Ann"), some("Bob")]);
    assert_eq!(split_guest_names("Ann \t And \n Bob"), vec![some("Ann"), some("Bob")]);
    assert_eq!(split_guest_names("Ann aNd Bob and Cy"), vec![some("Ann"), some("Bob"), some("Cy")]);
}

#[test]
fn split_guest_names_leaves_and_inside_a_word() {
    assert_eq!(split_guest_names("Randy Sanders"), vec![some("Randy Sanders")]);
    assert_eq!(split_guest_names("Brandy and Andy"), vec![some("Brandy"), some("Andy")]);
    assert_eq!(split_guest_names("Ann and"), vec![some("Ann and")]);
    assert_eq!(split_guest_names("and Bob"), vec![some("and Bob")]);
}

#[test]
fn split_guest_names_does_not_reuse_white_space() {
    // the white space behind the first "and" belongs to its joint, so the
    // second "and" has none before it
    assert_eq!(split_guest_names("Ann and and Bob"), vec![some("Ann"), some("and Bob")]);
}

#[test]
fn clean_whitespace_collapses_runs() {
    assert_eq!(clean_whitespace("  a \t\n b   c "), "a b c");
    assert_eq!(clean_whitespace(""), "");
    assert_eq!(clean_whitespace(" \u{a0} "), "");
    assert_eq!(clean_whitespace("a\u{2003}\u{3000}b"), "a b");
    assert_eq!(clean_whitespace("plain"), "plain");
}

#[test]
fn clean_name_drops_blank_text() {
    assert_eq!(clean_name(""), None);
    assert_eq!(clean_name(" \t\n"), None);
}

#[test]
fn clean_name_keeps_mixed_case() {
    assert_eq!(clean_name("  Jane   Smith "), some("Jane Smith"));
    assert_eq!(clean_name("jane smith"), some("jane smith"));
    assert_eq!(clean_name("McDonald"), some("McDonald"));
    assert_eq!(clean_name("1234"), some("1234"));
}

#[test]
fn clean_name_recases_all_capitals() {
    assert_eq!(clean_name("SUE ANN"), some("Sue Ann"));
    assert_eq!(clean_name(" JOHN   O'NEIL-3RD "), some("John O'neil-3rd"));
    assert_eq!(clean_name("\u{c9}MILE"), some("\u{c9}mile"));
    assert_eq!(clean_name("X"), some("X"));
}

#[test]
fn is_all_caps_needs_a_letter() {
    assert!(is_all_caps("ABC"));
    assert!(is_all_caps("A1 B2"));
    assert!(!is_all_caps("Abc"));
    assert!(!is_all_caps("123"));
    assert!(!is_all_caps(""));
    assert!(!is_all_caps("ABc"));
}

#[test]
fn clean_token_keeps_ascii_letters_and_digits() {
    assert_eq!(clean_token("O'Brien"), "obrien");
    assert_eq!(clean_token("Jos\u{e9}"), "jos");
    assert_eq!(clean_token("--"), "");
    assert_eq!(clean_token("A1b2"), "a1b2");
}

#[test]
fn fts_escape_doubles_quotes() {
    assert_eq!(fts_escape("plain"), "plain");
    assert_eq!(fts_escape("say \"hi\""), "say \"\"hi\"\"");
    assert_eq!(fts_escape("\""), "\"\"");
    assert_eq!(fts_escape(""), "");
}
