use party_sign_in::checkin::{check_in, check_out};
use party_sign_in::members::search_members;
use party_sign_in::search::{count_words, effective_limit, fetch_default_results,
    guests_for_member, name_begins_word, search_guests, tokens_of, GuestSearchResult,
    MemberSearchResult};
use party_sign_in::store::GuestStore;

fn some(text: &str) -> Option<String> {
    Some(text.to_string())
}

fn chars(text: &str) -> Vec<char> {
    text.chars().collect()
}

fn store_with(guests: &[(&str, Option<&str>)]) -> GuestStore {
    let mut store = GuestStore::new();
    for (name, host) in guests {
        store.add_guest(name.to_string(), host.map(|h| h.to_string()), None).unwrap();
    }
    store
}

fn names(results: &[GuestSearchResult]) -> Vec<String> {
    results.iter().map(|r| r.display_name.clone()).collect()
}

fn host(name: &str, total: usize, present: usize) -> MemberSearchResult {
    MemberSearchResult { member_host: name.to_string(), total_guests: total, present_guests: present }
}

#[test]
fn search_finds_words_that_begin_with_the_token() {
    let store = store_with(&[("John Doe", None), ("Jo Park", None), ("Bob Jo", None), ("Major Tom", None)]);
    let found = search_guests(&store, "jo", None);
    assert_eq!(names(&found), vec!["Bob Jo", "Jo Park", "John Doe"]);
}

#[test]
fn search_ranks_shorter_names_first() {
    let store = store_with(&[("Jo Ann Park", None), ("Jo", None), ("Jo Park", None), ("Jo Abel", None)]);
    let found = search_guests(&store, "JO", None);
    assert_eq!(names(&found), vec!["Jo", "Jo Abel", "Jo Park", "Jo Ann Park"]);
}

#[test]
fn search_requires_every_token() {
    let store = store_with(&[("John Doe", None), ("John Park", None), ("Dora Johnson", None)]);
    assert_eq!(names(&search_guests(&store, "jo do", None)), vec!["Dora Johnson", "John Doe"]);
    assert_eq!(names(&search_guests(&store, "  do   JOHN ", None)), vec!["Dora Johnson", "John Doe"]);
    assert_eq!(names(&search_guests(&store, "john pa", None)), vec!["John Park"]);
}

#[test]
fn search_falls_back_to_names_that_contain_the_query() {
    let store = store_with(&[("Mary Johnson", None), ("Ann Mahony", None), ("Bob", None)]);
    // no word begins with "hn" or "ho"
    assert_eq!(names(&search_guests(&store, "hn", None)), vec!["Mary Johnson"]);
    assert_eq!(names(&search_guests(&store, "HO", None)), vec!["Ann Mahony"]);
    assert_eq!(names(&search_guests(&store, "y j", None)), vec!["Mary Johnson"]);
    assert!(search_guests(&store, "zz", None).is_empty());
}

#[test]
fn search_prefers_token_matches_to_the_fallback() {
    let store = store_with(&[("Anna", None), ("Joanna", None)]);
    // "Joanna" contains "an", but a token match exists
    assert_eq!(names(&search_guests(&store, "an", None)), vec!["Anna"]);
}

#[test]
fn search_matches_the_raw_query_in_the_fallback() {
    let store = store_with(&[("O'Brien", None), ("Obrien", None)]);
    // the token is "obrien", which begins a word of the second name only
    assert_eq!(names(&search_guests(&store, "O'Brien", None)), vec!["Obrien"]);
    let lone = store_with(&[("O'Brien", None)]);
    assert_eq!(names(&search_guests(&lone, "o'bri", None)), vec!["O'Brien"]);
    assert_eq!(names(&search_guests(&lone, "brien", None)), vec!["O'Brien"]);
}

#[test]
fn search_with_an_empty_query_lists_every_guest_alphabetically() {
    let store = store_with(&[("Cy", None), ("ann", Some("Lee")), ("Bob", None), ("Ann", None)]);
    assert_eq!(names(&search_guests(&store, "", None)), vec!["Ann", "Bob", "Cy", "ann"]);
    assert_eq!(names(&search_guests(&store, "  \t ", None)), vec!["Ann", "Bob", "Cy", "ann"]);
    // a query without a letter or digit has no token
    assert_eq!(names(&search_guests(&store, "?!", None)), vec!["Ann", "Bob", "Cy", "ann"]);
    assert_eq!(names(&fetch_default_results(&store, 2)), vec!["Ann", "Bob"]);
}

#[test]
fn search_respects_the_limit() {
    let mut store = GuestStore::new();
    for n in 0..130 {
        store.add_guest(format!("Guest {:03}", n), None, None).unwrap();
    }
    assert_eq!(search_guests(&store, "", None).len(), 25);
    assert_eq!(search_guests(&store, "guest", None).len(), 25);
    assert_eq!(search_guests(&store, "", Some(3)).len(), 3);
    assert_eq!(search_guests(&store, "", Some(500)).len(), 100);
    assert_eq!(search_guests(&store, "guest", Some(100)).len(), 100);
    assert_eq!(search_guests(&store, "", Some(0)).len(), 0);
    assert_eq!(names(&search_guests(&store, "gue", Some(2))), vec!["Guest 000", "Guest 001"]);
}

#[test]
fn effective_limit_defaults_and_caps() {
    assert_eq!(effective_limit(None, 100), 25);
    assert_eq!(effective_limit(Some(7), 100), 7);
    assert_eq!(effective_limit(Some(100), 100), 100);
    assert_eq!(effective_limit(Some(101), 100), 100);
    assert_eq!(effective_limit(None, 10), 10);
}

#[test]
fn search_reports_presence_and_history() {
    let mut store = store_with(&[("Ann", Some("Smith")), ("Bob", None), ("Cy", None)]);
    check_in(&mut store, 1, None, "09:00:00 AM".to_string()).unwrap();
    check_in(&mut store, 2, None, "09:00:00 AM".to_string()).unwrap();
    check_out(&mut store, 2, None, false, "10:00:00 AM".to_string()).unwrap();
    assert_eq!(
        search_guests(&store, "", None),
        vec![
            GuestSearchResult {
                id: 1,
                display_name: "Ann".to_string(),
                member_host: some("Smith"),
                is_checked_in: true,
                has_history: true,
            },
            GuestSearchResult {
                id: 2,
                display_name: "Bob".to_string(),
                member_host: None,
                is_checked_in: false,
                has_history: true,
            },
            GuestSearchResult {
                id: 3,
                display_name: "Cy".to_string(),
                member_host: None,
                is_checked_in: false,
                has_history: false,
            },
        ]
    );
}

#[test]
fn tokens_of_cleans_each_word() {
    assert_eq!(tokens_of("  Jo-Ann  O'Neil ?? 3rd "), vec![chars("joann"), chars("oneil"), chars("3rd")]);
    assert!(tokens_of(" .. ").is_empty());
    assert!(tokens_of("").is_empty());
}

#[test]
fn count_words_counts_runs_of_letters_and_digits() {
    assert_eq!(count_words(&chars("")), 0);
    assert_eq!(count_words(&chars("Ann")), 1);
    assert_eq!(count_words(&chars(" Jo  Ann-Marie 2nd ")), 4);
    assert_eq!(count_words(&chars("--")), 0);
}

#[test]
fn name_begins_word_looks_at_word_starts_only() {
    assert!(name_begins_word(&chars("Mary-Jo Smith"), &chars("jo")));
    assert!(name_begins_word(&chars("Mary-Jo Smith"), &chars("smi")));
    assert!(!name_begins_word(&chars("Mary-Jo Smith"), &chars("ary")));
    assert!(!name_begins_word(&chars("Jo"), &chars("joe")));
}

#[test]
fn guests_for_member_matches_the_host_without_case() {
    let store = store_with(&[
        ("Cy", Some("Smith")),
        ("Ann", Some("SMITH")),
        ("Bob", Some("Smithson")),
        ("Dee", None),
    ]);
    assert_eq!(names(&guests_for_member(&store, " smith ")), vec!["Ann", "Cy"]);
    assert!(guests_for_member(&store, "   ").is_empty());
    assert!(guests_for_member(&store, "").is_empty());
    assert!(guests_for_member(&store, "smi").is_empty());
}

#[test]
fn search_members_counts_guests_and_presence() {
    let mut store = store_with(&[
        ("Ann", Some("Smith")),
        ("Bob", Some("Jones")),
        ("Cy", Some("Jones")),
        ("Dee", Some("Smith")),
        ("Eli", Some("Smith")),
        ("Fay", None),
        ("Gus", Some("")),
        ("Hal", Some("Lee")),
    ]);
    check_in(&mut store, 2, None, "09:00:00 AM".to_string()).unwrap();
    check_in(&mut store, 3, None, "09:00:00 AM".to_string()).unwrap();
    check_in(&mut store, 1, None, "09:00:00 AM".to_string()).unwrap();
    check_in(&mut store, 6, None, "09:00:00 AM".to_string()).unwrap();
    assert_eq!(
        search_members(&store, "", None),
        vec![host("Jones", 2, 2), host("Smith", 3, 1), host("Lee", 1, 0)]
    );
    assert_eq!(search_members(&store, "", Some(1)), vec![host("Jones", 2, 2)]);
}

#[test]
fn search_members_orders_by_total_when_presence_ties() {
    let store = store_with(&[
        ("Ann", Some("Lee")),
        ("Bob", Some("Jones")),
        ("Cy", Some("Jones")),
        ("Dee", Some("Kim")),
    ]);
    assert_eq!(
        search_members(&store, "", None),
        vec![host("Jones", 2, 0), host("Lee", 1, 0), host("Kim", 1, 0)]
    );
}

#[test]
fn search_members_requires_every_token_anywhere_in_the_host() {
    let store = store_with(&[
        ("Ann", Some("The Smiths")),
        ("Bob", Some("Smithson Family")),
        ("Cy", Some("Jones")),
    ]);
    assert_eq!(
        search_members(&store, "MITH", None),
        vec![host("The Smiths", 1, 0), host("Smithson Family", 1, 0)]
    );
    assert_eq!(search_members(&store, "smith fam", None), vec![host("Smithson Family", 1, 0)]);
    assert!(search_members(&store, "smith jones", None).is_empty());
}

#[test]
fn search_members_keeps_hosts_apart_that_differ_in_case() {
    let store = store_with(&[("Ann", Some("Smith")), ("Bob", Some("smith"))]);
    assert_eq!(search_members(&store, "", None), vec![host("Smith", 1, 0), host("smith", 1, 0)]);
}

#[test]
fn search_members_caps_the_limit() {
    let mut store = GuestStore::new();
    for n in 0..230 {
        store.add_guest(format!("Guest {}", n), Some(format!("Host {}", n)), None).unwrap();
    }
    assert_eq!(search_members(&store, "", None).len(), 25);
    assert_eq!(search_members(&store, "host", Some(1000)).len(), 200);
}
