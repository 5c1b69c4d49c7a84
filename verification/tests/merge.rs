use party_sign_in::merge::{import_rows, import_rows_at, parse_row, CsvRow, ImportMode,
    ImportSummary, ParsedRow};
use party_sign_in::import::VisitPlan;
use party_sign_in::checkin::check_in;
use party_sign_in::store::{CheckinEvent, Guest, GuestStore, StoreError};

fn some(text: &str) -> Option<String> {
    Some(text.to_string())
}

fn row(host: Option<&str>, names: Option<&str>) -> CsvRow {
    CsvRow {
        member_name: host.map(|h| h.to_string()),
        guest_names: names.map(|n| n.to_string()),
        source_row: None,
        check_in: None,
        check_in_time: None,
        check_out: None,
        check_out_time: None,
    }
}

fn names_of(store: &GuestStore) -> Vec<String> {
    store.guests().iter().map(|g| g.display_name.clone()).collect()
}

#[test]
fn parse_row_reads_every_field() {
    let raw = CsvRow {
        member_name: some("  The   Smiths "),
        guest_names: some("JANE SMITH and Bob"),
        source_row: Some(12),
        check_in: some("Yes"),
        check_in_time: some("9:15 AM"),
        check_out: None,
        check_out_time: some("13:00"),
    };
    assert_eq!(
        parse_row(&raw, "05:00:00 PM"),
        ParsedRow {
            host: some("The Smiths"),
            names: vec![some("Jane Smith"), some("Bob")],
            source_row: Some(12),
            visit: Some(VisitPlan { in_ts: "09:15:00 AM".to_string(), out_ts: some("01:00:00 PM") }),
        }
    );
}

#[test]
fn parse_row_of_an_empty_record() {
    assert_eq!(
        parse_row(&row(None, None), "05:00:00 PM"),
        ParsedRow { host: None, names: vec![], source_row: None, visit: None }
    );
}

#[test]
fn import_inserts_each_name_once() {
    let mut store = GuestStore::new();
    let rows = vec![row(Some("Smith"), Some("Ann and Bob")), row(Some("Smith"), Some("ann, Cy"))];
    let summary = import_rows_at(&mut store, &rows, ImportMode::Append, "05:00:00 PM");
    assert_eq!(summary, Ok(ImportSummary { inserted: 3, total_rows: 2 }));
    assert_eq!(names_of(&store), vec!["Ann", "Bob", "Cy"]);
    assert_eq!(
        store.guests()[0],
        Guest { id: 1, display_name: "Ann".to_string(), member_host: some("Smith"), source_row: None }
    );
    assert!(store.events().is_empty());
}

#[test]
fn import_twice_in_append_mode_inserts_once() {
    let mut store = GuestStore::new();
    let rows = vec![row(Some("Smith"), Some("Ann")), row(None, Some("Dee & Eli"))];
    assert_eq!(
        import_rows_at(&mut store, &rows, ImportMode::Append, "05:00:00 PM"),
        Ok(ImportSummary { inserted: 3, total_rows: 2 })
    );
    let guests = store.guests().clone();
    assert_eq!(
        import_rows_at(&mut store, &rows, ImportMode::Append, "06:00:00 PM"),
        Ok(ImportSummary { inserted: 0, total_rows: 2 })
    );
    assert_eq!(store.guests(), &guests);
}

#[test]
fn import_compares_names_and_hosts_without_case() {
    let mut store = GuestStore::new();
    let rows = vec![
        row(Some("Smith"), Some("Ann")),
        row(Some("SMITH"), Some("ANN")),
        row(Some("Jones"), Some("Ann")),
        row(None, Some("Ann")),
        row(Some(""), Some("ann")),
    ];
    let summary = import_rows_at(&mut store, &rows, ImportMode::Append, "05:00:00 PM");
    assert_eq!(summary, Ok(ImportSummary { inserted: 3, total_rows: 5 }));
    let hosts: Vec<Option<String>> = store.guests().iter().map(|g| g.member_host.clone()).collect();
    assert_eq!(hosts, vec![some("Smith"), some("Jones"), None]);
}

#[test]
fn import_counts_records_not_names() {
    let mut store = GuestStore::new();
    let rows = vec![row(Some("Smith"), Some("Ann, Bob, Cy, Dee")), row(None, None), row(None, Some(" , "))];
    let summary = import_rows_at(&mut store, &rows, ImportMode::Append, "05:00:00 PM");
    assert_eq!(summary, Ok(ImportSummary { inserted: 4, total_rows: 3 }));
}

#[test]
fn import_in_replace_mode_clears_guests_and_events() {
    let mut store = GuestStore::new();
    import_rows_at(&mut store, &vec![row(Some("Smith"), Some("Ann, Bob"))], ImportMode::Append, "05:00:00 PM")
        .unwrap();
    check_in(&mut store, 1, None, "05:01:00 PM".to_string()).unwrap();
    assert_eq!(store.events().len(), 1);
    let summary =
        import_rows_at(&mut store, &vec![row(Some("Jones"), Some("Cy"))], ImportMode::Replace, "06:00:00 PM");
    assert_eq!(summary, Ok(ImportSummary { inserted: 1, total_rows: 1 }));
    assert_eq!(names_of(&store), vec!["Cy"]);
    assert!(store.events().is_empty());
    // identity numbers are not given twice
    assert_eq!(store.guests()[0].id, 3);
    assert!(!store.has_guest(1));
}

#[test]
fn import_in_replace_mode_with_no_records_empties_the_store() {
    let mut store = GuestStore::new();
    import_rows_at(&mut store, &vec![row(None, Some("Ann"))], ImportMode::Append, "05:00:00 PM").unwrap();
    let summary = import_rows_at(&mut store, &vec![], ImportMode::Replace, "06:00:00 PM");
    assert_eq!(summary, Ok(ImportSummary { inserted: 0, total_rows: 0 }));
    assert!(store.guests().is_empty());
}

#[test]
fn import_reconstructs_one_visit_for_each_new_guest() {
    let mut store = GuestStore::new();
    let mut first = row(Some("Smith"), Some("Ann and Bob"));
    first.check_in = some("y");
    first.check_in_time = some("9:00 AM");
    first.source_row = Some(4);
    let mut second = row(Some("Smith"), Some("Cy"));
    second.check_out = some("checked");
    let third = row(Some("Smith"), Some("Dee"));
    let rows = vec![first, second, third];
    import_rows_at(&mut store, &rows, ImportMode::Append, "05:00:00 PM").unwrap();
    assert_eq!(
        store.events(),
        &vec![
            CheckinEvent {
                id: 1,
                guest_id: 1,
                in_ts: "09:00:00 AM".to_string(),
                out_ts: None,
                in_by: some("import"),
                out_by: None,
            },
            CheckinEvent {
                id: 2,
                guest_id: 2,
                in_ts: "09:00:00 AM".to_string(),
                out_ts: None,
                in_by: some("import"),
                out_by: None,
            },
            CheckinEvent {
                id: 3,
                guest_id: 3,
                in_ts: "05:00:00 PM".to_string(),
                out_ts: some("05:00:00 PM"),
                in_by: some("import"),
                out_by: some("import"),
            },
        ]
    );
    assert_eq!(store.guests()[0].source_row, Some(4));
    assert!(store.is_present(1) && store.is_present(2));
    assert!(!store.is_present(3));
    assert!(!store.has_history(4));
}

#[test]
fn import_leaves_known_guests_untouched() {
    let mut store = GuestStore::new();
    import_rows_at(&mut store, &vec![row(Some("Smith"), Some("Ann"))], ImportMode::Append, "05:00:00 PM")
        .unwrap();
    let mut again = row(Some("Smith"), Some("Ann"));
    again.check_in = some("yes");
    again.source_row = Some(9);
    import_rows_at(&mut store, &vec![again], ImportMode::Append, "06:00:00 PM").unwrap();
    assert!(store.events().is_empty());
    assert_eq!(store.guests()[0].source_row, None);
}

#[test]
fn import_rows_reads_the_clock() {
    let mut store = GuestStore::new();
    let mut first = row(None, Some("Ann"));
    first.check_in = some("1");
    let summary = import_rows(&mut store, &vec![first], ImportMode::Append);
    assert_eq!(summary, Ok(ImportSummary { inserted: 1, total_rows: 1 }));
    assert_eq!(store.events().len(), 1);
    assert_eq!(store.events()[0].in_ts.len(), 11);
}

#[test]
fn add_guest_refuses_a_known_identity() {
    let mut store = GuestStore::new();
    assert_eq!(store.add_guest("Ann".to_string(), some("Smith"), None), Ok(1));
    assert_eq!(
        store.add_guest("ANN".to_string(), some("smith"), Some(3)),
        Err(StoreError::DuplicateGuest)
    );
    assert_eq!(store.add_guest("Ann".to_string(), None, None), Ok(2));
    assert_eq!(store.add_guest("Ann".to_string(), some(""), None), Err(StoreError::DuplicateGuest));
    assert_eq!(store.guests().len(), 2);
    assert!(store.find_identity("aNN", &some("SMITH")));
    assert!(!store.find_identity("Ann", &some("Jones")));
}
