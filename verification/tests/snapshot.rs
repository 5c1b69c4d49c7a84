use party_sign_in::checkin::{check_in, check_out};
use party_sign_in::export::{append_line, encode_records, export_csv, export_records,
    ExportError};
use party_sign_in::search::MemberSearchResult;
use party_sign_in::stats::{stats_summary, PresentGuest};
use party_sign_in::store::{CheckinEvent, Guest, GuestStore, StoreError};

fn some(text: &str) -> Option<String> {
    Some(text.to_string())
}

fn record(fields: &[&str]) -> Vec<String> {
    fields.iter().map(|f| f.to_string()).collect()
}

fn guest(id: i64, name: &str, host: Option<&str>) -> Guest {
    Guest { id, display_name: name.to_string(), member_host: host.map(|h| h.to_string()), source_row: None }
}

fn event(id: i64, guest_id: i64, in_ts: &str, out_ts: Option<&str>) -> CheckinEvent {
    CheckinEvent {
        id,
        guest_id,
        in_ts: in_ts.to_string(),
        out_ts: out_ts.map(|t| t.to_string()),
        in_by: None,
        out_by: None,
    }
}

fn sample() -> GuestStore {
    let mut store = GuestStore::new();
    store.add_guest("Cy".to_string(), some("Jones"), None).unwrap();
    store.add_guest("Ann".to_string(), some("Smith, J."), None).unwrap();
    store.add_guest("Bob".to_string(), None, None).unwrap();
    check_in(&mut store, 1, some("door"), "09:00:00 AM".to_string()).unwrap();
    check_out(&mut store, 1, some("door"), false, "09:30:00 AM".to_string()).unwrap();
    check_in(&mut store, 1, some("desk"), "10:00:00 AM".to_string()).unwrap();
    check_in(&mut store, 2, None, "10:15:00 AM".to_string()).unwrap();
    store
}

#[test]
fn stats_summary_counts_the_store() {
    let stats = stats_summary(&sample());
    assert_eq!(stats.total_guests, 3);
    assert_eq!(stats.total_check_ins, 3);
    assert_eq!(stats.total_check_outs, 1);
    assert_eq!(stats.currently_present, 2);
    assert_eq!(
        stats.present_guests,
        vec![
            PresentGuest {
                id: 2,
                display_name: "Ann".to_string(),
                member_host: some("Smith, J."),
                in_ts: "10:15:00 AM".to_string(),
                operator: None,
            },
            PresentGuest {
                id: 1,
                display_name: "Cy".to_string(),
                member_host: some("Jones"),
                in_ts: "10:00:00 AM".to_string(),
                operator: some("desk"),
            },
        ]
    );
    assert_eq!(
        stats.top_hosts,
        vec![
            MemberSearchResult { member_host: "Jones".to_string(), total_guests: 1, present_guests: 1 },
            MemberSearchResult { member_host: "Smith, J.".to_string(), total_guests: 1, present_guests: 1 },
        ]
    );
}

#[test]
fn stats_summary_of_an_empty_store() {
    let stats = stats_summary(&GuestStore::new());
    assert_eq!(stats.total_guests, 0);
    assert_eq!(stats.total_check_ins, 0);
    assert_eq!(stats.total_check_outs, 0);
    assert_eq!(stats.currently_present, 0);
    assert!(stats.present_guests.is_empty());
    assert!(stats.top_hosts.is_empty());
}

#[test]
fn stats_summary_caps_the_present_list_and_the_hosts() {
    let mut store = GuestStore::new();
    for n in 0..205i64 {
        store.add_guest(format!("Guest {}", n), Some(format!("Host {}", n % 12)), None).unwrap();
        check_in(&mut store, n + 1, None, format!("{:02}:{:02}:00 AM", 1 + n / 60, n % 60)).unwrap();
    }
    let stats = stats_summary(&store);
    assert_eq!(stats.total_guests, 205);
    assert_eq!(stats.present_guests.len(), 200);
    assert_eq!(stats.currently_present, 200);
    assert_eq!(stats.top_hosts.len(), 10);
    // the latest check-in stands first
    assert_eq!(stats.present_guests[0].in_ts, "04:24:00 AM");
    assert_eq!(stats.present_guests[0].id, 205);
    // the fullest host stands first
    assert_eq!(stats.top_hosts[0].total_guests, 18);
    assert_eq!(stats.top_hosts[9].total_guests, 17);
}

#[test]
fn export_records_lists_guests_alphabetically() {
    assert_eq!(
        export_records(&sample()),
        vec![
            record(&[
                "Member Name",
                "Guest Name",
                "Check In Y/N",
                "Check In Time",
                "Check Out Y/N",
                "Check Out Time",
            ]),
            record(&["Smith, J.", "Ann", "Y", "10:15:00 AM", "N", ""]),
            record(&["", "Bob", "N", "", "N", ""]),
            record(&["Jones", "Cy", "Y", "10:00:00 AM", "Y", "09:30:00 AM"]),
        ]
    );
}

#[test]
fn export_records_of_an_empty_store_is_the_header() {
    assert_eq!(export_records(&GuestStore::new()).len(), 1);
}

#[test]
fn export_csv_quotes_what_needs_quotes() {
    let bytes = export_csv(&sample()).unwrap();
    let text = String::from_utf8(bytes).unwrap();
    assert_eq!(
        text,
        "Member Name,Guest Name,Check In Y/N,Check In Time,Check Out Y/N,Check Out Time\n\
         \"Smith, J.\",Ann,Y,10:15:00 AM,N,\n\
         ,Bob,N,,N,\n\
         Jones,Cy,Y,10:00:00 AM,Y,09:30:00 AM\n"
    );
}

#[test]
fn encode_records_writes_each_record_on_a_line() {
    let bytes = encode_records(&vec![record(&["a", "b \"c\""]), record(&["", "d\ne"])]).unwrap();
    assert_eq!(String::from_utf8(bytes).unwrap(), "a,\"b \"\"c\"\"\"\n,\"d\ne\"\n");
    assert_eq!(encode_records(&vec![]).unwrap(), Vec::<u8>::new());
}

#[test]
fn latest_times_are_the_greatest_texts() {
    let store = sample();
    assert_eq!(store.latest_in(1), some("10:00:00 AM"));
    assert_eq!(store.latest_out(1), some("09:30:00 AM"));
    assert_eq!(store.latest_out(2), None);
    assert_eq!(store.latest_in(3), None);
}

#[test]
fn from_records_takes_consistent_records() {
    let guests = vec![guest(2, "Ann", Some("Smith")), guest(5, "Bob", None)];
    let events = vec![event(1, 2, "09:00:00 AM", Some("10:00:00 AM")), event(4, 2, "11:00:00 AM", None)];
    let mut store = GuestStore::from_records(guests.clone(), events.clone()).unwrap();
    assert_eq!(store.guests(), &guests);
    assert_eq!(store.events(), &events);
    assert!(store.is_present(2));
    // the store goes on counting behind the last records
    assert_eq!(store.add_guest("Cy".to_string(), None, None), Ok(6));
    check_in(&mut store, 6, None, "noon".to_string()).unwrap();
    assert_eq!(store.events()[2].id, 5);
}

#[test]
fn from_records_takes_no_records() {
    let mut store = GuestStore::from_records(vec![], vec![]).unwrap();
    assert_eq!(store.add_guest("Ann".to_string(), None, None), Ok(1));
}

#[test]
fn from_records_refuses_what_breaks_a_rule() {
    let refused = |guests: Vec<Guest>, events: Vec<CheckinEvent>| {
        assert_eq!(GuestStore::from_records(guests, events).err(), Some(StoreError::Inconsistent));
    };
    // identity numbers out of order, repeated, or not positive
    refused(vec![guest(2, "Ann", None), guest(1, "Bob", None)], vec![]);
    refused(vec![guest(1, "Ann", None), guest(1, "Bob", None)], vec![]);
    refused(vec![guest(0, "Ann", None)], vec![]);
    refused(vec![guest(i64::MAX, "Ann", None)], vec![]);
    refused(vec![guest(1, "Ann", None)], vec![event(2, 1, "a", Some("b")), event(2, 1, "c", Some("d"))]);
    // an event without its guest
    refused(vec![guest(1, "Ann", None)], vec![event(1, 2, "a", None)]);
    // two open events of one guest
    refused(vec![guest(1, "Ann", None)], vec![event(1, 1, "a", None), event(2, 1, "b", None)]);
    // an open event that names who closed it
    let mut signed = event(1, 1, "a", None);
    signed.out_by = some("desk");
    refused(vec![guest(1, "Ann", None)], vec![signed]);
    // two guests with one name and host
    refused(vec![guest(1, "Ann", Some("Smith")), guest(2, "ANN", Some("smith"))], vec![]);
    refused(vec![guest(1, "Ann", None), guest(2, "ann", Some(""))], vec![]);
}

#[test]
fn append_line_puts_a_record_behind_the_others() {
    let mut bytes = b"a,b\n".to_vec();
    assert_eq!(append_line(&mut bytes, Some(b"c,d\n".to_vec())), Ok(()));
    assert_eq!(bytes, b"a,b\nc,d\n".to_vec());
    assert_eq!(append_line(&mut bytes, Some(Vec::new())), Ok(()));
    assert_eq!(bytes, b"a,b\nc,d\n".to_vec());
}

#[test]
fn append_line_reports_a_refused_record() {
    let mut bytes = b"a,b\n".to_vec();
    assert_eq!(append_line(&mut bytes, None), Err(ExportError::Encoding));
    assert_eq!(bytes, b"a,b\n".to_vec());
}
