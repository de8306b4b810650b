//! The protocol driver: device transitions, polling, and the wire record.

use itretail_automation::catalog::CatalogItem;
use itretail_automation::device::{DeviceAction, ProtocolState, Scale};
use itretail_automation::record::{jam, record_text, TD_ST_PLU_V06};
use itretail_automation::record::DfAction;
use itretail_automation::registry::{EventOutcome, PollOutcome, ScaleRegistry, STATE_CONNECT};

fn item(upc: &str, name: &str, plu: &str) -> CatalogItem {
    CatalogItem {
        upc: upc.to_owned(),
        description: name.to_owned(),
        second_description: None,
        price_cents: 1299,
        department_id: 2,
        section_id: Some(1),
        plu: Some(plu.to_owned()),
        deleted: false,
        scale: true,
    }
}

fn catalog3() -> Vec<CatalogItem> {
    vec![
        item("0021111100000", "Ham", "1001"),
        item("0022222200000", "Turkey", "1002"),
        item("0023333300000", "Brisket", "1003"),
    ]
}

fn echo_w() -> Vec<u8> {
    vec![b'W', 0]
}

#[test]
fn three_acks_complete_a_three_item_download() {
    let mut reg = ScaleRegistry::new(catalog3());
    let ip = "10.0.0.7".to_owned();
    assert!(reg.add_device(&ip, 1, false, true));
    assert!(reg.begin_connect(&ip));
    assert_eq!(
        reg.on_state_event(&ip, STATE_CONNECT),
        EventOutcome::Act(DeviceAction::SendItem(0))
    );
    let name = Vec::new();
    assert_eq!(
        reg.on_receive_event(&ip, DfAction::DOWNLOAD.code(), &name),
        EventOutcome::Act(DeviceAction::SendItem(1))
    );
    assert_eq!(
        reg.on_receive_event(&ip, DfAction::DOWNLOAD.code(), &name),
        EventOutcome::Act(DeviceAction::SendItem(2))
    );
    assert!(!reg.scales[0].complete());
    assert_eq!(
        reg.on_receive_event(&ip, DfAction::DOWNLOAD.code(), &name),
        EventOutcome::Act(DeviceAction::Idle)
    );
    assert!(reg.scales[0].complete());
    assert_eq!(reg.scales[0].state, ProtocolState::Downloading);
}

#[test]
fn wipe_session_deletes_before_downloading() {
    let mut reg = ScaleRegistry::new(catalog3());
    let ip = "10.0.0.8".to_owned();
    assert!(reg.add_device(&ip, 1, true, true));
    assert!(reg.begin_connect(&ip));
    assert_eq!(
        reg.on_state_event(&ip, STATE_CONNECT),
        EventOutcome::Act(DeviceAction::SendDeleteAll)
    );
    // A delete echo without the sentinel name is not an acknowledgment.
    let plain = vec![b'X', 0];
    assert_eq!(reg.on_receive_event(&ip, DfAction::DELETEALL.code(), &plain), EventOutcome::Ignored);
    assert!(!reg.scales[0].delete_completed);
    // The sentinel-marked echo acknowledges the wipe and starts the download.
    assert_eq!(
        reg.on_receive_event(&ip, DfAction::DELETEALL.code(), &echo_w()),
        EventOutcome::Act(DeviceAction::SendItem(0))
    );
    assert!(reg.scales[0].delete_completed);
    assert_eq!(reg.scales[0].state, ProtocolState::Downloading);
}

#[test]
fn completion_is_monotone_under_stray_events() {
    let mut reg = ScaleRegistry::new(catalog3());
    let ip = "10.0.0.9".to_owned();
    assert!(reg.add_device(&ip, 1, false, true));
    reg.begin_connect(&ip);
    reg.on_state_event(&ip, STATE_CONNECT);
    let name = Vec::new();
    for _ in 0..3 {
        reg.on_receive_event(&ip, DfAction::DOWNLOAD.code(), &name);
    }
    assert!(reg.scales[0].complete());
    // Stray acknowledgments and state codes arrive; completion never reverts.
    reg.on_receive_event(&ip, DfAction::DOWNLOAD.code(), &name);
    reg.on_receive_event(&ip, DfAction::DELETEALL.code(), &echo_w());
    reg.on_state_event(&ip, 22);
    assert!(reg.scales[0].complete());
}

#[test]
fn unknown_addresses_are_reported_not_inserted() {
    let mut reg = ScaleRegistry::new(catalog3());
    let ip = "10.9.9.9".to_owned();
    assert_eq!(reg.on_state_event(&ip, STATE_CONNECT), EventOutcome::UnknownDevice);
    assert_eq!(
        reg.on_receive_event(&ip, DfAction::DOWNLOAD.code(), &Vec::new()),
        EventOutcome::UnknownDevice
    );
    assert!(reg.scales.is_empty());
}

#[test]
fn send_failure_isolates_one_device() {
    let mut reg = ScaleRegistry::new(catalog3());
    let a = "10.0.0.1".to_owned();
    let b = "10.0.0.2".to_owned();
    assert!(reg.add_device(&a, 1, false, true));
    assert!(reg.add_device(&b, 2, false, true));
    assert_eq!(
        reg.on_send_failed(&a),
        EventOutcome::Act(DeviceAction::Disconnect)
    );
    assert_eq!(reg.scales[0].state, ProtocolState::Error);
    assert_eq!(reg.scales[1].state, ProtocolState::Disconnected);
    // The errored device is excluded; once its sibling completes, a poll
    // reports the session done.
    reg.begin_connect(&b);
    reg.on_state_event(&b, STATE_CONNECT);
    for _ in 0..3 {
        reg.on_receive_event(&b, DfAction::DOWNLOAD.code(), &Vec::new());
    }
    let report = reg.poll(2, 0);
    assert_eq!(report.outcome, PollOutcome::Done);
}

#[test]
fn vendor_failure_on_add_leaves_no_record() {
    let mut reg = ScaleRegistry::new(catalog3());
    let ip = "10.0.0.3".to_owned();
    assert!(!reg.add_device(&ip, 1, false, false));
    assert!(reg.scales.is_empty());
}

#[test]
fn timeout_fires_at_the_deadline_and_not_before() {
    // Five-second deadline, no callbacks ever arrive.
    let mut reg = ScaleRegistry::new(catalog3());
    let ip = "10.0.0.4".to_owned();
    assert!(reg.add_device(&ip, 1, false, true));
    assert_eq!(reg.poll(0, 5).outcome, PollOutcome::Waiting);
    assert_eq!(reg.poll(4, 5).outcome, PollOutcome::Waiting);
    assert_eq!(reg.poll(5, 5).outcome, PollOutcome::TimedOut);
    let incomplete = reg.incomplete_devices();
    assert_eq!(incomplete, vec![ip]);
}

#[test]
fn zero_timeout_waits_forever() {
    let mut reg = ScaleRegistry::new(catalog3());
    let ip = "10.0.0.5".to_owned();
    assert!(reg.add_device(&ip, 1, false, true));
    assert_eq!(reg.poll(100000, 0).outcome, PollOutcome::Waiting);
}

#[test]
fn completion_is_logged_exactly_once() {
    let mut reg = ScaleRegistry::new(Vec::new());
    let ip = "10.0.0.6".to_owned();
    assert!(reg.add_device(&ip, 1, false, true));
    // An empty catalog with no wipe is complete immediately.
    let first = reg.poll(0, 0);
    assert_eq!(first.outcome, PollOutcome::Done);
    assert_eq!(first.newly_complete, vec![ip]);
    let second = reg.poll(1, 0);
    assert_eq!(second.outcome, PollOutcome::Done);
    assert!(second.newly_complete.is_empty());
}

#[test]
fn status_lines_show_progress_deleting_and_completion() {
    let mut s = Scale::new("10.1.1.1".to_owned());
    s.total = 3;
    assert_eq!("10.1.1.1 [deleting]", s.status_str());
    s.should_delete = false;
    assert_eq!("10.1.1.1 [   0.00%]", s.status_str());
    s.cursor = 1;
    assert_eq!("10.1.1.1 [  33.33%]", s.status_str());
    s.cursor = 3;
    assert_eq!("10.1.1.1 [complete]", s.status_str());
}

#[test]
fn poll_reports_one_status_line_per_device() {
    let mut reg = ScaleRegistry::new(catalog3());
    let a = "10.2.0.1".to_owned();
    let b = "10.2.0.2".to_owned();
    assert!(reg.add_device(&a, 1, false, true));
    assert!(reg.add_device(&b, 2, true, true));
    let report = reg.poll(0, 0);
    assert_eq!(
        report.status,
        vec!["10.2.0.1 [   0.00%]".to_owned(), "10.2.0.2 [deleting]".to_owned()]
    );
}

#[test]
fn record_encodes_the_item_fields() {
    let mut it = item("0020163400000", "Dry Aged Ribeye", "1027");
    it.department_id = 7;
    it.price_cents = 3499;
    let rec = TD_ST_PLU_V06::from_item(&it).expect("pushable");
    assert_eq!(rec.wdDepart, 7);
    assert_eq!(rec.dwPLU, 1027);
    assert_eq!(rec.btPLUType, 1);
    assert_eq!(rec.btWeightUnit, 1);
    assert_eq!(rec.dwItemCode, 1634);
    assert_eq!(rec.dwUnitPrice, 3499);
    assert_eq!(rec.wdLabel1, 0);
    assert_eq!(rec.chName1.len(), 101);
    assert_eq!(record_text(&rec.chName1), b"Dry Aged Ribeye".to_vec());
    assert_eq!(rec.chDirectIngredient.len(), 4097);
    assert_eq!(record_text(&rec.chDirectIngredient), Vec::<u8>::new());
}

#[test]
fn record_requires_a_parseable_plu_and_item_code() {
    let no_plu = CatalogItem { plu: None, ..item("0021111100000", "Ham", "1001") };
    assert!(TD_ST_PLU_V06::from_item(&no_plu).is_none());
    let short = item("0021111", "Ham", "1001");
    assert!(TD_ST_PLU_V06::from_item(&short).is_none());
}

#[test]
fn ingredient_text_round_trips_into_the_record() {
    let mut it = item("0021111100000", "Sausage", "1001");
    it.second_description = Some("pork, salt, sage".to_owned());
    let rec = TD_ST_PLU_V06::from_item(&it).expect("pushable");
    assert_eq!(rec.wdLabel1, 62);
    assert_eq!(rec.chDirectIngredient.len(), 4097);
    assert_eq!(record_text(&rec.chDirectIngredient), b"pork, salt, sage".to_vec());
}

#[test]
fn overlong_ingredient_text_is_cut_to_capacity_minus_one() {
    let long = "x".repeat(5000);
    let mut it = item("0021111100000", "Sausage", "1001");
    it.second_description = Some(long.clone());
    let rec = TD_ST_PLU_V06::from_item(&it).expect("pushable");
    assert_eq!(rec.chDirectIngredient.len(), 4097);
    let read_back = record_text(&rec.chDirectIngredient);
    assert_eq!(read_back.len(), 4096);
    assert_eq!(read_back, long.as_bytes()[..4096].to_vec());
}

#[test]
fn jam_truncates_and_null_pads() {
    let short = b"abc".to_vec();
    let buf = jam(&short, 6);
    assert_eq!(buf, vec![b'a', b'b', b'c', 0, 0, 0]);
    let exact = b"abcdef".to_vec();
    let buf = jam(&exact, 6);
    assert_eq!(buf, vec![b'a', b'b', b'c', b'd', b'e', 0]);
}
