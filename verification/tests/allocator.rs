//! The PLU allocator: range repair, uniqueness, idempotence, exhaustion.

use itretail_automation::catalog::CatalogItem;
use itretail_automation::plu::{allocate, next_plu, wrong_range, AllocationError};
use itretail_automation::scales::Scales;
use std::collections::HashSet;

fn item(upc: &str, name: &str, plu: Option<&str>, section: Option<i32>) -> CatalogItem {
    CatalogItem {
        upc: upc.to_owned(),
        description: name.to_owned(),
        second_description: None,
        price_cents: 999,
        department_id: 2,
        section_id: section,
        plu: plu.map(|p| p.to_owned()),
        deleted: false,
        scale: true,
    }
}

#[test]
fn two_item_catalog_gets_internal_and_standard_corrections() {
    // An internal item with no code and a standard item carrying 950, which
    // lies below the standard range; 950 seeds the used set.
    let items = vec![
        item("0021111100000", "(I) Salami", None, Some(1)),
        item("0029999900000", "Turkey", Some("950"), Some(1)),
    ];
    let (corrections, previously_used) = allocate(&items).expect("space is free");
    assert_eq!(corrections.len(), 2);
    assert_eq!(corrections[0].upc, "0021111100000");
    assert_eq!(corrections[0].plu, 1);
    assert_eq!(corrections[1].upc, "0029999900000");
    assert_eq!(corrections[1].plu, 1001);
    let expected: HashSet<u16> = [950].into_iter().collect();
    assert_eq!(previously_used, expected);
}

#[test]
fn corrections_avoid_codes_the_catalog_already_holds() {
    let items = vec![
        item("0021111100000", "Ham", Some("1001"), None),
        item("0022222200000", "Brisket", None, None),
        item("0023333300000", "Ribs", Some("1002"), None),
    ];
    let (corrections, _) = allocate(&items).expect("space is free");
    // Only the middle item lacks a code; 1001 and 1002 are taken.
    assert_eq!(corrections.len(), 1);
    assert_eq!(corrections[0].upc, "0022222200000");
    assert_eq!(corrections[0].plu, 1003);
}

#[test]
fn duplicate_codes_are_repaired_for_the_later_item() {
    let items = vec![
        item("0021111100000", "Ham", Some("1001"), None),
        item("0022222200000", "Brisket", Some("1001"), None),
    ];
    let (corrections, _) = allocate(&items).expect("space is free");
    assert_eq!(corrections.len(), 1);
    assert_eq!(corrections[0].upc, "0022222200000");
    assert_eq!(corrections[0].plu, 1002);
}

#[test]
fn unparseable_codes_are_replaced() {
    let items = vec![item("0021111100000", "Ham", Some("botched"), None)];
    let (corrections, previously_used) = allocate(&items).expect("space is free");
    assert_eq!(corrections.len(), 1);
    assert_eq!(corrections[0].plu, 1001);
    assert!(previously_used.is_empty());
}

#[test]
fn internal_marker_is_re_read_every_pass() {
    // The same stored code 500 is fine for an internal item and out of
    // range for a standard one: only the name decides.
    let internal = vec![item("0021111100000", "(I) Trim", Some("500"), None)];
    let standard = vec![item("0021111100000", "Trim", Some("500"), None)];
    assert!(allocate(&internal).expect("free").0.is_empty());
    let (corrections, _) = allocate(&standard).expect("free");
    assert_eq!(corrections.len(), 1);
    assert_eq!(corrections[0].plu, 1001);
}

#[test]
fn rerunning_on_corrected_output_changes_nothing() {
    let items = vec![
        item("0021111100000", "(I) Salami", None, Some(4)),
        item("0022222200000", "Turkey", Some("950"), Some(2)),
        item("0023333300000", "Ham", Some("1001"), Some(2)),
        item("0024444400000", "Ham Again", Some("1001"), Some(2)),
    ];
    let (corrections, _) = allocate(&items).expect("space is free");
    let mut corrected = items;
    for c in &corrections {
        for it in corrected.iter_mut() {
            if it.upc == c.upc {
                it.plu = Some(c.plu.to_string());
            }
        }
    }
    let (again, _) = allocate(&corrected).expect("space is free");
    assert!(again.is_empty());
}

#[test]
fn corrected_catalog_carries_pairwise_distinct_codes() {
    let items = vec![
        item("0021111100000", "(I) Salami", None, None),
        item("0022222200000", "(I) Trim", None, None),
        item("0023333300000", "Turkey", Some("12"), None),
        item("0024444400000", "Ham", Some("1001"), None),
        item("0025555500000", "Brisket", Some("1001"), None),
    ];
    let (corrections, _) = allocate(&items).expect("space is free");
    let mut finals: Vec<u16> = Vec::new();
    for it in &items {
        let correction = corrections.iter().find(|c| c.upc == it.upc);
        match correction {
            Some(c) => finals.push(c.plu),
            None => finals.push(it.plu.as_ref().unwrap().parse().unwrap()),
        }
    }
    let distinct: HashSet<u16> = finals.iter().copied().collect();
    assert_eq!(distinct.len(), finals.len());
}

#[test]
fn exhausted_internal_range_is_a_defined_error() {
    let mut items: Vec<CatalogItem> = Vec::new();
    for code in 1..=999u16 {
        items.push(item(
            &format!("002{:05}00000", code),
            "(I) Stocked",
            Some(&code.to_string()),
            None,
        ));
    }
    items.push(item("0029876500000", "(I) One Too Many", None, None));
    assert_eq!(Err(AllocationError), allocate(&items).map(|_| ()));
}

#[test]
fn next_plu_probes_upward_from_the_category_floor() {
    let mut used: HashSet<u16> = [1001, 1002, 1004].into_iter().collect();
    let standard = item("0021111100000", "Turkey", None, None);
    assert_eq!(Some(1003), next_plu(&mut used, &standard));
    assert!(used.contains(&1003));
    let internal = item("0021111100000", "(I) Trim", None, None);
    assert_eq!(Some(1), next_plu(&mut used, &internal));
}

#[test]
fn wrong_range_follows_the_category() {
    let internal = item("0021111100000", "(I) Trim", None, None);
    let standard = item("0021111100000", "Trim", None, None);
    assert!(!wrong_range(&internal, 1));
    assert!(!wrong_range(&internal, 999));
    assert!(wrong_range(&internal, 0));
    assert!(wrong_range(&internal, 1000));
    assert!(!wrong_range(&standard, 1000));
    assert!(!wrong_range(&standard, 65535));
    assert!(wrong_range(&standard, 999));
}

#[test]
fn selection_filters_by_pattern_and_sorts_by_section() {
    let scales = Scales {};
    let mut gone = item("0021111100000", "Gone", Some("1001"), Some(1));
    gone.deleted = true;
    let items = vec![
        item("0025555500000", "Late Section", Some("1002"), Some(9)),
        gone,
        item("0409999900000", "Not Weighed", Some("1003"), Some(1)),
        item("0022222200000", "Early Section", Some("1004"), Some(2)),
        item("0023333300000", "Also Late", Some("1005"), Some(9)),
    ];
    let selected = scales.select_items(items, "^002");
    let names: Vec<&str> = selected.iter().map(|i| i.description.as_str()).collect();
    assert_eq!(names, vec!["Early Section", "Late Section", "Also Late"]);
}

#[test]
fn restriction_drops_unpushable_items() {
    let scales = Scales {};
    let items = vec![
        item("0021111100000", "Kept", Some("1001"), None),
        item("0022222200000", "No Code", None, None),
        item("0023333300000", "Bad Code", Some("12b4"), None),
        item("0021234", "Short Upc", Some("1002"), None),
        item("0024444400000", "(I) Internal", Some("20"), None),
    ];
    let external_only = scales.restrict_items(
        items
            .iter()
            .map(|i| item(&i.upc, &i.description, i.plu.as_deref(), i.section_id))
            .collect(),
        false,
    );
    let names: Vec<&str> = external_only.iter().map(|i| i.description.as_str()).collect();
    assert_eq!(names, vec!["Kept"]);
    let with_internal = scales.restrict_items(items, true);
    let names: Vec<&str> = with_internal.iter().map(|i| i.description.as_str()).collect();
    assert_eq!(names, vec!["Kept", "(I) Internal"]);
}
