use health_records::all_health_records::{get_all_health_records, register_health_record};
use health_records::health_record::{
    create_health_record, delete_health_record, get_all_deletes_for_health_record,
    get_all_revisions_for_health_record, get_latest_health_record, get_oldest_delete_for_health_record,
    get_original_health_record, update_health_record,
};
use health_records::decide::{assemble_history, registry_links_to_remove, require_found};
use health_records::resolve::{latest_target, oldest_marker};
use health_records::store::{all_health_records_anchor, Store};
use health_records::types::{
    ActionHash, DeleteMarker, HealthRecord, Link, LinkTypes, UpdateHealthRecordInput,
    ValidateCallbackResult, ZomeError,
};
use health_records::validation::{
    validate_create_health_record, validate_create_link_all_health_records,
    validate_create_link_health_record_updates, validate_delete_link_all_health_records,
    validate_delete_link_health_record_updates,
};

fn record(name: &str) -> HealthRecord {
    HealthRecord {
        first_name: name.to_string(),
        family_name: "Doe".to_string(),
        age: 40,
        height: 180,
        weight: 75,
        blood_type: "A+".to_string(),
        blood_pressure_bits: 120.5f32.to_bits(),
    }
}

fn update_input(id: ActionHash, prev: ActionHash, name: &str) -> UpdateHealthRecordInput {
    UpdateHealthRecordInput {
        original_health_record_hash: id,
        previous_health_record_hash: prev,
        updated_health_record: record(name),
    }
}

fn link(hash: u64, target: u64, timestamp: i64) -> Link {
    Link {
        create_link_hash: ActionHash { value: hash },
        base: ActionHash { value: 1 },
        target: ActionHash { value: target },
        link_type: LinkTypes::HealthRecordUpdates,
        timestamp,
    }
}

fn marker(hash: u64, author: u64, timestamp: i64) -> DeleteMarker {
    DeleteMarker { action_hash: ActionHash { value: hash }, author, timestamp }
}

#[test]
fn create_update_delete_scenario() {
    let mut store = Store::new(7);
    let created = create_health_record(&mut store, record("A")).unwrap();
    let id = created.action_hash;
    register_health_record(&mut store, id).unwrap();
    let h2 = update_health_record(&mut store, update_input(id, id, "B")).unwrap();
    assert_eq!(h2.entry, record("B"));
    assert_eq!(h2.revises, Some(id));
    let latest = get_latest_health_record(&store, id).unwrap();
    assert_eq!(latest.entry, record("B"));
    let marker = delete_health_record(&mut store, id).unwrap();
    assert!(get_all_health_records(&store).iter().all(|l| l.target != id));
    let history = get_all_revisions_for_health_record(&store, id);
    let names: Vec<String> = history.iter().map(|r| r.entry.first_name.clone()).collect();
    assert_eq!(names, vec!["A".to_string(), "B".to_string()]);
    let deletes = get_all_deletes_for_health_record(&store, id).unwrap();
    assert_eq!(deletes.len(), 1);
    assert_eq!(deletes[0].action_hash, marker);
    assert_eq!(deletes[0].author, 7);
}

#[test]
fn original_stays_after_later_writes() {
    let mut store = Store::new(1);
    let id = create_health_record(&mut store, record("A")).unwrap().action_hash;
    assert_eq!(get_original_health_record(&store, id).unwrap().entry, record("A"));
    update_health_record(&mut store, update_input(id, id, "B")).unwrap();
    create_health_record(&mut store, record("C")).unwrap();
    register_health_record(&mut store, id).unwrap();
    delete_health_record(&mut store, id).unwrap();
    let original = get_original_health_record(&store, id).unwrap();
    assert_eq!(original.entry, record("A"));
    assert_eq!(original.action_hash, id);
    assert_eq!(original.revises, None);
}

#[test]
fn latest_without_updates_is_original() {
    let mut store = Store::new(1);
    let id = create_health_record(&mut store, record("A")).unwrap().action_hash;
    assert_eq!(get_latest_health_record(&store, id).unwrap().entry, record("A"));
}

#[test]
fn latest_follows_most_recent_update() {
    let mut store = Store::new(1);
    let id = create_health_record(&mut store, record("A")).unwrap().action_hash;
    let b = update_health_record(&mut store, update_input(id, id, "B")).unwrap();
    update_health_record(&mut store, update_input(id, b.action_hash, "C")).unwrap();
    assert_eq!(get_latest_health_record(&store, id).unwrap().entry, record("C"));
}

#[test]
fn latest_of_unknown_is_none() {
    let store = Store::new(1);
    assert!(get_latest_health_record(&store, ActionHash { value: 5 }).is_none());
    assert!(get_original_health_record(&store, ActionHash { value: 5 }).is_none());
}

#[test]
fn history_holds_every_update() {
    let mut store = Store::new(1);
    let id = create_health_record(&mut store, record("A")).unwrap().action_hash;
    let mut prev = id;
    for name in ["B", "C", "D"] {
        prev = update_health_record(&mut store, update_input(id, prev, name)).unwrap().action_hash;
    }
    let history = get_all_revisions_for_health_record(&store, id);
    let names: Vec<String> = history.iter().map(|r| r.entry.first_name.clone()).collect();
    assert_eq!(names, vec!["A", "B", "C", "D"]);
    assert_eq!(history[0].action_hash, id);
}

#[test]
fn history_of_unknown_is_empty() {
    let store = Store::new(1);
    assert!(get_all_revisions_for_health_record(&store, ActionHash { value: 3 }).is_empty());
}

#[test]
fn update_of_unknown_record_is_rejected() {
    let mut store = Store::new(1);
    let r = update_health_record(&mut store, update_input(ActionHash { value: 9 }, ActionHash { value: 9 }, "B"));
    assert!(matches!(r, Err(ZomeError::NotFound(_))));
    assert!(get_all_revisions_for_health_record(&store, ActionHash { value: 9 }).is_empty());
}

#[test]
fn delete_of_unknown_record_is_not_found() {
    let mut store = Store::new(1);
    let r = delete_health_record(&mut store, ActionHash { value: 4 });
    assert!(matches!(r, Err(ZomeError::NotFound(_))));
    assert!(get_all_deletes_for_health_record(&store, ActionHash { value: 4 }).is_none());
    assert!(get_oldest_delete_for_health_record(&store, ActionHash { value: 4 }).is_none());
}

#[test]
fn register_of_unknown_record_is_rejected() {
    let mut store = Store::new(1);
    let r = register_health_record(&mut store, ActionHash { value: 4 });
    assert!(matches!(r, Err(ZomeError::NotFound(_))));
    assert!(get_all_health_records(&store).is_empty());
}

#[test]
fn delete_keeps_history_and_unlists() {
    let mut store = Store::new(1);
    let a = create_health_record(&mut store, record("A")).unwrap().action_hash;
    let b = create_health_record(&mut store, record("B")).unwrap().action_hash;
    register_health_record(&mut store, a).unwrap();
    register_health_record(&mut store, b).unwrap();
    update_health_record(&mut store, update_input(a, a, "A2")).unwrap();
    let before = get_all_revisions_for_health_record(&store, a);
    delete_health_record(&mut store, a).unwrap();
    assert_eq!(get_all_revisions_for_health_record(&store, a), before);
    assert_eq!(get_original_health_record(&store, a).unwrap().entry, record("A"));
    let listed: Vec<ActionHash> = get_all_health_records(&store).iter().map(|l| l.target).collect();
    assert_eq!(listed, vec![b]);
}

#[test]
fn registering_twice_lists_twice() {
    let mut store = Store::new(1);
    let id = create_health_record(&mut store, record("A")).unwrap().action_hash;
    let l1 = register_health_record(&mut store, id).unwrap();
    let l2 = register_health_record(&mut store, id).unwrap();
    assert_ne!(l1, l2);
    let listed = get_all_health_records(&store);
    assert_eq!(listed.len(), 2);
    assert!(listed.iter().all(|l| l.target == id && l.base == all_health_records_anchor()));
    delete_health_record(&mut store, id).unwrap();
    assert!(get_all_health_records(&store).is_empty());
}

#[test]
fn create_does_not_register() {
    let mut store = Store::new(1);
    create_health_record(&mut store, record("A")).unwrap();
    assert!(get_all_health_records(&store).is_empty());
}

#[test]
fn oldest_delete_is_first_tombstone() {
    let mut store = Store::new(3);
    let id = create_health_record(&mut store, record("A")).unwrap().action_hash;
    assert_eq!(get_all_deletes_for_health_record(&store, id).unwrap(), vec![]);
    assert!(get_oldest_delete_for_health_record(&store, id).is_none());
    let d1 = delete_health_record(&mut store, id).unwrap();
    let d2 = delete_health_record(&mut store, id).unwrap();
    assert!(d1.value < d2.value);
    assert_eq!(get_all_deletes_for_health_record(&store, id).unwrap().len(), 2);
    assert_eq!(get_oldest_delete_for_health_record(&store, id).unwrap().action_hash, d1);
}

#[test]
fn latest_target_picks_newest_timestamp() {
    let links = vec![link(10, 20, 5), link(11, 21, 9), link(12, 22, 7)];
    assert_eq!(latest_target(&links, ActionHash { value: 1 }), ActionHash { value: 21 });
}

#[test]
fn latest_target_ties_go_to_smallest_target() {
    let links = vec![link(10, 30, 9), link(11, 25, 9), link(12, 40, 9), link(13, 50, 3)];
    assert_eq!(latest_target(&links, ActionHash { value: 1 }), ActionHash { value: 25 });
}

#[test]
fn latest_target_without_links_is_original() {
    assert_eq!(latest_target(&vec![], ActionHash { value: 1 }), ActionHash { value: 1 });
}

#[test]
fn latest_target_ignores_order() {
    let a = vec![link(10, 30, 9), link(11, 25, 9), link(12, 40, 4)];
    let b = vec![link(12, 40, 4), link(11, 25, 9), link(10, 30, 9), link(11, 25, 9)];
    let o = ActionHash { value: 1 };
    assert_eq!(latest_target(&a, o), latest_target(&b, o));
}

#[test]
fn oldest_marker_breaks_ties_by_author_then_hash() {
    let ms = vec![marker(5, 9, 100), marker(6, 2, 100), marker(4, 2, 100), marker(7, 1, 200)];
    assert_eq!(oldest_marker(&ms), Some(marker(4, 2, 100)));
    let earlier = vec![marker(5, 9, 100), marker(8, 9, 50)];
    assert_eq!(oldest_marker(&earlier), Some(marker(8, 9, 50)));
    assert_eq!(oldest_marker(&vec![]), None);
}

#[test]
fn oldest_marker_ignores_order() {
    let a = vec![marker(5, 9, 100), marker(6, 2, 100), marker(7, 1, 200)];
    let b = vec![marker(7, 1, 200), marker(6, 2, 100), marker(5, 9, 100)];
    assert_eq!(oldest_marker(&a), oldest_marker(&b));
}

#[test]
fn validation_rules() {
    let mut store = Store::new(1);
    assert_eq!(validate_create_health_record(&record("A")), ValidateCallbackResult::Valid);
    let id = create_health_record(&mut store, record("A")).unwrap().action_hash;
    let missing = ActionHash { value: 99 };
    assert_eq!(validate_create_link_health_record_updates(&store, id, id), Ok(ValidateCallbackResult::Valid));
    assert!(matches!(validate_create_link_health_record_updates(&store, id, missing), Err(ZomeError::NotFound(_))));
    assert!(matches!(validate_create_link_health_record_updates(&store, missing, id), Err(ZomeError::NotFound(_))));
    assert_eq!(validate_create_link_all_health_records(&store, id), Ok(ValidateCallbackResult::Valid));
    assert!(matches!(validate_create_link_all_health_records(&store, missing), Err(ZomeError::NotFound(_))));
    assert_eq!(
        validate_delete_link_health_record_updates(),
        ValidateCallbackResult::Invalid("HealthRecordUpdates links cannot be deleted".to_string())
    );
    assert_eq!(validate_delete_link_all_health_records(), ValidateCallbackResult::Valid);
}

#[test]
fn hashes_and_timestamps_come_from_one_counter() {
    let mut store = Store::new(1);
    let a = create_health_record(&mut store, record("A")).unwrap();
    assert_eq!(a.action_hash, ActionHash { value: 1 });
    assert_eq!(a.timestamp, 1);
    let l = register_health_record(&mut store, a.action_hash).unwrap();
    assert_eq!(l, ActionHash { value: 2 });
    let b = update_health_record(&mut store, update_input(a.action_hash, a.action_hash, "B")).unwrap();
    assert_eq!(b.action_hash, ActionHash { value: 3 });
    assert_eq!(store.free_hashes(), 9223372036854775807 - 5);
}

#[test]
fn blood_pressure_round_trips() {
    let r = record("A");
    assert_eq!(f32::from_bits(r.blood_pressure_bits), 120.5f32);
    assert_eq!(r.duplicate(), r);
}

#[test]
fn update_with_unknown_previous_is_not_found() {
    let mut store = Store::new(1);
    let id = create_health_record(&mut store, record("A")).unwrap().action_hash;
    let r = update_health_record(&mut store, update_input(id, ActionHash { value: 77 }, "B"));
    assert!(matches!(r, Err(ZomeError::NotFound(_))));
    assert_eq!(get_all_revisions_for_health_record(&store, id).len(), 1);
}

#[test]
fn update_history_survives_other_writes() {
    let mut store = Store::new(1);
    let id = create_health_record(&mut store, record("A")).unwrap().action_hash;
    update_health_record(&mut store, update_input(id, id, "B")).unwrap();
    let other = create_health_record(&mut store, record("X")).unwrap().action_hash;
    register_health_record(&mut store, other).unwrap();
    update_health_record(&mut store, update_input(other, other, "Y")).unwrap();
    update_health_record(&mut store, update_input(id, id, "C")).unwrap();
    let names: Vec<String> =
        get_all_revisions_for_health_record(&store, id).iter().map(|r| r.entry.first_name.clone()).collect();
    assert_eq!(names, vec!["A", "B", "C"]);
}

#[test]
fn registry_links_to_remove_picks_links_to_id() {
    let id = ActionHash { value: 3 };
    let links = vec![link(10, 3, 1), link(11, 4, 2), link(12, 3, 3)];
    assert_eq!(registry_links_to_remove(&links, id), vec![ActionHash { value: 10 }, ActionHash { value: 12 }]);
    assert!(registry_links_to_remove(&vec![link(11, 4, 2)], id).is_empty());
}

#[test]
fn assemble_history_skips_missing_versions() {
    let h = assemble_history(1, vec![Some(2), None, Some(4)]);
    assert_eq!(h, vec![1, 2, 4]);
    assert_eq!(assemble_history(1, Vec::<Option<i32>>::new()), vec![1]);
}

#[test]
fn require_found_reports_missing() {
    assert_eq!(require_found(Some(5), ZomeError::StoreUnavailable), Ok(5));
    assert_eq!(
        require_found::<i32>(None, ZomeError::Consistency("gone".to_string())),
        Err(ZomeError::Consistency("gone".to_string()))
    );
}

#[test]
fn link_base_must_be_known() {
    let mut store = Store::new(1);
    let id = create_health_record(&mut store, record("A")).unwrap().action_hash;
    let r = store.create_link(ActionHash { value: 50 }, id, LinkTypes::HealthRecordUpdates);
    assert!(matches!(r, Err(ZomeError::NotFound(_))));
    assert!(store.create_link(all_health_records_anchor(), id, LinkTypes::AllHealthRecords).is_ok());
}
