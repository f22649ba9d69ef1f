//! The operations on one logical health record: create, read the original or
//! the latest version, list all versions, update, delete, and read
//! tombstones.
//!
//! Updates and the history follow one hop: every update links the new version
//! from the record's identity, and only those links are read.
use vstd::prelude::*;
use crate::decide::{
    assemble_history, hashes_to_remove, lemma_hashes_to_remove_contains, registry_links_to_remove,
    require_found, somes,
};
use crate::resolve::{latest_target, latest_target_spec, oldest_marker, oldest_marker_spec};
use crate::store::{
    all_health_records_anchor, anchor, links_from, markers_for, next_delete, next_record,
    lemma_links_from_contains, lemma_links_from_without, lemma_record_at_found,
    lemma_record_at_push, lemma_without_link_contains, record_at, without_link, Store,
    StoreView, MAX_HASH,
};
use crate::types::{
    ActionHash, DeleteMarker, HealthRecord, Link, LinkTypes, Record, UpdateHealthRecordInput,
    ValidateCallbackResult, ZomeError,
};
use crate::validation::{
    validate_create_health_record, validate_create_link_health_record_updates,
    validate_delete_health_record, validate_delete_link_all_health_records,
    validate_update_health_record,
};

verus! {

/// The first version of the record identified by `id`.
pub open spec fn original_of(v: StoreView, id: ActionHash) -> Option<Record> {
    v.get(id)
}

/// The version that the latest update link from `id` points at, or the
/// original where there is no update.
pub open spec fn latest_of(v: StoreView, id: ActionHash) -> Option<Record> {
    v.get(latest_target_spec(v.get_links(id, LinkTypes::HealthRecordUpdates), id))
}

/// The records that the targets of `links` resolve to, in link order; targets
/// without a record are skipped.
pub open spec fn fetch_targets(records: Seq<Record>, links: Seq<Link>) -> Seq<Record>
    decreases links.len(),
{
    if links.len() == 0 {
        Seq::empty()
    } else {
        let rest = fetch_targets(records, links.drop_last());
        match record_at(records, links.last().target) {
            Some(r) => rest.push(r),
            None => rest,
        }
    }
}

/// The original followed by every version one update link away from it;
/// empty where the original is unknown.
pub open spec fn history_of(v: StoreView, id: ActionHash) -> Seq<Record> {
    match v.get(id) {
        Some(r) => seq![r] + fetch_targets(v.records, v.get_links(id, LinkTypes::HealthRecordUpdates)),
        None => Seq::empty(),
    }
}

/// The oldest tombstone of the stored record `id`; `None` where `id` is not
/// stored or carries no tombstone.
pub open spec fn oldest_delete_of(v: StoreView, id: ActionHash) -> Option<DeleteMarker> {
    if v.get(id) is None {
        None
    } else {
        oldest_marker_spec(markers_for(v.deletes, id))
    }
}

/// A version can be stored and linked: two hashes are left.
pub open spec fn can_write_twice(v: StoreView) -> bool {
    v.next_hash + 1 < MAX_HASH
}

/// `v1` is `v0` after storing `entry` as a new record.
pub open spec fn created(v0: StoreView, v1: StoreView, entry: HealthRecord) -> bool {
    v0.can_write() && v1 == StoreView {
        records: v0.records.push(next_record(v0, entry, None)),
        next_hash: (v0.next_hash + 1) as u64,
        ..v0
    }
}

/// The update link that an update of `id` adds after storing its version.
pub open spec fn update_link(v0: StoreView, id: ActionHash) -> Link {
    Link {
        create_link_hash: ActionHash { value: (v0.next_hash + 1) as u64 },
        base: id,
        target: v0.fresh(),
        link_type: LinkTypes::HealthRecordUpdates,
        timestamp: (v0.next_hash + 1) as i64,
    }
}

/// `v1` is `v0` after storing `entry` as a version that supersedes the stored
/// `previous` and linking it from the stored `id`.
pub open spec fn updated(
    v0: StoreView,
    v1: StoreView,
    id: ActionHash,
    previous: ActionHash,
    entry: HealthRecord,
) -> bool {
    v0.get(id) is Some && v0.get(previous) is Some && can_write_twice(v0) && v1 == StoreView {
        records: v0.records.push(next_record(v0, entry, Some(previous))),
        links: v0.links.push(update_link(v0, id)),
        next_hash: (v0.next_hash + 2) as u64,
        ..v0
    }
}

/// `l` is a registry link to `id`.
pub open spec fn registers(l: Link, id: ActionHash) -> bool {
    l.base == anchor() && l.link_type == LinkTypes::AllHealthRecords && l.target == id
}

/// `v1` is `v0` after tombstoning the stored record `id` and removing its registry links: the
/// records and the update links stay, the other links stay.
pub open spec fn deleted(v0: StoreView, v1: StoreView, id: ActionHash) -> bool {
    &&& v0.can_write()
    &&& v0.get(id) is Some
    &&& v1.records == v0.records
    &&& v1.deletes == v0.deletes.push(next_delete(v0, id))
    &&& v1.next_hash == v0.next_hash + 1
    &&& v1.agent == v0.agent
    &&& forall|l: Link| #[trigger] v1.links.contains(l) <==> (v0.links.contains(l) && !registers(l, id))
    &&& forall|b: ActionHash|
        #[trigger] v1.get_links(b, LinkTypes::HealthRecordUpdates) == v0.get_links(
            b,
            LinkTypes::HealthRecordUpdates,
        )
}

/// Validates `health_record` and stores it as the first version of a new
/// record; returns the stored record, whose hash is the record's identity.
/// The registry is not touched.
pub fn create_health_record(store: &mut Store, health_record: HealthRecord) -> (r: Result<Record, ZomeError>)
    requires
        old(store)@.wf(),
    ensures
        final(store)@.wf(),
        old(store)@.can_write() ==> r == Ok::<Record, ZomeError>(next_record(old(store)@, health_record, None))
            && created(old(store)@, final(store)@, health_record),
        !old(store)@.can_write() ==> r == Err::<Record, ZomeError>(ZomeError::StoreUnavailable)
            && final(store)@ == old(store)@,
{
    if let ValidateCallbackResult::Invalid(reason) = validate_create_health_record(&health_record) {
        return Err(ZomeError::Validation(reason));
    }
    let ghost v0 = store@;
    let h = store.create_entry(health_record)?;
    proof {
        lemma_record_at_push(v0.records, next_record(v0, health_record, None), h);
    }
    require_found(
        store.get(h),
        ZomeError::Consistency(String::from_str("Could not find the newly created HealthRecord")),
    )
}

/// The version that the most recent update link from `original_health_record_hash`
/// points at (ties go to the smallest target hash), or the original where
/// there is no update; `None` where that version is not stored.
pub fn get_latest_health_record(store: &Store, original_health_record_hash: ActionHash) -> (r: Option<Record>)
    ensures
        r == latest_of(store@, original_health_record_hash),
{
    let links = store.get_links(original_health_record_hash, LinkTypes::HealthRecordUpdates);
    let target = latest_target(&links, original_health_record_hash);
    store.get(target)
}

/// The first version of a record, as stored.
pub fn get_original_health_record(store: &Store, original_health_record_hash: ActionHash) -> (r: Option<Record>)
    ensures
        r == original_of(store@, original_health_record_hash),
{
    store.get(original_health_record_hash)
}

/// The original followed by every version linked from it, in link order;
/// empty where the original is not stored.
pub fn get_all_revisions_for_health_record(store: &Store, original_health_record_hash: ActionHash) -> (r: Vec<Record>)
    ensures
        r@ == history_of(store@, original_health_record_hash),
{
    let original = match get_original_health_record(store, original_health_record_hash) {
        Some(rec) => rec,
        None => return Vec::new(),
    };
    let links = store.get_links(original_health_record_hash, LinkTypes::HealthRecordUpdates);
    let mut fetched: Vec<Option<Record>> = Vec::new();
    let mut i: usize = 0;
    while i < links.len()
        invariant
            0 <= i <= links@.len(),
            somes(fetched@) == fetch_targets(store@.records, links@.subrange(0, i as int)),
        decreases links@.len() - i,
    {
        assert(links@.subrange(0, i + 1).drop_last() =~= links@.subrange(0, i as int));
        let found = store.get(links[i].target);
        let ghost before = fetched@;
        fetched.push(found);
        assert(fetched@.drop_last() =~= before);
        i = i + 1;
    }
    assert(links@.subrange(0, links@.len() as int) =~= links@);
    assemble_history(original, fetched)
}

/// Stores `updated_health_record` as a version that supersedes
/// `previous_health_record_hash` and links it from the record's identity.
/// Fails with `NotFound` where the identity or the previous version is not
/// stored.
pub fn update_health_record(store: &mut Store, input: UpdateHealthRecordInput) -> (r: Result<Record, ZomeError>)
    requires
        old(store)@.wf(),
    ensures
        final(store)@.wf(),
        old(store)@.get(input.original_health_record_hash) is None || old(store)@.get(
            input.previous_health_record_hash,
        ) is None ==> r is Err && r->Err_0 is NotFound && final(store)@ == old(store)@,
        old(store)@.get(input.original_health_record_hash) is Some && old(store)@.get(
            input.previous_health_record_hash,
        ) is Some && !can_write_twice(old(store)@) ==> r == Err::<Record, ZomeError>(
            ZomeError::StoreUnavailable,
        ) && final(store)@ == old(store)@,
        old(store)@.get(input.original_health_record_hash) is Some && old(store)@.get(
            input.previous_health_record_hash,
        ) is Some && can_write_twice(old(store)@) ==> r == Ok::<Record, ZomeError>(
            next_record(old(store)@, input.updated_health_record, Some(input.previous_health_record_hash)),
        ) && updated(
            old(store)@,
            final(store)@,
            input.original_health_record_hash,
            input.previous_health_record_hash,
            input.updated_health_record,
        ),
{
    let ghost v0 = store@;
    let original = match store.get(input.original_health_record_hash) {
        Some(rec) => rec,
        None => {
            return Err(ZomeError::NotFound(String::from_str("HealthRecord not found")));
        },
    };
    if store.get(input.previous_health_record_hash).is_none() {
        return Err(ZomeError::NotFound(String::from_str("previous HealthRecord not found")));
    }
    if let ValidateCallbackResult::Invalid(reason) = validate_update_health_record(
        &input.updated_health_record,
        &original.entry,
    ) {
        return Err(ZomeError::Validation(reason));
    }
    if store.free_hashes() < 2 {
        return Err(ZomeError::StoreUnavailable);
    }
    let UpdateHealthRecordInput {
        original_health_record_hash: id,
        previous_health_record_hash: previous,
        updated_health_record: entry,
    } = input;
    let ghost new_rec = next_record(v0, entry, Some(previous));
    let h = store.update_entry(previous, entry)?;
    proof {
        lemma_record_at_push(v0.records, new_rec, h);
        lemma_record_at_push(v0.records, new_rec, id);
        lemma_record_at_found(v0.records, id);
        let k = choose|k: int| 0 <= k < v0.records.len() && v0.records[k] == original;
        assert(v0.records[k].action_hash.value < v0.next_hash);
    }
    if let ValidateCallbackResult::Invalid(reason) = validate_create_link_health_record_updates(store, id, h)? {
        return Err(ZomeError::Validation(reason));
    }
    store.create_link(id, h, LinkTypes::HealthRecordUpdates)?;
    require_found(
        store.get(h),
        ZomeError::NotFound(String::from_str("Could not find the newly updated HealthRecord")),
    )
}

/// Tombstones the record identified by `original_health_record_hash` and
/// removes every registry link to it; its versions and update links stay.
/// Returns the tombstone's hash.
pub fn delete_health_record(store: &mut Store, original_health_record_hash: ActionHash) -> (r: Result<ActionHash, ZomeError>)
    requires
        old(store)@.wf(),
    ensures
        final(store)@.wf(),
        old(store)@.get(original_health_record_hash) is None ==> r is Err && r->Err_0 is NotFound
            && final(store)@ == old(store)@,
        old(store)@.get(original_health_record_hash) is Some && !old(store)@.can_write()
            ==> r == Err::<ActionHash, ZomeError>(ZomeError::StoreUnavailable) && final(store)@ == old(store)@,
        old(store)@.get(original_health_record_hash) is Some && old(store)@.can_write()
            ==> r == Ok::<ActionHash, ZomeError>(old(store)@.fresh()) && deleted(
            old(store)@,
            final(store)@,
            original_health_record_hash,
        ),
{
    let ghost v0 = store@;
    let id = original_health_record_hash;
    let record = match store.get(id) {
        Some(rec) => rec,
        None => {
            return Err(ZomeError::NotFound(String::from_str("HealthRecord not found")));
        },
    };
    if let ValidateCallbackResult::Invalid(reason) = validate_delete_health_record(&record.entry) {
        return Err(ZomeError::Validation(reason));
    }
    if store.free_hashes() < 1 {
        return Err(ZomeError::StoreUnavailable);
    }
    let anchor_hash = all_health_records_anchor();
    let links = store.get_links(anchor_hash, LinkTypes::AllHealthRecords);
    let doomed = registry_links_to_remove(&links, id);
    proof {
        assert forall|l: Link| #[trigger] v0.links.contains(l) && registers(l, id) implies doomed@.contains(
            l.create_link_hash,
        ) by {
            lemma_links_from_contains(v0.links, anchor(), LinkTypes::AllHealthRecords, l);
            lemma_hashes_to_remove_contains(links@, id, l.create_link_hash);
            assert(links@.contains(l));
        }
    }
    let mut i: usize = 0;
    while i < doomed.len()
        invariant
            0 <= i <= doomed@.len(),
            doomed@ == hashes_to_remove(links@, id),
            links@ == v0.get_links(anchor(), LinkTypes::AllHealthRecords),
            store@.wf(),
            store@.records == v0.records,
            store@.deletes == v0.deletes,
            store@.next_hash == v0.next_hash,
            store@.agent == v0.agent,
            v0.wf(),
            v0.can_write(),
            v0.get(id) is Some,
            forall|l: Link| #[trigger] store@.links.contains(l) ==> v0.links.contains(l),
            forall|l: Link| v0.links.contains(l) && !registers(l, id) ==> #[trigger] store@.links.contains(l),
            forall|l: Link|
                #[trigger] store@.links.contains(l) && registers(l, id) ==> exists|k: int|
                    i <= k < doomed@.len() && doomed@[k] == l.create_link_hash,
            forall|b: ActionHash|
                #[trigger] store@.get_links(b, LinkTypes::HealthRecordUpdates) == v0.get_links(
                    b,
                    LinkTypes::HealthRecordUpdates,
                ),
        decreases doomed@.len() - i,
    {
        let x = doomed[i];
        if let ValidateCallbackResult::Invalid(reason) = validate_delete_link_all_health_records() {
            return Err(ZomeError::Validation(reason));
        }
        let ghost before = store@;
        proof {
            assert(doomed@.contains(x));
            lemma_hashes_to_remove_contains(links@, id, x);
            let m = choose|m: Link| #[trigger] links@.contains(m) && m.target == id && m.create_link_hash == x;
            lemma_links_from_contains(v0.links, anchor(), LinkTypes::AllHealthRecords, m);
            assert(registers(m, id));
            let q = choose|q: int| 0 <= q < v0.links.len() && v0.links[q] == m;
            assert forall|b: ActionHash| #[trigger] links_from(without_link(before.links, x), b, LinkTypes::HealthRecordUpdates)
                == before.get_links(b, LinkTypes::HealthRecordUpdates) by {
                assert forall|j: int|
                    0 <= j < before.links.len() && (#[trigger] before.links[j]).base == b
                        && before.links[j].link_type == LinkTypes::HealthRecordUpdates
                        implies before.links[j].create_link_hash != x by {
                    let ml = before.links[j];
                    assert(before.links.contains(ml));
                    let p = choose|p: int| 0 <= p < v0.links.len() && v0.links[p] == ml;
                    if ml.create_link_hash == x {
                        if p < q {
                            assert(v0.links[p].create_link_hash.value < v0.links[q].create_link_hash.value);
                        } else if q < p {
                            assert(v0.links[q].create_link_hash.value < v0.links[p].create_link_hash.value);
                        }
                    }
                }
                lemma_links_from_without(before.links, b, LinkTypes::HealthRecordUpdates, x);
            }
            assert forall|l: Link| v0.links.contains(l) && !registers(l, id) && l.create_link_hash == x implies false by {
                let p = choose|p: int| 0 <= p < v0.links.len() && v0.links[p] == l;
                if p < q {
                    assert(v0.links[p].create_link_hash.value < v0.links[q].create_link_hash.value);
                } else if q < p {
                    assert(v0.links[q].create_link_hash.value < v0.links[p].create_link_hash.value);
                }
            }
        }
        store.delete_link(x);
        proof {
            assert forall|b: ActionHash|
                #[trigger] store@.get_links(b, LinkTypes::HealthRecordUpdates) == v0.get_links(
                    b,
                    LinkTypes::HealthRecordUpdates,
                ) by {
                assert(before.get_links(b, LinkTypes::HealthRecordUpdates) == v0.get_links(
                    b,
                    LinkTypes::HealthRecordUpdates,
                ));
                assert(links_from(without_link(before.links, x), b, LinkTypes::HealthRecordUpdates)
                    == before.get_links(b, LinkTypes::HealthRecordUpdates));
            }
            assert forall|l: Link| #[trigger] store@.links.contains(l) implies v0.links.contains(l) by {
                lemma_without_link_contains(before.links, x, l);
            }
            assert forall|l: Link| v0.links.contains(l) && !registers(l, id) implies #[trigger] store@.links.contains(l) by {
                lemma_without_link_contains(before.links, x, l);
            }
            assert forall|l: Link| #[trigger] store@.links.contains(l) && registers(l, id) implies exists|k: int|
                i + 1 <= k < doomed@.len() && doomed@[k] == l.create_link_hash by {
                lemma_without_link_contains(before.links, x, l);
                let k = choose|k: int| i <= k < doomed@.len() && doomed@[k] == l.create_link_hash;
                assert(k != i);
            }
        }
        i = i + 1;
    }
    let ghost before = store@;
    let d = store.delete_entry(id)?;
    proof {
        assert forall|l: Link| #[trigger] store@.links.contains(l) <==> (v0.links.contains(l) && !registers(l, id)) by {
            if store@.links.contains(l) && registers(l, id) {
                let k = choose|k: int| i <= k < doomed@.len() && doomed@[k] == l.create_link_hash;
            }
        }
        assert forall|b: ActionHash|
            #[trigger] store@.get_links(b, LinkTypes::HealthRecordUpdates) == v0.get_links(
                b,
                LinkTypes::HealthRecordUpdates,
            ) by {
            assert(before.get_links(b, LinkTypes::HealthRecordUpdates) == v0.get_links(
                b,
                LinkTypes::HealthRecordUpdates,
            ));
        }
    }
    Ok(d)
}

/// The tombstones attached to a record, in the order they were made; `None`
/// where the record is not stored.
pub fn get_all_deletes_for_health_record(store: &Store, original_health_record_hash: ActionHash) -> (r: Option<Vec<DeleteMarker>>)
    ensures
        r is None <==> store@.get(original_health_record_hash) is None,
        r matches Some(v) ==> v@ == markers_for(store@.deletes, original_health_record_hash),
{
    if store.get(original_health_record_hash).is_none() {
        return None;
    }
    Some(store.get_deletes(original_health_record_hash))
}

/// The oldest tombstone of a record (ties go to the smallest author, then
/// the smallest hash); `None` where the record is not stored or carries none.
pub fn get_oldest_delete_for_health_record(store: &Store, original_health_record_hash: ActionHash) -> (r: Option<DeleteMarker>)
    ensures
        r == oldest_delete_of(store@, original_health_record_hash),
{
    match get_all_deletes_for_health_record(store, original_health_record_hash) {
        None => None,
        Some(deletes) => oldest_marker(&deletes),
    }
}

} // verus!
