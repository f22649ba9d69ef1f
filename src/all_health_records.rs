//! The registry: a well-known anchor that links every registered record, so
//! that all live records can be listed without a central table.
use vstd::prelude::*;
use crate::store::{all_health_records_anchor, anchor, lemma_record_at_found, next_link, Store, StoreView};
use crate::types::{ActionHash, Link, LinkTypes, ValidateCallbackResult, ZomeError};
use crate::validation::validate_create_link_all_health_records;

verus! {

/// The registry links, in the order they were made.
pub open spec fn list_all(v: StoreView) -> Seq<Link> {
    v.get_links(anchor(), LinkTypes::AllHealthRecords)
}

/// `v1` is `v0` after adding a registry link to `id`.
pub open spec fn registered(v0: StoreView, v1: StoreView, id: ActionHash) -> bool {
    v0.can_write() && v1 == StoreView {
        links: v0.links.push(next_link(v0, anchor(), id, LinkTypes::AllHealthRecords)),
        next_hash: (v0.next_hash + 1) as u64,
        ..v0
    }
}

/// Links the record identified by `original_health_record_hash` from the
/// registry anchor. There is no check for an existing link: registering twice
/// gives two links. Returns the link's hash.
pub fn register_health_record(store: &mut Store, original_health_record_hash: ActionHash) -> (r: Result<ActionHash, ZomeError>)
    requires
        old(store)@.wf(),
    ensures
        final(store)@.wf(),
        old(store)@.get(original_health_record_hash) is None ==> r is Err && r->Err_0 is NotFound
            && final(store)@ == old(store)@,
        old(store)@.get(original_health_record_hash) is Some && !old(store)@.can_write()
            ==> r == Err::<ActionHash, ZomeError>(ZomeError::StoreUnavailable) && final(store)@ == old(store)@,
        old(store)@.get(original_health_record_hash) is Some && old(store)@.can_write()
            ==> r == Ok::<ActionHash, ZomeError>(old(store)@.fresh()) && registered(
            old(store)@,
            final(store)@,
            original_health_record_hash,
        ),
{
    if let ValidateCallbackResult::Invalid(reason) = validate_create_link_all_health_records(
        store,
        original_health_record_hash,
    )? {
        return Err(ZomeError::Validation(reason));
    }
    proof {
        lemma_record_at_found(store@.records, original_health_record_hash);
        let rec = store@.get(original_health_record_hash)->Some_0;
        let k = choose|k: int| 0 <= k < store@.records.len() && store@.records[k] == rec;
        assert(store@.records[k].action_hash.value < store@.next_hash);
    }
    store.create_link(
        all_health_records_anchor(),
        original_health_record_hash,
        LinkTypes::AllHealthRecords,
    )
}

/// Every registry link, in the order the links were made.
pub fn get_all_health_records(store: &Store) -> (r: Vec<Link>)
    ensures
        r@ == list_all(store@),
{
    store.get_links(all_health_records_anchor(), LinkTypes::AllHealthRecords)
}

} // verus!
