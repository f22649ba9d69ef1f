//! What holds across operations of the record store.
use vstd::prelude::*;
use crate::all_health_records::{list_all, registered};
use crate::health_record::{
    created, deleted, fetch_targets, history_of, latest_of, oldest_delete_of, original_of, registers, update_link,
    updated,
};
use crate::resolve::{is_latest_link, lemma_latest_target_converges, lemma_oldest_marker_converges, latest_target_spec, ranks_below_or_eq};
use crate::store::{
    anchor, lemma_links_from_contains, lemma_record_at_append, lemma_record_at_found,
    lemma_record_at_push, links_from, markers_for, next_link, next_record, StoreView,
};
use crate::types::{ActionHash, HealthRecord, Link, LinkTypes, Record};

verus! {

/// `v1` follows `v0` by one successful write: a create, an update, a
/// registration or a deletion. Every write leaves a well-formed store.
pub open spec fn write_step(v0: StoreView, v1: StoreView) -> bool {
    &&& v1.wf()
    &&& write_kind(v0, v1)
}

/// The four kinds of successful write.
pub open spec fn write_kind(v0: StoreView, v1: StoreView) -> bool {
    ||| exists|e: HealthRecord| created(v0, v1, e)
    ||| exists|id: ActionHash, prev: ActionHash, e: HealthRecord| updated(v0, v1, id, prev, e)
    ||| exists|id: ActionHash| registered(v0, v1, id)
    ||| exists|id: ActionHash| deleted(v0, v1, id)
}

/// Some version in `history` carries the payload `e`.
pub open spec fn has_entry(history: Seq<Record>, e: HealthRecord) -> bool {
    exists|j: int| 0 <= j < history.len() && history[j].entry == e
}

proof fn lemma_write_step_extends_records(v0: StoreView, v1: StoreView)
    requires
        write_kind(v0, v1),
    ensures
        exists|t: Seq<Record>| v1.records == v0.records + t,
{
    if exists|e: HealthRecord| created(v0, v1, e) {
        let e = choose|e: HealthRecord| created(v0, v1, e);
        assert(v1.records == v0.records + seq![next_record(v0, e, None)]);
    } else if exists|id: ActionHash, prev: ActionHash, e: HealthRecord| updated(v0, v1, id, prev, e) {
        let (id, prev, e) = choose|id: ActionHash, prev: ActionHash, e: HealthRecord| updated(v0, v1, id, prev, e);
        assert(v1.records == v0.records + seq![next_record(v0, e, Some(prev))]);
    } else {
        assert(v1.records == v0.records + Seq::<Record>::empty());
    }
}

/// Creating a record returns its identity, under which the original reads
/// back with the submitted payload.
pub proof fn lemma_create_then_original(v0: StoreView, v1: StoreView, entry: HealthRecord)
    requires
        v0.wf(),
        created(v0, v1, entry),
    ensures
        original_of(v1, v0.fresh()) == Some(next_record(v0, entry, None)),
        next_record(v0, entry, None).entry == entry,
{
    lemma_record_at_push(v0.records, next_record(v0, entry, None), v0.fresh());
}

/// Once a record's original is stored, every later write leaves it as it is.
pub proof fn lemma_original_is_stable(v0: StoreView, v1: StoreView, id: ActionHash)
    requires
        write_step(v0, v1),
        original_of(v0, id) is Some,
    ensures
        original_of(v1, id) == original_of(v0, id),
{
    lemma_write_step_extends_records(v0, v1);
    let t = choose|t: Seq<Record>| v1.records == v0.records + t;
    lemma_record_at_append(v0.records, t, id);
}

proof fn lemma_links_from_push(s: Seq<Link>, l: Link, base: ActionHash, kind: LinkTypes)
    ensures
        links_from(s.push(l), base, kind) == (if l.base == base && l.link_type == kind {
            links_from(s, base, kind).push(l)
        } else {
            links_from(s, base, kind)
        }),
{
    assert(s.push(l).drop_last() =~= s);
}

/// After an update of `id` succeeds, the latest version of `id` is the one
/// just stored, with the submitted payload.
pub proof fn lemma_update_then_latest(
    v0: StoreView,
    v1: StoreView,
    id: ActionHash,
    previous: ActionHash,
    entry: HealthRecord,
)
    requires
        v0.wf(),
        updated(v0, v1, id, previous, entry),
    ensures
        latest_of(v1, id) == Some(next_record(v0, entry, Some(previous))),
        next_record(v0, entry, Some(previous)).entry == entry,
{
    let ul = update_link(v0, id);
    let old_links = v0.get_links(id, LinkTypes::HealthRecordUpdates);
    let links = v1.get_links(id, LinkTypes::HealthRecordUpdates);
    lemma_links_from_push(v0.links, ul, id, LinkTypes::HealthRecordUpdates);
    assert(links == old_links.push(ul));
    assert forall|m: Link| old_links.contains(m) implies m.timestamp < ul.timestamp by {
        lemma_links_from_contains(v0.links, id, LinkTypes::HealthRecordUpdates, m);
        let k = choose|k: int| 0 <= k < v0.links.len() && v0.links[k] == m;
        assert(v0.links[k].timestamp < v0.next_hash);
    }
    assert(links[links.len() - 1] == ul);
    assert(links.contains(ul));
    assert forall|m: Link| links.contains(m) implies ranks_below_or_eq(m, ul) by {
        let k = choose|k: int| 0 <= k < links.len() && links[k] == m;
        if k < links.len() - 1 {
            assert(old_links[k] == m);
            assert(old_links.contains(m));
        }
    }
    assert(is_latest_link(links, ul));
    let x = choose|x: Link| is_latest_link(links, x);
    assert(ranks_below_or_eq(ul, x));
    if x != ul {
        let k = choose|k: int| 0 <= k < links.len() && links[k] == x;
        assert(old_links[k] == x);
        assert(old_links.contains(x));
    }
    assert(latest_target_spec(links, id) == v0.fresh());
    lemma_record_at_push(v0.records, next_record(v0, entry, Some(previous)), v0.fresh());
}

proof fn lemma_fetch_targets_push_record(s: Seq<Record>, r: Record, links: Seq<Link>)
    requires
        forall|i: int| 0 <= i < s.len() ==> #[trigger] s[i].action_hash.value < r.action_hash.value,
        forall|i: int| 0 <= i < links.len() ==> (#[trigger] links[i]).target.value < r.action_hash.value,
    ensures
        fetch_targets(s.push(r), links) == fetch_targets(s, links),
    decreases links.len(),
{
    if links.len() > 0 {
        let p = links.drop_last();
        assert forall|i: int| 0 <= i < p.len() implies (#[trigger] p[i]).target.value < r.action_hash.value by {
            assert(links[i] == p[i]);
        }
        lemma_fetch_targets_push_record(s, r, p);
        lemma_record_at_push(s, r, links.last().target);
    }
}

/// An update of a stored record `id` appends exactly the new version to the
/// history of `id`.
pub proof fn lemma_update_extends_history(
    v0: StoreView,
    v1: StoreView,
    id: ActionHash,
    previous: ActionHash,
    entry: HealthRecord,
)
    requires
        v0.wf(),
        original_of(v0, id) is Some,
        updated(v0, v1, id, previous, entry),
    ensures
        history_of(v1, id) == history_of(v0, id).push(next_record(v0, entry, Some(previous))),
{
    let rec = next_record(v0, entry, Some(previous));
    let ul = update_link(v0, id);
    let old_links = v0.get_links(id, LinkTypes::HealthRecordUpdates);
    lemma_links_from_push(v0.links, ul, id, LinkTypes::HealthRecordUpdates);
    lemma_record_at_push(v0.records, rec, id);
    lemma_record_at_push(v0.records, rec, v0.fresh());
    lemma_record_at_found(v0.records, id);
    let orig = v0.get(id)->Some_0;
    let k = choose|k: int| 0 <= k < v0.records.len() && v0.records[k] == orig;
    assert(v0.records[k].action_hash.value < v0.next_hash);
    assert forall|i: int| 0 <= i < old_links.len() implies (#[trigger] old_links[i]).target.value
        < rec.action_hash.value by {
        assert(old_links.contains(old_links[i]));
        lemma_links_from_contains(v0.links, id, LinkTypes::HealthRecordUpdates, old_links[i]);
        let j = choose|j: int| 0 <= j < v0.links.len() && v0.links[j] == old_links[i];
        assert(v0.links[j].target.value < v0.next_hash);
    }
    lemma_fetch_targets_push_record(v0.records, rec, old_links);
    assert(old_links.push(ul).drop_last() =~= old_links);
    assert(seq![orig] + fetch_targets(v0.records, old_links).push(rec) =~= (seq![orig] + fetch_targets(
        v0.records,
        old_links,
    )).push(rec));
}

proof fn lemma_updated_keeps_wf(v0: StoreView, v1: StoreView, id: ActionHash, previous: ActionHash, entry: HealthRecord)
    requires
        v0.wf(),
        updated(v0, v1, id, previous, entry),
    ensures
        v1.wf(),
        original_of(v0, id) is Some ==> original_of(v1, id) == original_of(v0, id),
{
    lemma_record_at_found(v0.records, id);
    let orig = v0.get(id)->Some_0;
    let ko = choose|k: int| 0 <= k < v0.records.len() && v0.records[k] == orig;
    assert(v0.records[ko].action_hash.value < v0.next_hash);
    assert forall|i: int| 0 <= i < v1.records.len() implies #[trigger] v1.records[i].action_hash.value
        < v1.next_hash by {
        if i < v0.records.len() {
            assert(v0.records[i] == v1.records[i]);
        }
    }
    assert forall|i: int| 0 <= i < v1.links.len() implies {
        &&& (#[trigger] v1.links[i]).create_link_hash.value < v1.next_hash
        &&& v1.links[i].target.value < v1.next_hash
        &&& v1.links[i].timestamp < v1.next_hash
        &&& (v1.links[i].base == anchor() || v1.links[i].base.value < v1.next_hash)
    } by {
        if i < v0.links.len() {
            assert(v0.links[i] == v1.links[i]);
        }
    }
    assert forall|i: int, j: int| 0 <= i < j < v1.links.len() implies v1.links[i].create_link_hash.value
        < v1.links[j].create_link_hash.value by {
        assert(v0.links.len() + 1 == v1.links.len());
        if j < v0.links.len() {
            assert(v0.links[i] == v1.links[i] && v0.links[j] == v1.links[j]);
        } else {
            assert(v0.links[i] == v1.links[i]);
        }
    }
    lemma_record_at_append(v0.records, seq![next_record(v0, entry, Some(previous))], id);
    assert(v1.records == v0.records + seq![next_record(v0, entry, Some(previous))]);
}

/// After a run of successful updates of a stored record `id`, the history of
/// `id` is its earlier history followed by each new version in turn; so it
/// holds at least one entry more than there were updates, and every submitted
/// payload.
pub proof fn lemma_updates_extend_history(
    states: Seq<StoreView>,
    id: ActionHash,
    previous: Seq<ActionHash>,
    entries: Seq<HealthRecord>,
)
    requires
        states.len() == entries.len() + 1,
        previous.len() == entries.len(),
        states[0].wf(),
        original_of(states[0], id) is Some,
        forall|k: int|
            0 <= k < entries.len() ==> updated(
                #[trigger] states[k],
                states[k + 1],
                id,
                previous[k],
                entries[k],
            ),
    ensures
        history_of(states.last(), id) == history_of(states[0], id) + Seq::new(
            entries.len(),
            |k: int| next_record(states[k], entries[k], Some(previous[k])),
        ),
        history_of(states.last(), id).len() >= entries.len() + 1,
        forall|k: int| 0 <= k < entries.len() ==> has_entry(history_of(states.last(), id), #[trigger] entries[k]),
    decreases entries.len(),
{
    let n = entries.len() as int;
    let recs = Seq::new(entries.len(), |k: int| next_record(states[k], entries[k], Some(previous[k])));
    if n == 0 {
        assert(history_of(states[0], id) + recs =~= history_of(states[0], id));
    } else {
        let s2 = states.drop_last();
        let p2 = previous.drop_last();
        let e2 = entries.drop_last();
        assert forall|k: int| 0 <= k < e2.len() implies updated(#[trigger] s2[k], s2[k + 1], id, p2[k], e2[k]) by {
            assert(updated(states[k], states[k + 1], id, previous[k], entries[k]));
        }
        lemma_updates_extend_history(s2, id, p2, e2);
        lemma_updates_keep_wf(s2, id, p2, e2);
        let last = s2.last();
        assert(updated(states[n - 1], states[n], id, previous[n - 1], entries[n - 1]));
        lemma_update_extends_history(last, states.last(), id, previous[n - 1], entries[n - 1]);
        let recs2 = Seq::new(e2.len(), |k: int| next_record(s2[k], e2[k], Some(p2[k])));
        assert(recs2.push(recs[n - 1]) =~= recs);
        assert(history_of(states.last(), id) =~= history_of(states[0], id) + recs);
    }
    lemma_history_has_original(states[0], id);
    assert forall|k: int| 0 <= k < n implies has_entry(history_of(states.last(), id), #[trigger] entries[k]) by {
        let h0 = history_of(states[0], id);
        assert(history_of(states.last(), id)[h0.len() + k] == recs[k]);
    }
}

proof fn lemma_updates_keep_wf(
    states: Seq<StoreView>,
    id: ActionHash,
    previous: Seq<ActionHash>,
    entries: Seq<HealthRecord>,
)
    requires
        states.len() == entries.len() + 1,
        previous.len() == entries.len(),
        states[0].wf(),
        original_of(states[0], id) is Some,
        forall|k: int|
            0 <= k < entries.len() ==> updated(
                #[trigger] states[k],
                states[k + 1],
                id,
                previous[k],
                entries[k],
            ),
    ensures
        states.last().wf(),
        original_of(states.last(), id) is Some,
    decreases entries.len(),
{
    let n = entries.len() as int;
    if n > 0 {
        let s2 = states.drop_last();
        let p2 = previous.drop_last();
        let e2 = entries.drop_last();
        assert forall|k: int| 0 <= k < e2.len() implies updated(#[trigger] s2[k], s2[k + 1], id, p2[k], e2[k]) by {
            assert(updated(states[k], states[k + 1], id, previous[k], entries[k]));
        }
        lemma_updates_keep_wf(s2, id, p2, e2);
        assert(updated(states[n - 1], states[n], id, previous[n - 1], entries[n - 1]));
        lemma_updated_keeps_wf(s2.last(), states.last(), id, previous[n - 1], entries[n - 1]);
    }
}

/// The history of a stored record begins with its original; the history of
/// an unknown one is empty.
pub proof fn lemma_history_has_original(v: StoreView, id: ActionHash)
    ensures
        original_of(v, id) matches Some(r) ==> history_of(v, id).len() >= 1 && history_of(v, id)[0] == r,
        original_of(v, id) is None ==> history_of(v, id).len() == 0,
{
}

/// Deleting a record keeps its original and its history readable and takes
/// it out of the registry listing.
pub proof fn lemma_delete_keeps_history(v0: StoreView, v1: StoreView, id: ActionHash)
    requires
        deleted(v0, v1, id),
    ensures
        original_of(v1, id) == original_of(v0, id),
        original_of(v1, id) is Some,
        history_of(v1, id) == history_of(v0, id),
        history_of(v1, id).len() >= 1,
        forall|l: Link| #[trigger] list_all(v1).contains(l) ==> l.target != id,
{
    assert(v1.get_links(id, LinkTypes::HealthRecordUpdates) == v0.get_links(id, LinkTypes::HealthRecordUpdates));
    assert forall|l: Link| #[trigger] list_all(v1).contains(l) implies l.target != id by {
        lemma_links_from_contains(v1.links, anchor(), LinkTypes::AllHealthRecords, l);
        assert(v1.links.contains(l));
        assert(!registers(l, id));
    }
}

/// Registering a record twice leaves two distinct registry links to it: the
/// listing reports it twice.
pub proof fn lemma_register_twice(v0: StoreView, v1: StoreView, v2: StoreView, id: ActionHash)
    requires
        registered(v0, v1, id),
        registered(v1, v2, id),
    ensures
        list_all(v2) == list_all(v0) + seq![
            next_link(v0, anchor(), id, LinkTypes::AllHealthRecords),
            next_link(v1, anchor(), id, LinkTypes::AllHealthRecords),
        ],
        next_link(v0, anchor(), id, LinkTypes::AllHealthRecords) != next_link(v1, anchor(), id, LinkTypes::AllHealthRecords),
{
    let l1 = next_link(v0, anchor(), id, LinkTypes::AllHealthRecords);
    let l2 = next_link(v1, anchor(), id, LinkTypes::AllHealthRecords);
    lemma_links_from_push(v0.links, l1, anchor(), LinkTypes::AllHealthRecords);
    lemma_links_from_push(v1.links, l2, anchor(), LinkTypes::AllHealthRecords);
    assert(list_all(v0).push(l1).push(l2) =~= list_all(v0) + seq![l1, l2]);
}

/// Two replicas that store the same records and see the same set of update
/// links from `id` agree on its latest version.
pub proof fn lemma_latest_converges(v: StoreView, w: StoreView, id: ActionHash)
    requires
        v.records == w.records,
        v.get_links(id, LinkTypes::HealthRecordUpdates).to_set() == w.get_links(
            id,
            LinkTypes::HealthRecordUpdates,
        ).to_set(),
    ensures
        latest_of(v, id) == latest_of(w, id),
{
    lemma_latest_target_converges(
        v.get_links(id, LinkTypes::HealthRecordUpdates),
        w.get_links(id, LinkTypes::HealthRecordUpdates),
        id,
    );
}

/// Two replicas that both store `id`, or both lack it, and see the same set
/// of its tombstones agree on the oldest one.
pub proof fn lemma_oldest_delete_converges(v: StoreView, w: StoreView, id: ActionHash)
    requires
        (v.get(id) is Some) == (w.get(id) is Some),
        markers_for(v.deletes, id).to_set() == markers_for(w.deletes, id).to_set(),
    ensures
        oldest_delete_of(v, id) == oldest_delete_of(w, id),
{
    lemma_oldest_marker_converges(markers_for(v.deletes, id), markers_for(w.deletes, id));
}

/// `a` is an initial part of `b`.
pub open spec fn is_prefix(a: Seq<Record>, b: Seq<Record>) -> bool {
    a.len() <= b.len() && b.subrange(0, a.len() as int) == a
}

proof fn lemma_prefix_trans(a: Seq<Record>, b: Seq<Record>, c: Seq<Record>)
    requires
        is_prefix(a, b),
        is_prefix(b, c),
    ensures
        is_prefix(a, c),
{
    assert(c.subrange(0, a.len() as int) =~= a);
}

/// Adding a record under a fresh hash, with the update links from `id`
/// unchanged, leaves the history of `id` as it was.
proof fn lemma_history_same_links(v0: StoreView, v1: StoreView, id: ActionHash, r: Record)
    requires
        v0.wf(),
        original_of(v0, id) is Some,
        r.action_hash == v0.fresh(),
        v1.records == v0.records.push(r),
        v1.get_links(id, LinkTypes::HealthRecordUpdates) == v0.get_links(id, LinkTypes::HealthRecordUpdates),
    ensures
        history_of(v1, id) == history_of(v0, id),
{
    let old_links = v0.get_links(id, LinkTypes::HealthRecordUpdates);
    lemma_record_at_push(v0.records, r, id);
    lemma_record_at_found(v0.records, id);
    let orig = v0.get(id)->Some_0;
    let k = choose|k: int| 0 <= k < v0.records.len() && v0.records[k] == orig;
    assert(v0.records[k].action_hash.value < v0.next_hash);
    assert forall|i: int| 0 <= i < old_links.len() implies (#[trigger] old_links[i]).target.value
        < r.action_hash.value by {
        assert(old_links.contains(old_links[i]));
        lemma_links_from_contains(v0.links, id, LinkTypes::HealthRecordUpdates, old_links[i]);
        let j = choose|j: int| 0 <= j < v0.links.len() && v0.links[j] == old_links[i];
        assert(v0.links[j].target.value < v0.next_hash);
    }
    lemma_fetch_targets_push_record(v0.records, r, old_links);
}

/// No write shortens a history: the history of a stored record before a
/// write is an initial part of its history after it.
pub proof fn lemma_history_step(v0: StoreView, v1: StoreView, id: ActionHash)
    requires
        v0.wf(),
        write_step(v0, v1),
        original_of(v0, id) is Some,
    ensures
        is_prefix(history_of(v0, id), history_of(v1, id)),
        original_of(v1, id) == original_of(v0, id),
{
    lemma_original_is_stable(v0, v1, id);
    let h0 = history_of(v0, id);
    if exists|e: HealthRecord| created(v0, v1, e) {
        let e = choose|e: HealthRecord| created(v0, v1, e);
        lemma_history_same_links(v0, v1, id, next_record(v0, e, None));
    } else if exists|i: ActionHash, prev: ActionHash, e: HealthRecord| updated(v0, v1, i, prev, e) {
        let (i, prev, e) = choose|i: ActionHash, prev: ActionHash, e: HealthRecord| updated(v0, v1, i, prev, e);
        if i == id {
            lemma_update_extends_history(v0, v1, id, prev, e);
        } else {
            lemma_links_from_push(v0.links, update_link(v0, i), id, LinkTypes::HealthRecordUpdates);
            lemma_history_same_links(v0, v1, id, next_record(v0, e, Some(prev)));
        }
    } else if exists|i: ActionHash| registered(v0, v1, i) {
        let i = choose|i: ActionHash| registered(v0, v1, i);
        lemma_links_from_push(v0.links, next_link(v0, anchor(), i, LinkTypes::AllHealthRecords), id, LinkTypes::HealthRecordUpdates);
    } else {
        let i = choose|i: ActionHash| deleted(v0, v1, i);
        assert(v1.get_links(id, LinkTypes::HealthRecordUpdates) == v0.get_links(id, LinkTypes::HealthRecordUpdates));
    }
    assert(history_of(v1, id).subrange(0, h0.len() as int) =~= h0);
}

/// `states` is a run of successful writes from a well-formed store.
pub open spec fn is_run(states: Seq<StoreView>) -> bool {
    &&& states.len() >= 1
    &&& states[0].wf()
    &&& forall|k: int| 0 <= k < states.len() - 1 ==> write_step(#[trigger] states[k], states[k + 1])
}

/// Over any run of writes, whatever they are, the history of a stored record
/// only grows: each earlier history is an initial part of the last one.
pub proof fn lemma_history_only_grows(states: Seq<StoreView>, id: ActionHash)
    requires
        is_run(states),
        original_of(states[0], id) is Some,
    ensures
        forall|k: int| 0 <= k < states.len() ==> is_prefix(history_of(#[trigger] states[k], id), history_of(states.last(), id)),
        original_of(states.last(), id) == original_of(states[0], id),
    decreases states.len(),
{
    let n = states.len() as int;
    if n == 1 {
        assert forall|k: int| 0 <= k < states.len() implies is_prefix(history_of(#[trigger] states[k], id), history_of(states.last(), id)) by {
            assert(history_of(states.last(), id).subrange(0, history_of(states.last(), id).len() as int) =~= history_of(states.last(), id));
        }
    } else {
        let s2 = states.drop_last();
        assert forall|k: int| 0 <= k < s2.len() - 1 implies write_step(#[trigger] s2[k], s2[k + 1]) by {
            assert(write_step(states[k], states[k + 1]));
        }
        lemma_history_only_grows(s2, id);
        assert(write_step(states[n - 2], states[n - 1]));
        lemma_run_wf(s2);
        lemma_history_step(s2.last(), states.last(), id);
        assert forall|k: int| 0 <= k < states.len() implies is_prefix(history_of(#[trigger] states[k], id), history_of(states.last(), id)) by {
            if k < n - 1 {
                assert(s2[k] == states[k]);
                lemma_prefix_trans(history_of(states[k], id), history_of(s2.last(), id), history_of(states.last(), id));
            } else {
                assert(history_of(states.last(), id).subrange(0, history_of(states.last(), id).len() as int) =~= history_of(states.last(), id));
            }
        }
    }
}

proof fn lemma_run_wf(states: Seq<StoreView>)
    requires
        is_run(states),
    ensures
        states.last().wf(),
{
    if states.len() > 1 {
        assert(write_step(states[states.len() - 2], states[states.len() - 1]));
    }
}

/// Over any run of writes in which the updates of a stored record `id` are
/// made at steps `steps` (other writes may come between them), the final
/// history of `id` holds every payload those updates submitted, and at least
/// one entry more than there were updates.
pub proof fn lemma_updates_in_history(
    states: Seq<StoreView>,
    id: ActionHash,
    steps: Seq<int>,
    previous: Seq<ActionHash>,
    entries: Seq<HealthRecord>,
)
    requires
        is_run(states),
        original_of(states[0], id) is Some,
        steps.len() == entries.len(),
        previous.len() == entries.len(),
        forall|j: int| 0 <= j < steps.len() ==> 0 <= #[trigger] steps[j] < states.len() - 1,
        forall|i: int, j: int| 0 <= i < j < steps.len() ==> steps[i] < steps[j],
        forall|j: int|
            0 <= j < steps.len() ==> updated(
                states[#[trigger] steps[j]],
                states[steps[j] + 1],
                id,
                previous[j],
                entries[j],
            ),
    ensures
        forall|j: int| 0 <= j < entries.len() ==> has_entry(history_of(states.last(), id), #[trigger] entries[j]),
        history_of(states.last(), id).len() >= entries.len() + 1,
{
    lemma_history_only_grows(states, id);
    assert forall|j: int| 0 <= j < entries.len() implies has_entry(history_of(states.last(), id), #[trigger] entries[j]) by {
        let k = steps[j];
        let pre = states.subrange(0, k + 1);
        lemma_sub_run(states, k + 1);
        lemma_history_only_grows(pre, id);
        lemma_run_wf(pre);
        assert(pre.last() == states[k]);
        lemma_update_extends_history(states[k], states[k + 1], id, previous[j], entries[j]);
        let h = history_of(states[k], id);
        let fin = history_of(states.last(), id);
        let h1 = history_of(states[k + 1], id);
        assert(is_prefix(h1, fin));
        assert(h1[h.len() as int] == next_record(states[k], entries[j], Some(previous[j])));
        assert(fin.subrange(0, h1.len() as int)[h.len() as int] == h1[h.len() as int]);
        assert(fin[h.len() as int].entry == entries[j]);
    }
    if entries.len() > 0 {
        lemma_update_count(states, id, steps, previous, entries, entries.len() - 1);
        let k = steps[entries.len() - 1];
        assert(is_prefix(history_of(states[k + 1], id), history_of(states.last(), id)));
    } else {
        lemma_history_has_original(states.last(), id);
    }
}

proof fn lemma_sub_run(states: Seq<StoreView>, m: int)
    requires
        is_run(states),
        1 <= m <= states.len(),
    ensures
        is_run(states.subrange(0, m)),
{
    let sub = states.subrange(0, m);
    assert forall|k: int| 0 <= k < sub.len() - 1 implies write_step(#[trigger] sub[k], sub[k + 1]) by {
        assert(write_step(states[k], states[k + 1]));
    }
}

proof fn lemma_update_count(
    states: Seq<StoreView>,
    id: ActionHash,
    steps: Seq<int>,
    previous: Seq<ActionHash>,
    entries: Seq<HealthRecord>,
    j: int,
)
    requires
        is_run(states),
        original_of(states[0], id) is Some,
        steps.len() == entries.len(),
        previous.len() == entries.len(),
        0 <= j < steps.len(),
        forall|j: int| 0 <= j < steps.len() ==> 0 <= #[trigger] steps[j] < states.len() - 1,
        forall|i: int, j: int| 0 <= i < j < steps.len() ==> steps[i] < steps[j],
        forall|j: int|
            0 <= j < steps.len() ==> updated(
                states[#[trigger] steps[j]],
                states[steps[j] + 1],
                id,
                previous[j],
                entries[j],
            ),
    ensures
        history_of(states[steps[j] + 1], id).len() >= j + 2,
    decreases j,
{
    let k = steps[j];
    let pre = states.subrange(0, k + 1);
    lemma_sub_run(states, k + 1);
    lemma_history_only_grows(pre, id);
    lemma_run_wf(pre);
    assert(pre.last() == states[k]);
    assert(pre[0] == states[0]);
    lemma_update_extends_history(states[k], states[k + 1], id, previous[j], entries[j]);
    if j == 0 {
        lemma_history_has_original(states[k], id);
    } else {
        lemma_update_count(states, id, steps, previous, entries, j - 1);
        let k0 = steps[j - 1];
        assert(k0 < k);
        assert(pre[k0 + 1] == states[k0 + 1]);
        assert(is_prefix(history_of(pre[k0 + 1], id), history_of(pre.last(), id)));
    }
}

/// Once a record is deleted, no run of later writes that does not register
/// it again brings it back into the registry listing; its original and
/// history stay readable throughout.
pub proof fn lemma_deleted_stays_unlisted(pre: StoreView, states: Seq<StoreView>, id: ActionHash)
    requires
        deleted(pre, states[0], id),
        is_run(states),
        forall|k: int| 0 <= k < states.len() - 1 ==> !registered(#[trigger] states[k], states[k + 1], id),
    ensures
        forall|l: Link| #[trigger] list_all(states.last()).contains(l) ==> l.target != id,
        original_of(states.last(), id) is Some,
        history_of(states.last(), id).len() >= 1,
    decreases states.len(),
{
    lemma_delete_keeps_history(pre, states[0], id);
    lemma_history_only_grows(states, id);
    lemma_history_has_original(states.last(), id);
    if states.len() > 1 {
        let n = states.len() as int;
        let s2 = states.drop_last();
        assert forall|k: int| 0 <= k < s2.len() - 1 implies write_step(#[trigger] s2[k], s2[k + 1]) by {
            assert(write_step(states[k], states[k + 1]));
        }
        assert forall|k: int| 0 <= k < s2.len() - 1 implies !registered(#[trigger] s2[k], s2[k + 1], id) by {
            assert(!registered(states[k], states[k + 1], id));
        }
        lemma_deleted_stays_unlisted(pre, s2, id);
        assert(write_step(states[n - 2], states[n - 1]));
        assert(!registered(states[n - 2], states[n - 1], id));
        lemma_unlisted_step(s2.last(), states.last(), id);
    }
}

proof fn lemma_unlisted_step(v0: StoreView, v1: StoreView, id: ActionHash)
    requires
        write_step(v0, v1),
        !registered(v0, v1, id),
        forall|l: Link| #[trigger] list_all(v0).contains(l) ==> l.target != id,
    ensures
        forall|l: Link| #[trigger] list_all(v1).contains(l) ==> l.target != id,
{
    assert forall|l: Link| #[trigger] list_all(v1).contains(l) implies l.target != id by {
        lemma_links_from_contains(v1.links, anchor(), LinkTypes::AllHealthRecords, l);
        lemma_links_from_contains(v0.links, anchor(), LinkTypes::AllHealthRecords, l);
        if exists|e: HealthRecord| created(v0, v1, e) {
            assert(v1.links == v0.links);
            assert(list_all(v0).contains(l));
        } else if exists|i: ActionHash, prev: ActionHash, e: HealthRecord| updated(v0, v1, i, prev, e) {
            let (i, prev, e) = choose|i: ActionHash, prev: ActionHash, e: HealthRecord| updated(v0, v1, i, prev, e);
            let k = choose|k: int| 0 <= k < v1.links.len() && v1.links[k] == l;
            if k < v0.links.len() {
                assert(v0.links[k] == l);
                assert(v0.links.contains(l));
                assert(list_all(v0).contains(l));
            } else {
                assert(l == update_link(v0, i));
            }
        } else if exists|i: ActionHash| registered(v0, v1, i) {
            let i = choose|i: ActionHash| registered(v0, v1, i);
            let k = choose|k: int| 0 <= k < v1.links.len() && v1.links[k] == l;
            if k < v0.links.len() {
                assert(v0.links[k] == l);
                assert(v0.links.contains(l));
                assert(list_all(v0).contains(l));
            } else {
                assert(l == next_link(v0, anchor(), i, LinkTypes::AllHealthRecords));
                assert(i != id);
            }
        } else {
            let i = choose|i: ActionHash| deleted(v0, v1, i);
            assert(v1.links.contains(l));
            assert(v0.links.contains(l));
            assert(list_all(v0).contains(l));
        }
    }
}

/// An update's new version has a hash that no link of the store touches and
/// that differs from the record's identity: every update edge points at a
/// newly created node, so the update graph never closes a cycle.
pub proof fn lemma_update_target_is_new(
    v0: StoreView,
    v1: StoreView,
    id: ActionHash,
    previous: ActionHash,
    entry: HealthRecord,
)
    requires
        v0.wf(),
        updated(v0, v1, id, previous, entry),
    ensures
        v0.fresh() != id,
        forall|l: Link| #[trigger] v0.links.contains(l) ==> l.base != v0.fresh() && l.target != v0.fresh(),
        update_link(v0, id).target == v0.fresh(),
{
    lemma_record_at_found(v0.records, id);
    let orig = v0.get(id)->Some_0;
    let k = choose|k: int| 0 <= k < v0.records.len() && v0.records[k] == orig;
    assert(v0.records[k].action_hash.value < v0.next_hash);
    assert forall|l: Link| #[trigger] v0.links.contains(l) implies l.base != v0.fresh() && l.target != v0.fresh() by {
        let j = choose|j: int| 0 <= j < v0.links.len() && v0.links[j] == l;
        assert(v0.links[j].target.value < v0.next_hash);
    }
}

} // verus!
