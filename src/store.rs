//! An in-memory content-addressed store: immutable records, a typed link
//! multigraph over their hashes, and tombstones.
//!
//! Every action (record, link, tombstone) receives a fresh hash from one
//! counter, and its timestamp is that counter's value, so timestamps grow with
//! every write.
use vstd::prelude::*;
use crate::types::{ActionHash, DeleteAction, DeleteMarker, HealthRecord, Link, LinkTypes, Record, ZomeError};

verus! {

/// The largest number of hashes the store hands out.
pub const MAX_HASH: u64 = 9223372036854775807;

/// The hash value of the registry anchor; no action ever receives it.
pub const ANCHOR_HASH_VALUE: u64 = 0;

/// The well-known node that the registry links every record from.
pub open spec fn anchor() -> ActionHash {
    ActionHash { value: ANCHOR_HASH_VALUE }
}

/// The first record in `records` stored under `h`.
pub open spec fn record_at(records: Seq<Record>, h: ActionHash) -> Option<Record>
    decreases records.len(),
{
    if records.len() == 0 {
        None
    } else if records[0].action_hash == h {
        Some(records[0])
    } else {
        record_at(records.drop_first(), h)
    }
}

/// The links of `links` with the given base and kind, in order.
pub open spec fn links_from(links: Seq<Link>, base: ActionHash, kind: LinkTypes) -> Seq<Link>
    decreases links.len(),
{
    if links.len() == 0 {
        Seq::empty()
    } else {
        let rest = links_from(links.drop_last(), base, kind);
        let l = links.last();
        if l.base == base && l.link_type == kind {
            rest.push(l)
        } else {
            rest
        }
    }
}

/// `links` without those whose hash is `h`.
pub open spec fn without_link(links: Seq<Link>, h: ActionHash) -> Seq<Link>
    decreases links.len(),
{
    if links.len() == 0 {
        Seq::empty()
    } else {
        let rest = without_link(links.drop_last(), h);
        if links.last().create_link_hash == h {
            rest
        } else {
            rest.push(links.last())
        }
    }
}

/// The tombstones of `deletes` that mark `h`, in order.
pub open spec fn markers_for(deletes: Seq<DeleteAction>, h: ActionHash) -> Seq<DeleteMarker>
    decreases deletes.len(),
{
    if deletes.len() == 0 {
        Seq::empty()
    } else {
        let rest = markers_for(deletes.drop_last(), h);
        if deletes.last().deletes_address == h {
            rest.push(deletes.last().marker)
        } else {
            rest
        }
    }
}

/// The hashes of `links` strictly increase.
pub open spec fn link_hashes_increase(links: Seq<Link>) -> bool {
    forall|i: int, j: int|
        0 <= i < j < links.len() ==> links[i].create_link_hash.value < links[j].create_link_hash.value
}

/// The abstract contents of a store.
pub struct StoreView {
    pub records: Seq<Record>,
    pub links: Seq<Link>,
    pub deletes: Seq<DeleteAction>,
    /// The hash, and timestamp, that the next action receives.
    pub next_hash: u64,
    /// The author of every action of this store.
    pub agent: u64,
}

impl StoreView {
    /// Every hash and timestamp in the store was issued before `next_hash`
    /// (a link's base may also be the anchor), and link hashes increase in
    /// storage order. So every new action's hash is new to the link graph.
    pub open spec fn wf(self) -> bool {
        &&& 1 <= self.next_hash <= MAX_HASH
        &&& forall|i: int|
            0 <= i < self.records.len() ==> #[trigger] self.records[i].action_hash.value
                < self.next_hash
        &&& forall|i: int|
            0 <= i < self.links.len() ==> {
                &&& (#[trigger] self.links[i]).create_link_hash.value < self.next_hash
                &&& self.links[i].target.value < self.next_hash
                &&& self.links[i].timestamp < self.next_hash
                &&& (self.links[i].base == anchor() || self.links[i].base.value < self.next_hash)
            }
        &&& link_hashes_increase(self.links)
    }

    /// There is a hash left for one more action.
    pub open spec fn can_write(self) -> bool {
        self.next_hash < MAX_HASH
    }

    /// The record stored under `h`.
    pub open spec fn get(self, h: ActionHash) -> Option<Record> {
        record_at(self.records, h)
    }

    /// The links with the given base and kind.
    pub open spec fn get_links(self, base: ActionHash, kind: LinkTypes) -> Seq<Link> {
        links_from(self.links, base, kind)
    }

    /// The hash that the next action receives.
    pub open spec fn fresh(self) -> ActionHash {
        ActionHash { value: self.next_hash }
    }
}

/// A record, link and tombstone store for one author.
pub struct Store {
    records: Vec<Record>,
    links: Vec<Link>,
    deletes: Vec<DeleteAction>,
    next_hash: u64,
    agent: u64,
}

impl View for Store {
    type V = StoreView;

    closed spec fn view(&self) -> StoreView {
        StoreView {
            records: self.records@,
            links: self.links@,
            deletes: self.deletes@,
            next_hash: self.next_hash,
            agent: self.agent,
        }
    }
}

/// A link from `base` to `target` joins hashes the store has issued, or the
/// anchor as base.
pub open spec fn known_endpoints(v: StoreView, base: ActionHash, target: ActionHash) -> bool {
    target.value < v.next_hash && (base == anchor() || base.value < v.next_hash)
}

/// The record that the next write of `entry` creates.
pub open spec fn next_record(v: StoreView, entry: HealthRecord, revises: Option<ActionHash>) -> Record {
    Record {
        action_hash: v.fresh(),
        author: v.agent,
        timestamp: v.next_hash as i64,
        revises,
        entry,
    }
}

/// The link that the next write of an edge creates.
pub open spec fn next_link(v: StoreView, base: ActionHash, target: ActionHash, kind: LinkTypes) -> Link {
    Link {
        create_link_hash: v.fresh(),
        base,
        target,
        link_type: kind,
        timestamp: v.next_hash as i64,
    }
}

/// The tombstone that the next deletion of `h` creates.
pub open spec fn next_delete(v: StoreView, h: ActionHash) -> DeleteAction {
    DeleteAction {
        marker: DeleteMarker { action_hash: v.fresh(), author: v.agent, timestamp: v.next_hash as i64 },
        deletes_address: h,
    }
}

pub proof fn lemma_record_at_append(s: Seq<Record>, t: Seq<Record>, h: ActionHash)
    ensures
        record_at(s + t, h) == (match record_at(s, h) {
            Some(r) => Some(r),
            None => record_at(t, h),
        }),
    decreases s.len(),
{
    if s.len() == 0 {
        assert(s + t =~= t);
    } else {
        assert((s + t).drop_first() =~= s.drop_first() + t);
        lemma_record_at_append(s.drop_first(), t, h);
    }
}

pub proof fn lemma_record_at_absent(s: Seq<Record>, h: ActionHash)
    requires
        forall|i: int| 0 <= i < s.len() ==> (#[trigger] s[i]).action_hash != h,
    ensures
        record_at(s, h) is None,
    decreases s.len(),
{
    if s.len() > 0 {
        assert forall|i: int| 0 <= i < s.drop_first().len() implies (#[trigger] s.drop_first()[i]).action_hash
            != h by {
            assert(s.drop_first()[i] == s[i + 1]);
        }
        lemma_record_at_absent(s.drop_first(), h);
    }
}

pub proof fn lemma_record_at_found(s: Seq<Record>, h: ActionHash)
    ensures
        record_at(s, h) matches Some(r) ==> r.action_hash == h && s.contains(r),
    decreases s.len(),
{
    if s.len() > 0 && s[0].action_hash != h {
        lemma_record_at_found(s.drop_first(), h);
        if let Some(r) = record_at(s, h) {
            let k = choose|k: int| 0 <= k < s.drop_first().len() && s.drop_first()[k] == r;
            assert(s[k + 1] == r);
        }
    } else if s.len() > 0 {
        assert(s[0] == s[0]);
        assert(s.contains(s[0]));
    }
}

/// A record that is added under a fresh hash is found under it, and nothing
/// else that was found before changes.
pub proof fn lemma_record_at_push(s: Seq<Record>, r: Record, h: ActionHash)
    requires
        forall|i: int| 0 <= i < s.len() ==> #[trigger] s[i].action_hash.value < r.action_hash.value,
    ensures
        record_at(s.push(r), h) == (if h == r.action_hash { Some(r) } else { record_at(s, h) }),
{
    lemma_record_at_append(s, seq![r], h);
    assert(s + seq![r] =~= s.push(r));
    assert(seq![r].drop_first() =~= Seq::<Record>::empty());
    if h == r.action_hash {
        assert forall|i: int| 0 <= i < s.len() implies (#[trigger] s[i]).action_hash != h by {
            assert(s[i].action_hash.value < r.action_hash.value);
        }
        lemma_record_at_absent(s, h);
    } else if record_at(s, h) is None {
        assert(record_at(seq![r], h) == record_at(Seq::<Record>::empty(), h));
    }
}

pub proof fn lemma_links_from_contains(s: Seq<Link>, base: ActionHash, kind: LinkTypes, l: Link)
    ensures
        links_from(s, base, kind).contains(l) <==> (s.contains(l) && l.base == base && l.link_type
            == kind),
    decreases s.len(),
{
    if s.len() > 0 {
        let p = s.drop_last();
        lemma_links_from_contains(p, base, kind, l);
        assert(s =~= p.push(s.last()));
        if s.contains(l) && l != s.last() {
            let k = choose|k: int| 0 <= k < s.len() && s[k] == l;
            assert(p[k] == l);
        }
        if p.contains(l) {
            let k = choose|k: int| 0 <= k < p.len() && p[k] == l;
            assert(s[k] == l);
        }
        let rest = links_from(p, base, kind);
        assert(rest.push(s.last()).last() == s.last());
        if rest.push(s.last()).contains(l) && l != s.last() {
            let k = choose|k: int| 0 <= k < rest.len() + 1 && rest.push(s.last())[k] == l;
            assert(rest[k] == l);
        }
        if rest.contains(l) {
            let k = choose|k: int| 0 <= k < rest.len() && rest[k] == l;
            assert(rest.push(s.last())[k] == l);
        }
    }
}

pub proof fn lemma_without_link_contains(s: Seq<Link>, h: ActionHash, l: Link)
    ensures
        without_link(s, h).contains(l) <==> (s.contains(l) && l.create_link_hash != h),
    decreases s.len(),
{
    if s.len() > 0 {
        let p = s.drop_last();
        lemma_without_link_contains(p, h, l);
        assert(s =~= p.push(s.last()));
        if s.contains(l) && l != s.last() {
            let k = choose|k: int| 0 <= k < s.len() && s[k] == l;
            assert(p[k] == l);
        }
        if p.contains(l) {
            let k = choose|k: int| 0 <= k < p.len() && p[k] == l;
            assert(s[k] == l);
        }
        let rest = without_link(p, h);
        assert(rest.push(s.last()).last() == s.last());
        if rest.push(s.last()).contains(l) && l != s.last() {
            let k = choose|k: int| 0 <= k < rest.len() + 1 && rest.push(s.last())[k] == l;
            assert(rest[k] == l);
        }
        if rest.contains(l) {
            let k = choose|k: int| 0 <= k < rest.len() && rest[k] == l;
            assert(rest.push(s.last())[k] == l);
        }
    }
}

pub proof fn lemma_without_link_increasing(s: Seq<Link>, h: ActionHash)
    requires
        link_hashes_increase(s),
    ensures
        link_hashes_increase(without_link(s, h)),
    decreases s.len(),
{
    if s.len() > 0 {
        let p = s.drop_last();
        lemma_without_link_increasing(p, h);
        let rest = without_link(p, h);
        if s.last().create_link_hash != h {
            let w = rest.push(s.last());
            assert forall|i: int, j: int| 0 <= i < j < w.len() implies w[i].create_link_hash.value
                < w[j].create_link_hash.value by {
                if j == w.len() - 1 {
                    assert(rest.contains(w[i]));
                    lemma_without_link_contains(p, h, w[i]);
                    let k = choose|k: int| 0 <= k < p.len() && p[k] == w[i];
                    assert(s[k] == w[i]);
                }
            }
        }
    }
}

/// Removing a link whose hash no link of the given base and kind carries
/// leaves the links of that base and kind as they were.
pub proof fn lemma_links_from_without(s: Seq<Link>, base: ActionHash, kind: LinkTypes, h: ActionHash)
    requires
        forall|i: int|
            0 <= i < s.len() && (#[trigger] s[i]).base == base && s[i].link_type == kind
                ==> s[i].create_link_hash != h,
    ensures
        links_from(without_link(s, h), base, kind) == links_from(s, base, kind),
    decreases s.len(),
{
    if s.len() > 0 {
        let p = s.drop_last();
        assert forall|i: int|
            0 <= i < p.len() && (#[trigger] p[i]).base == base && p[i].link_type == kind
                implies p[i].create_link_hash != h by {
            assert(s[i] == p[i]);
        }
        lemma_links_from_without(p, base, kind, h);
        let rest = without_link(p, h);
        if s.last().create_link_hash != h {
            assert(rest.push(s.last()).drop_last() =~= rest);
        }
    }
}

impl Store {
    /// An empty store whose actions are authored by `agent`.
    pub fn new(agent: u64) -> (r: Store)
        ensures
            r@.wf(),
            r@ == (StoreView {
                records: Seq::empty(),
                links: Seq::empty(),
                deletes: Seq::empty(),
                next_hash: 1,
                agent,
            }),
    {
        Store { records: Vec::new(), links: Vec::new(), deletes: Vec::new(), next_hash: 1, agent }
    }

    /// The author of this store's actions.
    pub fn agent(&self) -> (r: u64)
        ensures
            r == self@.agent,
    {
        self.agent
    }

    fn put(&mut self, entry: HealthRecord, revises: Option<ActionHash>) -> (r: Result<ActionHash, ZomeError>)
        requires
            old(self)@.wf(),
        ensures
            final(self)@.wf(),
            old(self)@.can_write() ==> r == Ok::<ActionHash, ZomeError>(old(self)@.fresh())
                && final(self)@ == (StoreView {
                records: old(self)@.records.push(next_record(old(self)@, entry, revises)),
                next_hash: (old(self)@.next_hash + 1) as u64,
                ..old(self)@
            }),
            !old(self)@.can_write() ==> r == Err::<ActionHash, ZomeError>(ZomeError::StoreUnavailable)
                && final(self)@ == old(self)@,
    {
        if self.next_hash >= MAX_HASH {
            return Err(ZomeError::StoreUnavailable);
        }
        let h = ActionHash { value: self.next_hash };
        let rec = Record {
            action_hash: h,
            author: self.agent,
            timestamp: self.next_hash as i64,
            revises,
            entry,
        };
        self.records.push(rec);
        self.next_hash = self.next_hash + 1;
        Ok(h)
    }

    /// How many hashes are left to hand out.
    pub fn free_hashes(&self) -> (r: u64)
        requires
            self@.wf(),
        ensures
            r == MAX_HASH - self@.next_hash,
    {
        MAX_HASH - self.next_hash
    }

    /// Stores `entry` as the first version of a new record.
    pub fn create_entry(&mut self, entry: HealthRecord) -> (r: Result<ActionHash, ZomeError>)
        requires
            old(self)@.wf(),
        ensures
            final(self)@.wf(),
            old(self)@.can_write() ==> r == Ok::<ActionHash, ZomeError>(old(self)@.fresh())
                && final(self)@ == (StoreView {
                records: old(self)@.records.push(next_record(old(self)@, entry, None)),
                next_hash: (old(self)@.next_hash + 1) as u64,
                ..old(self)@
            }),
            !old(self)@.can_write() ==> r == Err::<ActionHash, ZomeError>(ZomeError::StoreUnavailable)
                && final(self)@ == old(self)@,
    {
        self.put(entry, None)
    }

    /// Stores `entry` as a new version that supersedes `previous`.
    pub fn update_entry(&mut self, previous: ActionHash, entry: HealthRecord) -> (r: Result<ActionHash, ZomeError>)
        requires
            old(self)@.wf(),
        ensures
            final(self)@.wf(),
            old(self)@.can_write() ==> r == Ok::<ActionHash, ZomeError>(old(self)@.fresh())
                && final(self)@ == (StoreView {
                records: old(self)@.records.push(next_record(old(self)@, entry, Some(previous))),
                next_hash: (old(self)@.next_hash + 1) as u64,
                ..old(self)@
            }),
            !old(self)@.can_write() ==> r == Err::<ActionHash, ZomeError>(ZomeError::StoreUnavailable)
                && final(self)@ == old(self)@,
    {
        self.put(entry, Some(previous))
    }

    /// The record stored under `h`, if any.
    pub fn get(&self, h: ActionHash) -> (r: Option<Record>)
        ensures
            r == self@.get(h),
    {
        let n = self.records.len();
        let mut i: usize = 0;
        assert(self.records@.subrange(0, n as int) =~= self.records@);
        while i < n
            invariant
                n == self.records@.len(),
                0 <= i <= n,
                record_at(self.records@, h) == record_at(self.records@.subrange(i as int, n as int), h),
            decreases n - i,
        {
            assert(self.records@.subrange(i as int, n as int).drop_first() =~= self.records@.subrange(
                i + 1,
                n as int,
            ));
            if self.records[i].action_hash == h {
                return Some(self.records[i].duplicate());
            }
            i = i + 1;
        }
        None
    }

    /// Adds a link of the given kind from `base` to `target`. The target must
    /// be a hash that the store has issued, and the base too unless it is the
    /// registry anchor.
    pub fn create_link(&mut self, base: ActionHash, target: ActionHash, kind: LinkTypes) -> (r: Result<ActionHash, ZomeError>)
        requires
            old(self)@.wf(),
        ensures
            final(self)@.wf(),
            !old(self)@.can_write() ==> r == Err::<ActionHash, ZomeError>(ZomeError::StoreUnavailable),
            old(self)@.can_write() && !known_endpoints(old(self)@, base, target) ==> r is Err && r->Err_0 is NotFound,
            r is Err ==> final(self)@ == old(self)@,
            old(self)@.can_write() && known_endpoints(old(self)@, base, target) ==> r == Ok::<ActionHash, ZomeError>(old(self)@.fresh())
                && final(self)@ == (StoreView {
                links: old(self)@.links.push(next_link(old(self)@, base, target, kind)),
                next_hash: (old(self)@.next_hash + 1) as u64,
                ..old(self)@
            }),
    {
        if self.next_hash >= MAX_HASH {
            return Err(ZomeError::StoreUnavailable);
        }
        if target.value >= self.next_hash {
            return Err(ZomeError::NotFound(String::from_str("link target is not a known action")));
        }
        if base.value != ANCHOR_HASH_VALUE && base.value >= self.next_hash {
            return Err(ZomeError::NotFound(String::from_str("link base is not a known action")));
        }
        let h = ActionHash { value: self.next_hash };
        let l = Link { create_link_hash: h, base, target, link_type: kind, timestamp: self.next_hash as i64 };
        self.links.push(l);
        self.next_hash = self.next_hash + 1;
        Ok(h)
    }

    /// The links of the given kind from `base`, in the order they were made.
    pub fn get_links(&self, base: ActionHash, kind: LinkTypes) -> (r: Vec<Link>)
        ensures
            r@ == self@.get_links(base, kind),
    {
        let mut out: Vec<Link> = Vec::new();
        let mut i: usize = 0;
        while i < self.links.len()
            invariant
                0 <= i <= self.links@.len(),
                out@ == links_from(self.links@.subrange(0, i as int), base, kind),
            decreases self.links@.len() - i,
        {
            assert(self.links@.subrange(0, i + 1).drop_last() =~= self.links@.subrange(0, i as int));
            let l = self.links[i];
            if l.base == base && l.link_type == kind {
                out.push(l);
            }
            i = i + 1;
        }
        assert(self.links@.subrange(0, self.links@.len() as int) =~= self.links@);
        out
    }

    /// Removes the link whose hash is `h`.
    pub fn delete_link(&mut self, h: ActionHash)
        requires
            old(self)@.wf(),
        ensures
            final(self)@.wf(),
            final(self)@ == (StoreView { links: without_link(old(self)@.links, h), ..old(self)@ }),
    {
        let mut kept: Vec<Link> = Vec::new();
        let mut i: usize = 0;
        while i < self.links.len()
            invariant
                0 <= i <= self.links@.len(),
                kept@ == without_link(self.links@.subrange(0, i as int), h),
            decreases self.links@.len() - i,
        {
            assert(self.links@.subrange(0, i + 1).drop_last() =~= self.links@.subrange(0, i as int));
            let l = self.links[i];
            if l.create_link_hash != h {
                kept.push(l);
            }
            i = i + 1;
        }
        assert(self.links@.subrange(0, self.links@.len() as int) =~= self.links@);
        proof {
            let old_links = self.links@;
            lemma_without_link_increasing(old_links, h);
            assert forall|i: int| 0 <= i < kept@.len() implies {
                &&& (#[trigger] kept@[i]).create_link_hash.value < self.next_hash
                &&& kept@[i].target.value < self.next_hash
                &&& kept@[i].timestamp < self.next_hash
                &&& (kept@[i].base == anchor() || kept@[i].base.value < self.next_hash)
            } by {
                assert(kept@.contains(kept@[i]));
                lemma_without_link_contains(old_links, h, kept@[i]);
                let k = choose|k: int| 0 <= k < old_links.len() && old_links[k] == kept@[i];
                assert(old_links[k] == kept@[i]);
            }
        }
        self.links = kept;
    }

    /// Attaches a tombstone to the record stored under `h`.
    pub fn delete_entry(&mut self, h: ActionHash) -> (r: Result<ActionHash, ZomeError>)
        requires
            old(self)@.wf(),
        ensures
            final(self)@.wf(),
            !old(self)@.can_write() ==> r == Err::<ActionHash, ZomeError>(ZomeError::StoreUnavailable),
            old(self)@.can_write() && old(self)@.get(h) is None ==> r is Err && r->Err_0 is NotFound,
            r is Err ==> final(self)@ == old(self)@,
            old(self)@.can_write() && old(self)@.get(h) is Some ==> r == Ok::<ActionHash, ZomeError>(old(self)@.fresh())
                && final(self)@ == (StoreView {
                deletes: old(self)@.deletes.push(next_delete(old(self)@, h)),
                next_hash: (old(self)@.next_hash + 1) as u64,
                ..old(self)@
            }),
    {
        if self.next_hash >= MAX_HASH {
            return Err(ZomeError::StoreUnavailable);
        }
        if self.get(h).is_none() {
            return Err(ZomeError::NotFound(String::from_str("no record to delete")));
        }
        let d = ActionHash { value: self.next_hash };
        let marker = DeleteMarker { action_hash: d, author: self.agent, timestamp: self.next_hash as i64 };
        self.deletes.push(DeleteAction { marker, deletes_address: h });
        self.next_hash = self.next_hash + 1;
        Ok(d)
    }

    /// The tombstones attached to `h`, in the order they were made.
    pub fn get_deletes(&self, h: ActionHash) -> (r: Vec<DeleteMarker>)
        ensures
            r@ == markers_for(self@.deletes, h),
    {
        let mut out: Vec<DeleteMarker> = Vec::new();
        let mut i: usize = 0;
        while i < self.deletes.len()
            invariant
                0 <= i <= self.deletes@.len(),
                out@ == markers_for(self.deletes@.subrange(0, i as int), h),
            decreases self.deletes@.len() - i,
        {
            assert(self.deletes@.subrange(0, i + 1).drop_last() =~= self.deletes@.subrange(0, i as int));
            let d = self.deletes[i];
            if d.deletes_address == h {
                out.push(d.marker);
            }
            i = i + 1;
        }
        assert(self.deletes@.subrange(0, self.deletes@.len() as int) =~= self.deletes@);
        out
    }
}

/// The hash of the registry anchor.
pub fn all_health_records_anchor() -> (r: ActionHash)
    ensures
        r == anchor(),
{
    ActionHash { value: ANCHOR_HASH_VALUE }
}

} // verus!
