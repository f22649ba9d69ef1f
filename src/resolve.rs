//! Deterministic choices over link and tombstone sets.
//!
//! Each choice is a pure function of the set it is given, so two replicas that
//! see the same set agree on the answer.
use vstd::prelude::*;
use crate::types::{ActionHash, DeleteMarker, Link};

verus! {

/// `m` ranks no higher than `l` as a candidate for the latest link: it is
/// older, or as old and points at a target with a larger hash.
pub open spec fn ranks_below_or_eq(m: Link, l: Link) -> bool {
    m.timestamp < l.timestamp || (m.timestamp == l.timestamp && l.target.value <= m.target.value)
}

/// `l` is among `links` and ranks at least as high as every one of them.
pub open spec fn is_latest_link(links: Seq<Link>, l: Link) -> bool {
    links.contains(l) && forall|m: Link| links.contains(m) ==> ranks_below_or_eq(m, l)
}

/// The target of the latest link, or `original` where there is no link.
pub open spec fn latest_target_spec(links: Seq<Link>, original: ActionHash) -> ActionHash {
    if exists|l: Link| is_latest_link(links, l) {
        (choose|l: Link| is_latest_link(links, l)).target
    } else {
        original
    }
}

/// `a` precedes or equals `b`: by timestamp, then author, then hash.
pub open spec fn marker_precedes_or_eq(a: DeleteMarker, b: DeleteMarker) -> bool {
    a.timestamp < b.timestamp || (a.timestamp == b.timestamp && (a.author < b.author || (
    a.author == b.author && a.action_hash.value <= b.action_hash.value)))
}

/// `m` is among `markers` and precedes or equals every one of them.
pub open spec fn is_oldest_marker(markers: Seq<DeleteMarker>, m: DeleteMarker) -> bool {
    markers.contains(m) && forall|x: DeleteMarker| markers.contains(x) ==> marker_precedes_or_eq(m, x)
}

/// The oldest tombstone, or `None` where there is none.
pub open spec fn oldest_marker_spec(markers: Seq<DeleteMarker>) -> Option<DeleteMarker> {
    if exists|m: DeleteMarker| is_oldest_marker(markers, m) {
        Some(choose|m: DeleteMarker| is_oldest_marker(markers, m))
    } else {
        None
    }
}

proof fn lemma_latest_links_share_target(links: Seq<Link>, a: Link, b: Link)
    requires
        is_latest_link(links, a),
        is_latest_link(links, b),
    ensures
        a.target == b.target,
{
    assert(ranks_below_or_eq(a, b));
    assert(ranks_below_or_eq(b, a));
}

proof fn lemma_oldest_markers_equal(markers: Seq<DeleteMarker>, a: DeleteMarker, b: DeleteMarker)
    requires
        is_oldest_marker(markers, a),
        is_oldest_marker(markers, b),
    ensures
        a == b,
{
    assert(marker_precedes_or_eq(a, b));
    assert(marker_precedes_or_eq(b, a));
}

/// The target of the link with the latest timestamp; among equally recent
/// links, the smallest target hash. Without links, `original`.
pub fn latest_target(links: &Vec<Link>, original: ActionHash) -> (r: ActionHash)
    ensures
        r == latest_target_spec(links@, original),
        links@.len() == 0 ==> r == original,
{
    if links.len() == 0 {
        return original;
    }
    let mut best: usize = 0;
    let mut i: usize = 1;
    while i < links.len()
        invariant
            0 < i <= links@.len(),
            best < i,
            forall|k: int| 0 <= k < i ==> ranks_below_or_eq(#[trigger] links@[k], links@[best as int]),
        decreases links@.len() - i,
    {
        let c = links[i];
        let b = links[best];
        if c.timestamp > b.timestamp || (c.timestamp == b.timestamp && c.target.value < b.target.value) {
            best = i;
        }
        i = i + 1;
    }
    proof {
        let l = links@[best as int];
        assert(links@.contains(l));
        assert forall|m: Link| links@.contains(m) implies ranks_below_or_eq(m, l) by {
            let k = choose|k: int| 0 <= k < links@.len() && links@[k] == m;
            assert(ranks_below_or_eq(links@[k], l));
        }
        assert(is_latest_link(links@, l));
        let c = choose|x: Link| is_latest_link(links@, x);
        lemma_latest_links_share_target(links@, l, c);
    }
    links[best].target
}

/// The tombstone with the smallest timestamp; ties go to the smallest author,
/// then the smallest hash. `None` where there is no tombstone.
pub fn oldest_marker(markers: &Vec<DeleteMarker>) -> (r: Option<DeleteMarker>)
    ensures
        r == oldest_marker_spec(markers@),
        r is None <==> markers@.len() == 0,
{
    if markers.len() == 0 {
        proof {
            assert(!exists|m: DeleteMarker| is_oldest_marker(markers@, m));
        }
        return None;
    }
    let mut best: usize = 0;
    let mut i: usize = 1;
    while i < markers.len()
        invariant
            0 < i <= markers@.len(),
            best < i,
            forall|k: int| 0 <= k < i ==> marker_precedes_or_eq(markers@[best as int], #[trigger] markers@[k]),
        decreases markers@.len() - i,
    {
        let c = markers[i];
        let b = markers[best];
        if c.timestamp < b.timestamp || (c.timestamp == b.timestamp && (c.author < b.author || (
        c.author == b.author && c.action_hash.value < b.action_hash.value))) {
            best = i;
        }
        i = i + 1;
    }
    proof {
        let m = markers@[best as int];
        assert(markers@.contains(m));
        assert forall|x: DeleteMarker| markers@.contains(x) implies marker_precedes_or_eq(m, x) by {
            let k = choose|k: int| 0 <= k < markers@.len() && markers@[k] == x;
            assert(marker_precedes_or_eq(m, markers@[k]));
        }
        assert(is_oldest_marker(markers@, m));
        let c = choose|x: DeleteMarker| is_oldest_marker(markers@, x);
        lemma_oldest_markers_equal(markers@, m, c);
    }
    Some(markers[best])
}

/// Two replicas that see the same set of update links, in whatever order and
/// with whatever repetition, resolve the same latest target.
pub proof fn lemma_latest_target_converges(a: Seq<Link>, b: Seq<Link>, original: ActionHash)
    requires
        a.to_set() == b.to_set(),
    ensures
        latest_target_spec(a, original) == latest_target_spec(b, original),
{
    assert forall|l: Link| a.contains(l) == b.contains(l) by {
        assert(a.to_set().contains(l) == a.contains(l));
        assert(b.to_set().contains(l) == b.contains(l));
    }
    assert forall|l: Link| is_latest_link(a, l) == is_latest_link(b, l) by {}
    if exists|l: Link| is_latest_link(a, l) {
        let x = choose|l: Link| is_latest_link(a, l);
        let y = choose|l: Link| is_latest_link(b, l);
        lemma_latest_links_share_target(a, x, y);
    }
}

/// Two replicas that see the same set of tombstones, in whatever order and
/// with whatever repetition, pick the same oldest one.
pub proof fn lemma_oldest_marker_converges(a: Seq<DeleteMarker>, b: Seq<DeleteMarker>)
    requires
        a.to_set() == b.to_set(),
    ensures
        oldest_marker_spec(a) == oldest_marker_spec(b),
{
    assert forall|m: DeleteMarker| a.contains(m) == b.contains(m) by {
        assert(a.to_set().contains(m) == a.contains(m));
        assert(b.to_set().contains(m) == b.contains(m));
    }
    assert forall|m: DeleteMarker| is_oldest_marker(a, m) == is_oldest_marker(b, m) by {}
    if exists|m: DeleteMarker| is_oldest_marker(a, m) {
        let x = choose|m: DeleteMarker| is_oldest_marker(a, m);
        let y = choose|m: DeleteMarker| is_oldest_marker(b, m);
        lemma_oldest_markers_equal(a, x, y);
    }
}

} // verus!
