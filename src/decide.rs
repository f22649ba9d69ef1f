//! Decisions on values read from a store, shared by every store the
//! operations run on: which registry links a deletion removes, how a history
//! is put together, and what a write that cannot be read back signals.
use vstd::prelude::*;
use crate::types::{ActionHash, Link, ZomeError};

verus! {

/// The hashes of the links in `links` that point at `id`, in order.
pub open spec fn hashes_to_remove(links: Seq<Link>, id: ActionHash) -> Seq<ActionHash>
    decreases links.len(),
{
    if links.len() == 0 {
        Seq::empty()
    } else {
        let rest = hashes_to_remove(links.drop_last(), id);
        if links.last().target == id {
            rest.push(links.last().create_link_hash)
        } else {
            rest
        }
    }
}

/// The values of the `Some` entries of `s`, in order.
pub open spec fn somes<T>(s: Seq<Option<T>>) -> Seq<T>
    decreases s.len(),
{
    if s.len() == 0 {
        Seq::empty()
    } else {
        match s.last() {
            Some(x) => somes(s.drop_last()).push(x),
            None => somes(s.drop_last()),
        }
    }
}

pub proof fn lemma_hashes_to_remove_contains(links: Seq<Link>, id: ActionHash, x: ActionHash)
    ensures
        hashes_to_remove(links, id).contains(x) <==> exists|l: Link|
            #[trigger] links.contains(l) && l.target == id && l.create_link_hash == x,
    decreases links.len(),
{
    if links.len() > 0 {
        let p = links.drop_last();
        lemma_hashes_to_remove_contains(p, id, x);
        let rest = hashes_to_remove(p, id);
        let last = links.last();
        assert(links.contains(last));
        let w = if last.target == id { rest.push(last.create_link_hash) } else { rest };
        assert(hashes_to_remove(links, id) == w);
        assert(rest.contains(x) ==> w.contains(x)) by {
            if rest.contains(x) && last.target == id {
                let k = choose|k: int| 0 <= k < rest.len() && rest[k] == x;
                assert(w[k] == x);
            }
        }
        if exists|l: Link| #[trigger] p.contains(l) && l.target == id && l.create_link_hash == x {
            let l = choose|l: Link| #[trigger] p.contains(l) && l.target == id && l.create_link_hash == x;
            let k = choose|k: int| 0 <= k < p.len() && p[k] == l;
            assert(links[k] == l);
            assert(links.contains(l));
        }
        if exists|l: Link| #[trigger] links.contains(l) && l.target == id && l.create_link_hash == x {
            let l = choose|l: Link| #[trigger] links.contains(l) && l.target == id && l.create_link_hash == x;
            let k = choose|k: int| 0 <= k < links.len() && links[k] == l;
            if k < links.len() - 1 {
                assert(p[k] == l);
                assert(p.contains(l));
            } else {
                assert(w[w.len() - 1] == x);
                assert(w.contains(x));
            }
        }
        if w.contains(x) && !rest.contains(x) {
            let k = choose|k: int| 0 <= k < w.len() && w[k] == x;
            if k < rest.len() {
                assert(rest[k] == x);
            }
            assert(last.create_link_hash == x && last.target == id);
            assert(links.contains(last) && last.target == id && last.create_link_hash == x);
        }
    }
}

/// The hashes of the registry links in `links` that point at `id`: the links
/// that deleting `id` removes.
pub fn registry_links_to_remove(links: &Vec<Link>, id: ActionHash) -> (r: Vec<ActionHash>)
    ensures
        r@ == hashes_to_remove(links@, id),
{
    let mut out: Vec<ActionHash> = Vec::new();
    let mut i: usize = 0;
    while i < links.len()
        invariant
            0 <= i <= links@.len(),
            out@ == hashes_to_remove(links@.subrange(0, i as int), id),
        decreases links@.len() - i,
    {
        assert(links@.subrange(0, i + 1).drop_last() =~= links@.subrange(0, i as int));
        if links[i].target == id {
            out.push(links[i].create_link_hash);
        }
        i = i + 1;
    }
    assert(links@.subrange(0, links@.len() as int) =~= links@);
    out
}

/// A history: the original first, then every version that could be fetched,
/// in order; versions that could not be fetched are left out.
pub fn assemble_history<T>(original: T, fetched: Vec<Option<T>>) -> (r: Vec<T>)
    ensures
        r@ == seq![original] + somes(fetched@),
{
    let ghost all = fetched@;
    let n = fetched.len();
    let mut rest = fetched;
    let mut out: Vec<T> = Vec::new();
    out.push(original);
    let mut k: usize = 0;
    while rest.len() > 0
        invariant
            k <= all.len(),
            all.len() == n,
            rest@ == all.subrange(k as int, all.len() as int),
            out@ == seq![original] + somes(all.subrange(0, k as int)),
        decreases rest@.len(),
    {
        assert(all.subrange(0, k + 1).drop_last() =~= all.subrange(0, k as int));
        let x = rest.remove(0);
        assert(rest@ =~= all.subrange(k + 1, all.len() as int));
        if let Some(v) = x {
            out.push(v);
            assert(out@ =~= seq![original] + somes(all.subrange(0, k + 1)));
        }
        k = k + 1;
    }
    assert(all.subrange(0, all.len() as int) =~= all);
    out
}

/// What was read back after a write: the value where it was found, else the
/// error `missing`.
pub fn require_found<T>(found: Option<T>, missing: ZomeError) -> (r: Result<T, ZomeError>)
    ensures
        found matches Some(x) ==> r == Ok::<T, ZomeError>(x),
        found is None ==> r == Err::<T, ZomeError>(missing),
{
    match found {
        Some(x) => Ok(x),
        None => Err(missing),
    }
}

} // verus!
