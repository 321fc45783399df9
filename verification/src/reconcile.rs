//! Reconciling local claim state with the live pending set.
//!
//! Pure derivations over already-fetched values: the run ids that are
//! still pending upstream, and the stored booking ids that have gone
//! stale (their run left the live set) and are due for garbage
//! collection by the booking store.

use vstd::prelude::*;

use crate::PendingRun;
use crate::store::id_set;

verus! {

/// The views of a list of id strings, in order.
pub open spec fn views_of(ids: Seq<String>) -> Seq<Seq<char>> {
    ids.map_values(|s: String| s@)
}

/// The stale ids among `stored`: those naming no live run, in stored
/// order.
pub open spec fn spec_stale_ids(stored: Seq<Seq<char>>, live: Set<Seq<char>>) -> Seq<Seq<char>> {
    stored.filter(|k: Seq<char>| !live.contains(k))
}

/// The stored booking ids whose run has left the live pending set: the
/// set difference `stored - live`, in stored order.  These are exactly
/// the claims that `BookingStore::cleanup` deletes.
pub fn compute_stale_ids(stored: &Vec<String>, live: &Vec<String>) -> (r: Vec<String>)
    ensures
        views_of(r@) == spec_stale_ids(views_of(stored@), id_set(live@)),
{
    let ghost lset = id_set(live@);
    let mut r: Vec<String> = Vec::new();
    let mut i: usize = 0;
    while i < stored.len()
        invariant
            i <= stored@.len(),
            lset == id_set(live@),
            views_of(r@) == spec_stale_ids(views_of(stored@).subrange(0, i as int), lset),
        decreases stored@.len() - i,
    {
        let ghost r_before = r@;
        let live_here = crate::store::contains_str(live, &stored[i]);
        if !live_here {
            r.push(stored[i].clone());
        }
        proof {
            reveal(Seq::filter);
            let pre1 = views_of(stored@).subrange(0, i + 1);
            let pre0 = views_of(stored@).subrange(0, i as int);
            assert(pre1.drop_last() =~= pre0);
            assert(pre1.last() == stored@[i as int]@);
            if !live_here {
                assert(views_of(r@) =~= views_of(r_before).push(stored@[i as int]@));
            }
        }
        i += 1;
    }
    proof {
        assert(views_of(stored@).subrange(0, stored@.len() as int) =~= views_of(stored@));
    }
    r
}

/// The set of run ids of a list of runs.
pub open spec fn run_id_set(runs: Seq<PendingRun>) -> Set<Seq<char>> {
    Set::new(|k: Seq<char>| exists|i: int| 0 <= i < runs.len() && runs[i].id@ == k)
}

/// The runs among `stored` that are still pending: those whose id is in
/// `live`, in stored order.
pub open spec fn spec_still_pending(stored: Seq<PendingRun>, live: Set<Seq<char>>) -> Seq<
    PendingRun,
> {
    stored.filter(|p: PendingRun| live.contains(p.id@))
}

/// True when some run in `runs` carries the id `id`.
fn contains_run_id(runs: &Vec<PendingRun>, id: &String) -> (r: bool)
    ensures
        r == run_id_set(runs@).contains(id@),
{
    let mut i: usize = 0;
    while i < runs.len()
        invariant
            i <= runs@.len(),
            forall|j: int| 0 <= j < i ==> (#[trigger] runs@[j].id@) != id@,
        decreases runs@.len() - i,
    {
        if runs[i].id == *id {
            proof {
                assert(runs@[i as int].id@ == id@);
            }
            return true;
        }
        i += 1;
    }
    proof {
        if run_id_set(runs@).contains(id@) {
            let j = choose|j: int| 0 <= j < runs@.len() && runs@[j].id@ == id@;
            assert(runs@[j].id@ != id@);
        }
    }
    false
}

/// Keep only the stored runs that are still pending upstream: a cached
/// copy must not serve runs that have left the live set.  Order is kept.
#[verifier::loop_isolation(false)]
pub fn filter_still_pending(stored: Vec<PendingRun>, live: &Vec<PendingRun>) -> (r: Vec<PendingRun>)
    ensures
        r@ == spec_still_pending(stored@, run_id_set(live@)),
{
    let ghost orig = stored@;
    let ghost lset = run_id_set(live@);
    let mut remaining = stored;
    let mut out: Vec<PendingRun> = Vec::new();
    let ghost mut done: int = 0;
    while remaining.len() > 0
        invariant
            0 <= done <= orig.len(),
            remaining@ == orig.subrange(done, orig.len() as int),
            out@ == spec_still_pending(orig.subrange(0, done), lset),
        decreases remaining@.len(),
    {
        let run = remaining.remove(0);
        proof {
            assert(remaining@ =~= orig.subrange(done + 1, orig.len() as int));
            assert(orig.subrange(done, orig.len() as int)[0] == orig[done]);
        }
        let keep = contains_run_id(live, &run.id);
        if keep {
            out.push(run);
        }
        proof {
            reveal(Seq::filter);
            let pre1 = orig.subrange(0, done + 1);
            assert(pre1.drop_last() =~= orig.subrange(0, done));
            assert(pre1.last() == orig[done]);
            done = done + 1;
        }
    }
    proof {
        assert(orig.subrange(0, orig.len() as int) =~= orig);
    }
    out
}

/// The run ids of every live pending run, across all leaderboards.
pub fn collect_live_ids(pending: &Vec<(String, Vec<PendingRun>)>) -> (r: Vec<String>)
    ensures
        forall|k: Seq<char>|
            id_set(r@).contains(k) <==> exists|g: int, i: int|
                0 <= g < pending@.len() && 0 <= i < pending@[g].1@.len() && (#[trigger] pending@[g].1@[i])@.id == k,
{
    let mut r: Vec<String> = Vec::new();
    let ghost mut srcs: Seq<(int, int)> = Seq::empty();
    let mut g: usize = 0;
    while g < pending.len()
        invariant
            g <= pending@.len(),
            srcs.len() == r@.len(),
            forall|a: int|
                0 <= a < r@.len() ==> {
                    let p = #[trigger] srcs[a];
                    0 <= p.0 < g && 0 <= p.1 < pending@[p.0].1@.len() && r@[a]@
                        == pending@[p.0].1@[p.1]@.id
                },
            forall|g2: int, i2: int|
                0 <= g2 < g && 0 <= i2 < pending@[g2].1@.len() ==> id_set(r@).contains(
                    (#[trigger] pending@[g2].1@[i2])@.id,
                ),
        decreases pending@.len() - g,
    {
        let runs = &pending[g].1;
        let mut i: usize = 0;
        while i < runs.len()
            invariant
                g < pending@.len(),
                runs@ == pending@[g as int].1@,
                i <= runs@.len(),
                srcs.len() == r@.len(),
                forall|a: int|
                    0 <= a < r@.len() ==> {
                        let p = #[trigger] srcs[a];
                        0 <= p.0 <= g && (p.0 < g || p.1 < i) && 0 <= p.1 < pending@[p.0].1@.len()
                            && r@[a]@ == pending@[p.0].1@[p.1]@.id
                    },
                forall|g2: int, i2: int|
                    0 <= g2 < g && 0 <= i2 < pending@[g2].1@.len() ==> id_set(r@).contains(
                        (#[trigger] pending@[g2].1@[i2])@.id,
                    ),
                forall|i2: int|
                    0 <= i2 < i ==> id_set(r@).contains((#[trigger] runs@[i2])@.id),
            decreases runs@.len() - i,
        {
            let ghost r_before = r@;
            r.push(runs[i].id.clone());
            proof {
                srcs = srcs.push((g as int, i as int));
                assert(r@.last()@ == runs@[i as int]@.id);
                assert forall|a: int| 0 <= a < r@.len() implies {
                    let p = #[trigger] srcs[a];
                    0 <= p.0 <= g && (p.0 < g || p.1 < i + 1) && 0 <= p.1 < pending@[p.0].1@.len()
                        && r@[a]@ == pending@[p.0].1@[p.1]@.id
                } by {
                    if a < r@.len() - 1 {
                        assert(r@[a] == r_before[a]);
                    } else {
                        assert(srcs[a] == (g as int, i as int));
                    }
                }
                assert forall|k: Seq<char>|
                    id_set(r_before).contains(k) implies id_set(r@).contains(k) by {
                    let j = choose|j: int| 0 <= j < r_before.len() && r_before[j]@ == k;
                    assert(r@[j]@ == k);
                }
                assert(id_set(r@).contains(runs@[i as int]@.id)) by {
                    assert(r@[r@.len() - 1]@ == runs@[i as int]@.id);
                }
            }
            i += 1;
        }
        g += 1;
    }
    proof {
        assert forall|k: Seq<char>| id_set(r@).contains(k) implies exists|g2: int, i2: int|
            0 <= g2 < pending@.len() && 0 <= i2 < pending@[g2].1@.len()
                && (#[trigger] pending@[g2].1@[i2])@.id == k by {
            let a = choose|a: int| 0 <= a < r@.len() && r@[a]@ == k;
            let p = srcs[a];
            assert(0 <= p.0 < pending@.len() && 0 <= p.1 < pending@[p.0].1@.len()
                && pending@[p.0].1@[p.1]@.id == k);
        }
    }
    r
}

/// What `compute_stale_ids` hands to cleanup is exactly the set
/// difference: no stale id names a live run, every stored id that was not
/// declared stale does name a live run, and every stored id naming no
/// live run is declared stale.
pub proof fn lemma_stale_ids_sound(stored: Seq<Seq<char>>, live: Set<Seq<char>>)
    ensures
        forall|k: Seq<char>| spec_stale_ids(stored, live).contains(k) ==> !live.contains(k),
        forall|k: Seq<char>|
            stored.contains(k) && !spec_stale_ids(stored, live).contains(k) ==> live.contains(k),
        forall|k: Seq<char>|
            stored.contains(k) && !live.contains(k) ==> spec_stale_ids(stored, live).contains(k),
{
    let pred = |k: Seq<char>| !live.contains(k);
    let stale = stored.filter(pred);
    assert forall|k: Seq<char>| stale.contains(k) implies !live.contains(k) by {
        let i = choose|i: int| 0 <= i < stale.len() && stale[i] == k;
        stored.lemma_filter_pred(pred, i);
    }
    assert forall|k: Seq<char>| stored.contains(k) && !stale.contains(k) implies live.contains(
        k,
    ) by {
        let i = choose|i: int| 0 <= i < stored.len() && stored[i] == k;
        if !live.contains(k) {
            stored.lemma_filter_contains(pred, i);
        }
    }
}

/// Restricting the claim map to the live ids deletes exactly the stale
/// ids: what `BookingStore::cleanup` does to its view is removing the set
/// difference that `compute_stale_ids` computes.
pub proof fn lemma_cleanup_deletes_stale(m: Map<Seq<char>, Seq<char>>, live: Set<Seq<char>>)
    ensures
        m.restrict(live) == m.remove_keys(m.dom().difference(live)),
{
    assert(m.restrict(live) =~= m.remove_keys(m.dom().difference(live)));
}

} // verus!
