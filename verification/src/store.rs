//! The booking store: the durable mapping from run identifier to the
//! claiming moderator's identity.
//!
//! A `BookingStore` models the single persisted claims table (the sparse
//! schema: one row per claimed run).  Its mathematical view is a map from
//! run id to claimant.  Claims are single-owner: a claim replaces the entry
//! for its run id, a release is identity-checked, and `cleanup` removes
//! every claim whose run has left the live pending set.

use vstd::prelude::*;

use crate::BookingError;

verus! {

/// No run id occurs twice among the stored claim rows.
pub open spec fn unique_ids(s: Seq<(String, String)>) -> bool {
    forall|i: int, j: int| 0 <= i < j < s.len() ==> s[i].0@ != s[j].0@
}

/// Some stored claim row carries the given run id.
pub open spec fn has_id(s: Seq<(String, String)>, id: Seq<char>) -> bool {
    exists|i: int| 0 <= i < s.len() && s[i].0@ == id
}

/// The claimant stored beside the given run id (meaningful when the id is
/// present and the rows are unique).
pub open spec fn value_at(s: Seq<(String, String)>, id: Seq<char>) -> Seq<char> {
    s[choose|i: int| 0 <= i < s.len() && s[i].0@ == id].1@
}

/// The claim map described by a sequence of (run id, claimant) rows.
pub open spec fn view_of(s: Seq<(String, String)>) -> Map<Seq<char>, Seq<char>> {
    Map::new(|id: Seq<char>| has_id(s, id), |id: Seq<char>| value_at(s, id))
}

/// The set of run ids named by a list of id strings.
pub open spec fn id_set(ids: Seq<String>) -> Set<Seq<char>> {
    Set::new(|k: Seq<char>| exists|j: int| 0 <= j < ids.len() && ids[j]@ == k)
}

/// With unique rows, any row holding the id determines `value_at`.
proof fn lemma_value_at(s: Seq<(String, String)>, id: Seq<char>, i: int)
    requires
        unique_ids(s),
        0 <= i < s.len(),
        s[i].0@ == id,
    ensures
        value_at(s, id) == s[i].1@,
{
    let j = choose|j: int| 0 <= j < s.len() && s[j].0@ == id;
    if i < j {
        assert(s[i].0@ != s[j].0@);
    } else if j < i {
        assert(s[j].0@ != s[i].0@);
    }
}

/// Removing row `i` removes exactly its run id from the described map:
/// the remaining rows are unique, none holds that id, and every other id
/// keeps its claimant.
proof fn lemma_removed_row(olds: Seq<(String, String)>, i: int)
    requires
        unique_ids(olds),
        0 <= i < olds.len(),
    ensures
        unique_ids(olds.remove(i)),
        forall|j: int|
            0 <= j < olds.remove(i).len() ==> (#[trigger] olds.remove(i)[j].0@) != olds[i].0@,
        forall|k: Seq<char>|
            k != olds[i].0@ ==> (has_id(olds.remove(i), k) <==> has_id(olds, k)),
        forall|k: Seq<char>|
            k != olds[i].0@ && has_id(olds.remove(i), k) ==> value_at(olds.remove(i), k)
                == value_at(olds, k),
{
    let mid = olds.remove(i);
    let id = olds[i].0@;
    olds.remove_ensures(i);
    assert forall|a: int, b: int| 0 <= a < b < mid.len() implies mid[a].0@ != mid[b].0@ by {
        if b < i {
            assert(mid[a] == olds[a] && mid[b] == olds[b]);
        } else if a < i {
            assert(mid[a] == olds[a] && mid[b] == olds[b + 1]);
        } else {
            assert(mid[a] == olds[a + 1] && mid[b] == olds[b + 1]);
        }
    }
    assert forall|j: int| 0 <= j < mid.len() implies (#[trigger] mid[j].0@) != id by {
        if j < i {
            assert(mid[j] == olds[j]);
            assert(olds[j].0@ != olds[i].0@);
        } else {
            assert(mid[j] == olds[j + 1]);
            assert(olds[i].0@ != olds[j + 1].0@);
        }
    }
    assert forall|k: Seq<char>| k != id && has_id(mid, k) implies has_id(olds, k) && value_at(
        mid,
        k,
    ) == value_at(olds, k) by {
        let j = choose|j: int| 0 <= j < mid.len() && mid[j].0@ == k;
        let j2 = if j < i {
            j
        } else {
            j + 1
        };
        assert(mid[j] == olds[j2]);
        assert(olds[j2].0@ == k);
        lemma_value_at(mid, k, j);
        lemma_value_at(olds, k, j2);
    }
    assert forall|k: Seq<char>| k != id && has_id(olds, k) implies has_id(mid, k) by {
        let j2 = choose|j2: int| 0 <= j2 < olds.len() && olds[j2].0@ == k;
        let j = if j2 < i {
            j2
        } else {
            j2 - 1
        };
        assert(j2 != i);
        assert(mid[j] == olds[j2]);
        assert(mid[j].0@ == k);
    }
}

/// Appending a row whose run id is fresh among `mid` makes the map of
/// `olds` with that id bound to the new claimant, provided `mid` agrees
/// with `olds` on every other id.
proof fn lemma_view_insert(
    olds: Seq<(String, String)>,
    mid: Seq<(String, String)>,
    pair: (String, String),
)
    requires
        unique_ids(mid),
        forall|j: int| 0 <= j < mid.len() ==> (#[trigger] mid[j].0@) != pair.0@,
        forall|k: Seq<char>| k != pair.0@ ==> (has_id(mid, k) <==> has_id(olds, k)),
        forall|k: Seq<char>|
            k != pair.0@ && has_id(mid, k) ==> value_at(mid, k) == value_at(olds, k),
    ensures
        unique_ids(mid.push(pair)),
        view_of(mid.push(pair)) =~= view_of(olds).insert(pair.0@, pair.1@),
{
    let news = mid.push(pair);
    let id = pair.0@;
    assert forall|a: int, b: int| 0 <= a < b < news.len() implies news[a].0@ != news[b].0@ by {
        if b < mid.len() {
            assert(news[a] == mid[a] && news[b] == mid[b]);
        } else {
            assert(news[a] == mid[a] && news[b] == pair);
        }
    }
    assert(news[news.len() - 1] == pair);
    lemma_value_at(news, id, news.len() - 1);
    assert forall|k: Seq<char>| k != id && has_id(news, k) implies has_id(olds, k) && value_at(
        news,
        k,
    ) == value_at(olds, k) by {
        let j = choose|j: int| 0 <= j < news.len() && news[j].0@ == k;
        assert(j < mid.len());
        assert(news[j] == mid[j]);
        lemma_value_at(news, k, j);
        lemma_value_at(mid, k, j);
    }
    assert forall|k: Seq<char>| k != id && has_id(olds, k) implies has_id(news, k) by {
        assert(has_id(mid, k));
        let j = choose|j: int| 0 <= j < mid.len() && mid[j].0@ == k;
        assert(news[j] == mid[j]);
        assert(news[j].0@ == k);
    }
    assert(view_of(news) =~= view_of(olds).insert(pair.0@, pair.1@));
}

/// The local claim map: run id -> claiming moderator.
pub struct BookingStore {
    entries: Vec<(String, String)>,
}

impl View for BookingStore {
    type V = Map<Seq<char>, Seq<char>>;

    closed spec fn view(&self) -> Map<Seq<char>, Seq<char>> {
        view_of(self.entries@)
    }
}

impl BookingStore {
    /// Well-formedness: the claim rows hold pairwise distinct run ids.
    /// Constructors establish it and every operation preserves it.
    pub closed spec fn wf(&self) -> bool {
        unique_ids(self.entries@)
    }

    /// An empty store: no run is claimed.
    pub fn new() -> (r: BookingStore)
        ensures
            r.wf(),
            r@ == Map::<Seq<char>, Seq<char>>::empty(),
    {
        let r = BookingStore { entries: Vec::new() };
        proof {
            assert(r@ =~= Map::<Seq<char>, Seq<char>>::empty());
        }
        r
    }

    /// Index of the claim row for `id`, if one exists.
    fn find(&self, id: &String) -> (r: Option<usize>)
        ensures
            match r {
                Some(i) => i < self.entries@.len() && self.entries@[i as int].0@ == id@,
                None => !has_id(self.entries@, id@),
            },
    {
        let mut i: usize = 0;
        while i < self.entries.len()
            invariant
                i <= self.entries@.len(),
                forall|j: int| 0 <= j < i ==> (#[trigger] self.entries@[j].0@) != id@,
            decreases self.entries@.len() - i,
        {
            if self.entries[i].0 == *id {
                return Some(i);
            }
            i += 1;
        }
        None
    }

    /// The claimant of `id`, if the run is claimed.
    pub fn claim_for(&self, id: &str) -> (r: Option<String>)
        requires
            self.wf(),
        ensures
            match r {
                Some(user) => self@.contains_key(id@) && user@ == self@[id@],
                None => !self@.contains_key(id@),
            },
    {
        let key = id.to_owned();
        match self.find(&key) {
            Some(i) => {
                let user = self.entries[i].1.clone();
                proof {
                    lemma_value_at(self.entries@, id@, i as int);
                }
                Some(user)
            },
            None => None,
        }
    }

    /// All claims, as (run id, claimant) pairs: a bulk read of the map.
    pub fn get_bookings(&self) -> (r: Vec<(String, String)>)
        requires
            self.wf(),
        ensures
            forall|i: int, j: int| 0 <= i < j < r@.len() ==> r@[i].0@ != r@[j].0@,
            forall|i: int|
                0 <= i < r@.len() ==> self@.contains_key(#[trigger] r@[i].0@) && self@[r@[i].0@]
                    == r@[i].1@,
            forall|k: Seq<char>|
                self@.contains_key(k) ==> exists|i: int|
                    0 <= i < r@.len() && (#[trigger] r@[i].0@) == k,
    {
        let mut r: Vec<(String, String)> = Vec::new();
        let mut i: usize = 0;
        while i < self.entries.len()
            invariant
                i <= self.entries@.len(),
                r@.len() == i,
                forall|j: int| 0 <= j < i ==> #[trigger] r@[j] == self.entries@[j],
            decreases self.entries@.len() - i,
        {
            let id = self.entries[i].0.clone();
            let user = self.entries[i].1.clone();
            r.push((id, user));
            i += 1;
        }
        proof {
            assert forall|a: int, b: int| 0 <= a < b < r@.len() implies r@[a].0@ != r@[b].0@ by {
                assert(r@[a] == self.entries@[a] && r@[b] == self.entries@[b]);
            }
            assert forall|a: int|
                0 <= a < r@.len() implies self@.contains_key(#[trigger] r@[a].0@) && self@[r@[a].0@]
                    == r@[a].1@ by {
                assert(r@[a] == self.entries@[a]);
                assert(self.entries@[a].0@ == r@[a].0@);
                lemma_value_at(self.entries@, r@[a].0@, a);
            }
            assert forall|k: Seq<char>| self@.contains_key(k) implies exists|a: int|
                0 <= a < r@.len() && (#[trigger] r@[a].0@) == k by {
                let j = choose|j: int| 0 <= j < self.entries@.len() && self.entries@[j].0@ == k;
                assert(r@[j] == self.entries@[j]);
                assert(r@[j].0@ == k);
            }
        }
        r
    }

    /// Claim `id` for `user`: insert or replace the claim row, whoever held
    /// it before (last writer wins).
    pub fn book_run(&mut self, id: &str, user: &str)
        requires
            old(self).wf(),
        ensures
            final(self).wf(),
            final(self)@ == old(self)@.insert(id@, user@),
    {
        let ghost olds = self.entries@;
        let key = id.to_owned();
        let val = user.to_owned();
        let found = self.find(&key);
        match found {
            Some(i) => {
                self.entries.remove(i);
                proof {
                    lemma_removed_row(olds, i as int);
                }
            },
            None => {
                proof {
                    assert forall|j: int|
                        0 <= j < self.entries@.len() implies (#[trigger] self.entries@[j].0@)
                        != id@ by {
                        if self.entries@[j].0@ == id@ {
                            assert(has_id(olds, id@));
                        }
                    }
                }
            },
        }
        let ghost mid = self.entries@;
        self.entries.push((key, val));
        proof {
            let pair = self.entries@.last();
            assert(self.entries@ == mid.push(pair));
            assert(pair.0@ == id@ && pair.1@ == user@);
            lemma_view_insert(olds, mid, pair);
        }
    }

    /// Release the claim on `id`, but only for its current claimant: if the
    /// run is unclaimed, or claimed by someone else, the store is unchanged
    /// and an ownership error is returned.
    pub fn unbook_run(&mut self, id: &str, user: &str) -> (r: Result<(), BookingError>)
        requires
            old(self).wf(),
        ensures
            final(self).wf(),
            old(self)@.contains_key(id@) && old(self)@[id@] == user@ ==> r is Ok && final(self)@
                == old(self)@.remove(id@),
            !(old(self)@.contains_key(id@) && old(self)@[id@] == user@) ==> r == Err::<
                (),
                BookingError,
            >(BookingError::Ownership) && final(self)@ == old(self)@,
    {
        let ghost olds = self.entries@;
        let key = id.to_owned();
        match self.find(&key) {
            Some(i) => {
                proof {
                    lemma_value_at(olds, id@, i as int);
                }
                let who = user.to_owned();
                if self.entries[i].1 == who {
                    self.entries.remove(i);
                    proof {
                        lemma_removed_row(olds, i as int);
                        assert(view_of(self.entries@) =~= view_of(olds).remove(id@));
                    }
                    Ok(())
                } else {
                    Err(BookingError::Ownership)
                }
            },
            None => Err(BookingError::Ownership),
        }
    }

    /// Garbage-collect stale claims: drop every claim row whose run id is
    /// not in `live`, the set of run ids still pending upstream.  The
    /// surviving claims keep their claimants.
    pub fn cleanup(&mut self, live: &Vec<String>)
        requires
            old(self).wf(),
        ensures
            final(self).wf(),
            final(self)@ == old(self)@.restrict(id_set(live@)),
    {
        let ghost olds = self.entries@;
        let ghost lset = id_set(live@);
        let mut kept: Vec<(String, String)> = Vec::new();
        let ghost mut src: Seq<int> = Seq::empty();
        let mut i: usize = 0;
        while i < self.entries.len()
            invariant
                self.entries@ == olds,
                unique_ids(olds),
                i <= olds.len(),
                src.len() == kept@.len(),
                forall|a: int|
                    0 <= a < kept@.len() ==> 0 <= #[trigger] src[a] < i,
                forall|a: int|
                    0 <= a < kept@.len() ==> (#[trigger] kept@[a]) == olds[src[a]]
                        && lset.contains(olds[src[a]].0@),
                forall|a1: int, a2: int| 0 <= a1 < a2 < kept@.len() ==> src[a1] < src[a2],
                forall|b: int|
                    0 <= b < i && lset.contains((#[trigger] olds[b]).0@) ==> has_id(
                        kept@,
                        olds[b].0@,
                    ),
                lset == id_set(live@),
            decreases olds.len() - i,
        {
            let ghost kept_before = kept@;
            let ghost src_before = src;
            let keep = contains_str(live, &self.entries[i].0);
            if keep {
                let id2 = self.entries[i].0.clone();
                let who = self.entries[i].1.clone();
                kept.push((id2, who));
                proof {
                    src = src.push(i as int);
                    assert(kept@.last() == olds[i as int]);
                    assert forall|a: int|
                        0 <= a < kept@.len() implies (#[trigger] kept@[a]) == olds[src[a]]
                        && lset.contains(olds[src[a]].0@) && 0 <= src[a] < i + 1 by {
                        if a < kept@.len() - 1 {
                            assert(kept@[a] == kept_before[a]);
                            assert(src[a] == src_before[a]);
                        } else {
                            assert(src[a] == i as int);
                            assert(kept@[a] == olds[i as int]);
                        }
                    }
                    assert forall|a1: int, a2: int|
                        0 <= a1 < a2 < kept@.len() implies src[a1] < src[a2] by {
                        if a2 < kept@.len() - 1 {
                            assert(src[a1] == src_before[a1] && src[a2] == src_before[a2]);
                        } else {
                            assert(src[a1] == src_before[a1] && src[a2] == i as int);
                            assert(src_before[a1] < i);
                        }
                    }
                }
            }
            proof {
                assert forall|b: int|
                    0 <= b < i + 1 && lset.contains((#[trigger] olds[b]).0@) implies has_id(
                    kept@,
                    olds[b].0@,
                ) by {
                    if b < i {
                        let a = choose|a: int|
                            0 <= a < kept_before.len() && kept_before[a].0@ == olds[b].0@;
                        assert(kept@[a] == kept_before[a]);
                        assert(kept@[a].0@ == olds[b].0@);
                    } else {
                        assert(keep);
                        assert(kept@[kept@.len() - 1].0@ == olds[i as int].0@);
                    }
                }
            }
            i += 1;
        }
        self.entries = kept;
        proof {
            let news = self.entries@;
            assert forall|a1: int, a2: int|
                0 <= a1 < a2 < news.len() implies news[a1].0@ != news[a2].0@ by {
                assert(news[a1] == olds[src[a1]] && news[a2] == olds[src[a2]]);
                assert(olds[src[a1]].0@ != olds[src[a2]].0@);
            }
            assert forall|k: Seq<char>| has_id(news, k) implies has_id(olds, k) && lset.contains(k)
                && value_at(news, k) == value_at(olds, k) by {
                let a = choose|a: int| 0 <= a < news.len() && news[a].0@ == k;
                let b = src[a];
                assert(news[a] == olds[b] && lset.contains(olds[b].0@));
                assert(olds[b].0@ == k);
                lemma_value_at(news, k, a);
                lemma_value_at(olds, k, b);
            }
            assert forall|k: Seq<char>| has_id(olds, k) && lset.contains(k) implies has_id(
                news,
                k,
            ) by {
                let b = choose|b: int| 0 <= b < olds.len() && olds[b].0@ == k;
                assert(lset.contains(olds[b].0@));
            }
            assert(view_of(news) =~= view_of(olds).restrict(lset));
        }
    }
}

/// True when some element of `ids` spells exactly the characters of `s`.
pub fn contains_str(ids: &Vec<String>, s: &String) -> (r: bool)
    ensures
        r == id_set(ids@).contains(s@),
{
    let mut i: usize = 0;
    while i < ids.len()
        invariant
            i <= ids@.len(),
            forall|j: int| 0 <= j < i ==> (#[trigger] ids@[j]@) != s@,
        decreases ids@.len() - i,
    {
        if ids[i] == *s {
            proof {
                assert(ids@[i as int]@ == s@);
            }
            return true;
        }
        i += 1;
    }
    proof {
        if id_set(ids@).contains(s@) {
            let j = choose|j: int| 0 <= j < ids@.len() && ids@[j]@ == s@;
            assert(ids@[j]@ != s@);
        }
    }
    false
}

} // verus!
