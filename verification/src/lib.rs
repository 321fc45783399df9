//! Advisory booking of pending speedrun submissions.
//!
//! Moderators of a set of leaderboards claim ("book") unreviewed run
//! submissions for review.  This crate holds the reconciliation and
//! booking-consistency core: merging externally fetched pending runs with
//! locally held claims, the ownership rules for claiming and releasing, and
//! garbage collection of claims whose run is no longer pending upstream.

use vstd::prelude::*;

pub mod auth;
pub mod duration;
pub mod reconcile;
pub mod srcom;
pub mod store;

verus! {

/// Release attempted on a run that is unclaimed, or claimed by someone
/// else: the store is left unchanged.
#[derive(Debug, PartialEq, Eq)]
pub enum BookingError {
    Ownership,
}

/// A fetched run record could not be turned into a `PendingRun`.
#[derive(Debug, PartialEq, Eq)]
pub enum DecodeError {
    /// The run record carries no players; the payload is the run id.
    NoPlayers(String),
    /// The submitted duration is not an ISO-8601 duration this crate
    /// accepts; the payload is the offending duration string.
    BadDuration(String),
}

/// The supplied password does not match the stored one.
#[derive(Debug, PartialEq, Eq)]
pub enum AuthError {
    WrongPassword,
}

/// The view of an optional owned string: the optional sequence of its
/// characters.
pub open spec fn opt_view(o: Option<String>) -> Option<Seq<char>> {
    match o {
        Some(s) => Some(s@),
        None => None,
    }
}

/// An externally submitted, not-yet-reviewed run, as served to clients.
/// `booked_by` is never taken from upstream: the reconciler fills it from
/// the booking store.
#[derive(Debug, PartialEq, Eq)]
pub struct PendingRun {
    pub id: String,
    pub weblink: String,
    pub comment: String,
    pub category: Option<String>,
    pub player_name: String,
    pub player_location: Option<String>,
    pub player_url: String,
    pub booked_by: Option<String>,
    pub submitted: String,
    pub times: String,
}

/// The mathematical view of a `PendingRun`: every field as character data.
pub struct PendingRunView {
    pub id: Seq<char>,
    pub weblink: Seq<char>,
    pub comment: Seq<char>,
    pub category: Option<Seq<char>>,
    pub player_name: Seq<char>,
    pub player_location: Option<Seq<char>>,
    pub player_url: Seq<char>,
    pub booked_by: Option<Seq<char>>,
    pub submitted: Seq<char>,
    pub times: Seq<char>,
}

impl View for PendingRun {
    type V = PendingRunView;

    open spec fn view(&self) -> PendingRunView {
        PendingRunView {
            id: self.id@,
            weblink: self.weblink@,
            comment: self.comment@,
            category: opt_view(self.category),
            player_name: self.player_name@,
            player_location: opt_view(self.player_location),
            player_url: self.player_url@,
            booked_by: opt_view(self.booked_by),
            submitted: self.submitted@,
            times: self.times@,
        }
    }
}

/// The view of a run after the reconciler fills its `booked_by` field from
/// the claim map: the stored claimant where the run is claimed, absent
/// where it is not, with every other field kept.
pub open spec fn merged_view(run: PendingRunView, claims: Map<Seq<char>, Seq<char>>) -> PendingRunView {
    PendingRunView {
        booked_by: if claims.contains_key(run.id) {
            Some(claims[run.id])
        } else {
            None
        },
        ..run
    }
}

/// Fill `booked_by` for one list of live runs from the claim map, keeping
/// length and order.
pub fn merge_run_list(pending_db: &store::BookingStore, runs: Vec<PendingRun>) -> (r: Vec<
    PendingRun,
>)
    requires
        pending_db.wf(),
    ensures
        r@.len() == runs@.len(),
        forall|i: int| 0 <= i < r@.len() ==> (#[trigger] r@[i])@ == merged_view(runs@[i]@, pending_db@),
{
    let mut remaining = runs;
    let ghost orig = remaining@;
    let mut out: Vec<PendingRun> = Vec::new();
    while remaining.len() > 0
        invariant
            pending_db.wf(),
            out@.len() + remaining@.len() == orig.len(),
            remaining@ == orig.subrange(out@.len() as int, orig.len() as int),
            forall|i: int|
                0 <= i < out@.len() ==> (#[trigger] out@[i])@ == merged_view(
                    orig[i]@,
                    pending_db@,
                ),
        decreases remaining@.len(),
    {
        let ghost done = out@.len() as int;
        let mut run = remaining.remove(0);
        proof {
            assert(remaining@ =~= orig.subrange(done + 1, orig.len() as int));
            assert(orig.subrange(done, orig.len() as int)[0] == orig[done]);
        }
        run.booked_by = pending_db.claim_for(run.id.as_str());
        out.push(run);
    }
    out
}

/// The reconciler's read-path merge.  For every live pending run, fetched
/// per leaderboard, set `booked_by` to the claim stored for its id, or
/// leave it unset when there is none.  Grouping, length and order of the
/// live input are kept; claims naming no live run do not appear.
pub fn merge_pendings(
    pending_db: &store::BookingStore,
    pending_online: Vec<(String, Vec<PendingRun>)>,
) -> (r: Vec<(String, Vec<PendingRun>)>)
    requires
        pending_db.wf(),
    ensures
        r@.len() == pending_online@.len(),
        forall|g: int|
            0 <= g < r@.len() ==> (#[trigger] r@[g]).0@ == pending_online@[g].0@ && r@[g].1@.len()
                == pending_online@[g].1@.len(),
        forall|g: int, i: int|
            0 <= g < r@.len() && 0 <= i < r@[g].1@.len() ==> (#[trigger] r@[g].1@[i])@
                == merged_view(pending_online@[g].1@[i]@, pending_db@),
{
    let mut remaining = pending_online;
    let ghost orig = remaining@;
    let mut out: Vec<(String, Vec<PendingRun>)> = Vec::new();
    while remaining.len() > 0
        invariant
            pending_db.wf(),
            out@.len() + remaining@.len() == orig.len(),
            remaining@ == orig.subrange(out@.len() as int, orig.len() as int),
            forall|g: int|
                0 <= g < out@.len() ==> (#[trigger] out@[g]).0@ == orig[g].0@ && out@[g].1@.len()
                    == orig[g].1@.len(),
            forall|g: int, i: int|
                0 <= g < out@.len() && 0 <= i < out@[g].1@.len() ==> (#[trigger] out@[g].1@[i])@
                    == merged_view(orig[g].1@[i]@, pending_db@),
        decreases remaining@.len(),
    {
        let ghost done = out@.len() as int;
        let (game, runs) = remaining.remove(0);
        proof {
            assert(remaining@ =~= orig.subrange(done + 1, orig.len() as int));
            assert(orig.subrange(done, orig.len() as int)[0] == orig[done]);
        }
        let merged = merge_run_list(pending_db, runs);
        out.push((game, merged));
    }
    out
}

/// Outcome of releasing whatever claim `id` holds, regardless of who holds
/// it: the claim map afterwards, and whether a claim was released.
pub open spec fn spec_release_any(m: Map<Seq<char>, Seq<char>>, id: Seq<char>) -> (
    Map<Seq<char>, Seq<char>>,
    bool,
) {
    if m.contains_key(id) {
        (m.remove(id), true)
    } else {
        (m, false)
    }
}

/// Outcome of the booking operation: the sentinel identity "nobody" is a
/// release, any other identity claims the run (replacing a previous claim).
pub open spec fn spec_book_outcome(
    m: Map<Seq<char>, Seq<char>>,
    id: Seq<char>,
    user: Seq<char>,
) -> (Map<Seq<char>, Seq<char>>, bool) {
    if user == "nobody"@ {
        spec_release_any(m, id)
    } else {
        (m.insert(id, user), true)
    }
}

/// Outcome of the identity-checked release: the claim goes away only when
/// the caller is the stored claimant; otherwise nothing changes.
pub open spec fn spec_unbook_outcome(
    m: Map<Seq<char>, Seq<char>>,
    id: Seq<char>,
    user: Seq<char>,
) -> (Map<Seq<char>, Seq<char>>, bool) {
    if m.contains_key(id) && m[id] == user {
        (m.remove(id), true)
    } else {
        (m, false)
    }
}

/// Book the run `id` for `booked_by`.  The sentinel identity "nobody" is
/// never stored: it releases the current claim instead, whoever holds it,
/// and fails when the run is unclaimed (nothing to release).
pub fn book_run(store: &mut store::BookingStore, id: &str, booked_by: &str) -> (r: Result<
    (),
    BookingError,
>)
    requires
        old(store).wf(),
    ensures
        final(store).wf(),
        (final(store)@, r is Ok) == spec_book_outcome(old(store)@, id@, booked_by@),
        r is Err ==> r == Err::<(), BookingError>(BookingError::Ownership),
{
    let user = booked_by.to_owned();
    let nobody = "nobody".to_owned();
    if user == nobody {
        match store.claim_for(id) {
            Some(current) => store.unbook_run(id, current.as_str()),
            None => Err(BookingError::Ownership),
        }
    } else {
        store.book_run(id, booked_by);
        Ok(())
    }
}

/// Release the run `id`, but only if `booked_by` is its stored claimant;
/// otherwise the claim map is unchanged and an ownership error comes back.
pub fn unbook_run(store: &mut store::BookingStore, id: &str, booked_by: &str) -> (r: Result<
    (),
    BookingError,
>)
    requires
        old(store).wf(),
    ensures
        final(store).wf(),
        (final(store)@, r is Ok) == spec_unbook_outcome(old(store)@, id@, booked_by@),
        r is Err ==> r == Err::<(), BookingError>(BookingError::Ownership),
{
    store.unbook_run(id, booked_by)
}

/// Claim-then-release round trip.  Booking a run for one moderator and
/// then releasing it under the same identity leaves the run unclaimed;
/// releasing it under a different identity fails and leaves the original
/// claimant in place.
pub proof fn lemma_claim_release_round_trip(
    m: Map<Seq<char>, Seq<char>>,
    id: Seq<char>,
    alice: Seq<char>,
    bob: Seq<char>,
)
    requires
        alice != "nobody"@,
        alice != bob,
    ensures
        ({
            let (m1, ok1) = spec_book_outcome(m, id, alice);
            let (m2, ok2) = spec_unbook_outcome(m1, id, alice);
            ok1 && ok2 && !m2.contains_key(id)
        }),
        ({
            let (m1, ok1) = spec_book_outcome(m, id, alice);
            let (m3, ok3) = spec_unbook_outcome(m1, id, bob);
            !ok3 && m3 == m1 && m3.contains_key(id) && m3[id] == alice
        }),
{
}

/// The "nobody" sentinel.  Booking a run under the identity "nobody" is a
/// release of whatever claim is stored, exactly as an identity-checked
/// release by the current claimant would be; on an unclaimed run it
/// releases nothing and fails.
pub proof fn lemma_nobody_sentinel(m: Map<Seq<char>, Seq<char>>, id: Seq<char>)
    ensures
        spec_book_outcome(m, id, "nobody"@) == spec_release_any(m, id),
        m.contains_key(id) ==> spec_book_outcome(m, id, "nobody"@) == spec_unbook_outcome(
            m,
            id,
            m[id],
        ),
        !m.contains_key(id) ==> spec_book_outcome(m, id, "nobody"@) == (m, false),
{
}

/// Cleanup is idempotent: a second garbage collection against the same
/// live set deletes nothing further.
pub proof fn lemma_cleanup_idempotent(m: Map<Seq<char>, Seq<char>>, live: Set<Seq<char>>)
    ensures
        m.restrict(live).restrict(live) == m.restrict(live),
{
    assert(m.restrict(live).restrict(live) =~= m.restrict(live));
}

/// Two competing claims on the same run id: the final stored claimant is
/// exactly the later writer, and in particular always one of the two
/// identities, in whichever order the claims land.
pub proof fn lemma_last_writer_wins(
    m: Map<Seq<char>, Seq<char>>,
    id: Seq<char>,
    u1: Seq<char>,
    u2: Seq<char>,
)
    requires
        u1 != "nobody"@,
        u2 != "nobody"@,
    ensures
        ({
            let (m1, ok1) = spec_book_outcome(m, id, u1);
            let (m12, ok12) = spec_book_outcome(m1, id, u2);
            m12.contains_key(id) && m12[id] == u2 && (m12[id] == u1 || m12[id] == u2)
        }),
        ({
            let (m2, ok2) = spec_book_outcome(m, id, u2);
            let (m21, ok21) = spec_book_outcome(m2, id, u1);
            m21.contains_key(id) && m21[id] == u1 && (m21[id] == u1 || m21[id] == u2)
        }),
{
}

} // verus!
