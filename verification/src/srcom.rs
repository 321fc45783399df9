//! Normalizing what the upstream leaderboard service serves: fetched run
//! records become `PendingRun`s, a fetched profile yields its display
//! name, and the set of tracked leaderboards is fixed here.
//!
//! The network fetch and the JSON decoding stay outside the crate; this
//! module works on the plain records they produce.

use vstd::prelude::*;

use crate::DecodeError;
use crate::PendingRun;
use crate::duration::duration_to_hms;
use crate::duration::spec_hms;
use crate::duration::spec_parse_duration;
use crate::opt_view;

verus! {

/// One player of a fetched run: profile link, display name, and an
/// optional country code ("no location" decodes to absence, not failure).
pub struct PlayerRecord {
    pub weblink: String,
    pub name: String,
    pub country: Option<String>,
}

/// A fetched run record, as the upstream service describes a pending run.
pub struct RunRecord {
    pub id: String,
    pub weblink: String,
    pub comment: Option<String>,
    pub players: Vec<PlayerRecord>,
    pub category: Option<String>,
    pub times_primary: String,
    pub submitted: String,
}

/// When a record can be normalized: it names at least one player and its
/// duration is an accepted ISO-8601 duration.
pub open spec fn decodes(rec: RunRecord) -> bool {
    rec.players@.len() > 0 && spec_parse_duration(rec.times_primary@) is Some
}

/// The error a record that cannot be normalized produces: an empty player
/// list is reported before a bad duration.
pub open spec fn spec_decode_error(rec: RunRecord) -> DecodeError {
    if rec.players@.len() == 0 {
        DecodeError::NoPlayers(rec.id)
    } else {
        DecodeError::BadDuration(rec.times_primary)
    }
}

/// How a normalized run relates to its record: identity, links, category
/// and submission time carry over; the first player names the run; a
/// missing comment becomes empty text; the duration is rendered as
/// `HH:MM:SS`; and the run starts unclaimed (`booked_by` is never taken
/// from upstream).
pub open spec fn decoded_view(rec: RunRecord, p: PendingRun) -> bool {
    &&& p.id@ == rec.id@
    &&& p.weblink@ == rec.weblink@
    &&& p.comment@ == (match rec.comment {
        Some(c) => c@,
        None => Seq::<char>::empty(),
    })
    &&& opt_view(p.category) == opt_view(rec.category)
    &&& p.player_name@ == rec.players@[0].name@
    &&& opt_view(p.player_location) == opt_view(rec.players@[0].country)
    &&& p.player_url@ == rec.players@[0].weblink@
    &&& p.booked_by is None
    &&& p.submitted@ == rec.submitted@
    &&& (spec_parse_duration(rec.times_primary@) matches Some(v) && p.times@ == spec_hms(v))
}

impl PendingRun {
    /// Normalize one fetched run record, or say exactly why it cannot be:
    /// no players, or a duration outside the accepted grammar.
    pub fn try_from(run: RunRecord) -> (r: Result<PendingRun, DecodeError>)
        ensures
            decodes(run) ==> (r matches Ok(p) && decoded_view(run, p)),
            !decodes(run) ==> r == Err::<PendingRun, DecodeError>(spec_decode_error(run)),
    {
        let RunRecord { id, weblink, comment, players, category, times_primary, submitted } = run;
        if players.len() == 0 {
            return Err(DecodeError::NoPlayers(id));
        }
        let times = match duration_to_hms(times_primary.as_str()) {
            Some(t) => t,
            None => {
                return Err(DecodeError::BadDuration(times_primary));
            },
        };
        let mut players = players;
        let player = players.remove(0);
        let comment = match comment {
            Some(c) => c,
            None => String::new(),
        };
        Ok(
            PendingRun {
                id,
                weblink,
                comment,
                category,
                player_name: player.name,
                player_location: player.country,
                player_url: player.weblink,
                booked_by: None,
                submitted,
                times,
            },
        )
    }
}

/// The batch error: the first record that cannot be normalized, every
/// record before it sound, and the error that record produces.
pub open spec fn batch_error(records: Seq<RunRecord>, e: DecodeError) -> bool {
    exists|i: int|
        0 <= i < records.len() && !decodes(#[trigger] records[i]) && (forall|j: int|
            0 <= j < i ==> decodes(records[j])) && e == spec_decode_error(records[i])
}

/// Normalize a whole fetched batch, in record order.  The first record
/// that cannot be normalized aborts the batch with its error (the strict
/// policy: a batch is served only when every record decodes).
#[verifier::loop_isolation(false)]
pub fn runs_from_records(records: Vec<RunRecord>) -> (r: Result<Vec<PendingRun>, DecodeError>)
    ensures
        r matches Ok(v) ==> v@.len() == records@.len() && forall|i: int|
            0 <= i < v@.len() ==> decodes(#[trigger] records@[i]) && decoded_view(
                records@[i],
                v@[i],
            ),
        r matches Err(e) ==> batch_error(records@, e),
{
    let ghost orig = records@;
    let mut remaining = records;
    let mut out: Vec<PendingRun> = Vec::new();
    while remaining.len() > 0
        invariant
            out@.len() + remaining@.len() == orig.len(),
            remaining@ == orig.subrange(out@.len() as int, orig.len() as int),
            forall|i: int|
                0 <= i < out@.len() ==> decodes(#[trigger] orig[i]) && decoded_view(
                    orig[i],
                    out@[i],
                ),
        decreases remaining@.len(),
    {
        let ghost done = out@.len() as int;
        let rec = remaining.remove(0);
        proof {
            assert(remaining@ =~= orig.subrange(done + 1, orig.len() as int));
            assert(orig.subrange(done, orig.len() as int)[0] == orig[done]);
        }
        match PendingRun::try_from(rec) {
            Ok(p) => {
                out.push(p);
            },
            Err(e) => {
                proof {
                    assert(!decodes(orig[done]) && e == spec_decode_error(orig[done]));
                    assert(forall|j: int| 0 <= j < done ==> decodes(#[trigger] orig[j]));
                    assert(batch_error(orig, e));
                }
                return Err(e);
            },
        }
    }
    proof {
        assert(out@.len() == orig.len());
    }
    Ok(out)
}

/// Whether `id` names one of the tracked leaderboards.
pub open spec fn spec_tracked(id: Seq<char>) -> bool {
    ||| id == "w6jve26j"@
    ||| id == "lde3woe6"@
    ||| id == "y65lw01e"@
    ||| id == "m1zky010"@
    ||| id == "k6qg0xdg"@
    ||| id == "m1mn8kd2"@
    ||| id == "j1neogy1"@
    ||| id == "9d3kqg1l"@
    ||| id == "nd28z0ed"@
    ||| id == "o1y9zk26"@
}

/// The tracked leaderboards: upstream id and display name.
pub fn games() -> (r: Vec<(String, String)>)
    ensures
        r@.len() == 10,
        forall|i: int| 0 <= i < r@.len() ==> spec_tracked((#[trigger] r@[i]).0@),
        r@[0].0@ == "w6jve26j"@ && r@[0].1@ == "Dark Souls"@,
        r@[1].0@ == "lde3woe6"@ && r@[1].1@ == "Dark Souls Remastered"@,
        r@[2].0@ == "y65lw01e"@ && r@[2].1@ == "Dark Souls II: Scholar of the First Sin"@,
        r@[3].0@ == "m1zky010"@ && r@[3].1@ == "Dark Souls II"@,
        r@[4].0@ == "k6qg0xdg"@ && r@[4].1@ == "Dark Souls III"@,
        r@[5].0@ == "m1mn8kd2"@ && r@[5].1@ == "Demon's Souls"@,
        r@[6].0@ == "j1neogy1"@ && r@[6].1@ == "Demon's Souls (2020)"@,
        r@[7].0@ == "9d3kqg1l"@ && r@[7].1@ == "Bloodborne"@,
        r@[8].0@ == "nd28z0ed"@ && r@[8].1@ == "Elden Ring"@,
        r@[9].0@ == "o1y9zk26"@ && r@[9].1@ == "Sekiro"@,
{
    let mut v: Vec<(String, String)> = Vec::new();
    v.push(("w6jve26j".to_owned(), "Dark Souls".to_owned()));
    v.push(("lde3woe6".to_owned(), "Dark Souls Remastered".to_owned()));
    v.push(("y65lw01e".to_owned(), "Dark Souls II: Scholar of the First Sin".to_owned()));
    v.push(("m1zky010".to_owned(), "Dark Souls II".to_owned()));
    v.push(("k6qg0xdg".to_owned(), "Dark Souls III".to_owned()));
    v.push(("m1mn8kd2".to_owned(), "Demon's Souls".to_owned()));
    v.push(("j1neogy1".to_owned(), "Demon's Souls (2020)".to_owned()));
    v.push(("9d3kqg1l".to_owned(), "Bloodborne".to_owned()));
    v.push(("nd28z0ed".to_owned(), "Elden Ring".to_owned()));
    v.push(("o1y9zk26".to_owned(), "Sekiro".to_owned()));
    v
}

/// Whether `id` names a tracked leaderboard, executable: an unknown id is
/// refused before any fetch is attempted.
pub fn is_tracked_game(id: &str) -> (r: bool)
    ensures
        r == spec_tracked(id@),
{
    let key = id.to_owned();
    if key == "w6jve26j".to_owned() {
        return true;
    }
    if key == "lde3woe6".to_owned() {
        return true;
    }
    if key == "y65lw01e".to_owned() {
        return true;
    }
    if key == "m1zky010".to_owned() {
        return true;
    }
    if key == "k6qg0xdg".to_owned() {
        return true;
    }
    if key == "m1mn8kd2".to_owned() {
        return true;
    }
    if key == "j1neogy1".to_owned() {
        return true;
    }
    if key == "9d3kqg1l".to_owned() {
        return true;
    }
    if key == "nd28z0ed".to_owned() {
        return true;
    }
    if key == "o1y9zk26".to_owned() {
        return true;
    }
    false
}

/// The display names of a fetched user profile.
pub struct Names {
    pub international: String,
}

/// A fetched user.
pub struct User {
    pub names: Names,
}

/// The upstream profile payload: one user record.
pub struct UserResource {
    pub data: User,
}

impl UserResource {
    /// The profile's international display name: the identity a verified
    /// API key resolves to.
    pub fn get_name(self) -> (r: String)
        ensures
            r@ == self.data.names.international@,
    {
        self.data.names.international
    }
}

} // verus!
