//! The engine's orchestration, up to and after the remote push: resolve the
//! two deltas, arbitrate the running entry, and assemble the final outcome
//! once the push results are known. The remote calls themselves stand between
//! [`prepare_sync`] and [`finish_sync`] and are the caller's.

use vstd::prelude::*;

use crate::arbiter::{
    push_and_maybe_replace, spec_has_been_created, spec_has_failed, spec_push_replace,
    spec_te_to_stop, time_entry_which_should_be_stopped,
};
use crate::conflicts::{resolve, spec_resolve};
use crate::error::Error;
use crate::models::{Delta, DeltaView, Entity, Id, Project, TimeEntry, Timestamp, User};
use crate::outcome::{spec_to_results, spec_user_result, OutcomeView, SyncOutcome, SyncResult};
use crate::resolution::{spec_share, ResolutionView, SyncResolution};

verus! {

/// What a resolve-and-arbitrate pass hands to the push phase: the two
/// resolutions, with the stop directive already mirrored into the server
/// one, and the stopped entry itself for the later client-side decision.
pub struct SyncPrep {
    pub client_resolution: SyncResolution,
    pub server_resolution: SyncResolution,
    pub stopped: Option<TimeEntry>,
}

/// The delta of a side that reported nothing.
pub open spec fn spec_empty_delta() -> DeltaView {
    DeltaView { user: None, projects: Seq::<Project>::empty(), time_entries: Seq::<TimeEntry>::empty() }
}

/// The whole pass before the push: resolve, check disjointness, arbitrate
/// the running entry, and fold the stop directive into the server
/// resolution.
pub open spec fn spec_prepare(
    client_delta: Option<DeltaView>,
    server_delta: DeltaView,
    running_on_server: Result<Option<TimeEntry>, Error>,
    now: Timestamp,
) -> Result<(ResolutionView, ResolutionView, Option<TimeEntry>), Error> {
    let cd = match client_delta {
        Some(d) => d,
        None => spec_empty_delta(),
    };
    let (rc, rs) = spec_resolve(cd, server_delta);
    if spec_share(rc, rs) {
        Err(Error::InvariantViolation)
    } else {
        let stopped = match client_delta {
            Some(d) => spec_te_to_stop(d, rc, rs, running_on_server, now),
            None => None,
        };
        let rs2 = match stopped {
            Some(te) => ResolutionView {
                time_entries: spec_push_replace(rs.time_entries, te),
                ..rs
            },
            None => rs,
        };
        Ok((rc, rs2, stopped))
    }
}

/// Resolves the two deltas and arbitrates the running entry; see
/// [`spec_prepare`]. The server resolution of the result is what the push
/// phase must apply; a shared id across the two resolutions aborts the pass.
pub fn prepare_sync(
    client_delta: Option<Delta>,
    server_delta: Delta,
    running_on_server: Result<Option<TimeEntry>, Error>,
    now: Timestamp,
) -> (r: Result<SyncPrep, Error>)
    ensures
        ({
            let cdv = match client_delta {
                Some(d) => Some(d@),
                None => None,
            };
            match spec_prepare(cdv, server_delta@, running_on_server, now) {
                Err(e) => r matches Err(err) && err == e,
                Ok(t) => r matches Ok(p) && p.client_resolution@ == t.0 && p.server_resolution@
                    == t.1 && p.stopped == t.2,
            }
        }),
{
    match client_delta {
        None => {
            let empty = Delta::default();
            assert(empty@ =~= spec_empty_delta());
            match resolve(empty, server_delta) {
                Err(e) => Err(e),
                Ok((rc, rs)) => Ok(
                    SyncPrep { client_resolution: rc, server_resolution: rs, stopped: None },
                ),
            }
        },
        Some(cd) => {
            let cd_copy = cd.dup();
            assert(cd_copy@ =~= cd@);
            match resolve(cd_copy, server_delta) {
                Err(e) => Err(e),
                Ok((rc, rs)) => {
                    let stopped = time_entry_which_should_be_stopped(
                        &cd,
                        &rc,
                        &rs,
                        running_on_server,
                        now,
                    );
                    match stopped {
                        Some(st) => {
                            let st_copy = st.dup();
                            let SyncResolution { user, projects, time_entries } = rs;
                            let server_resolution = SyncResolution {
                                user,
                                projects,
                                time_entries: push_and_maybe_replace(time_entries, st),
                            };
                            Ok(
                                SyncPrep {
                                    client_resolution: rc,
                                    server_resolution,
                                    stopped: Some(st_copy),
                                },
                            )
                        },
                        None => Ok(
                            SyncPrep {
                                client_resolution: rc,
                                server_resolution: rs,
                                stopped: None,
                            },
                        ),
                    }
                },
            }
        },
    }
}

/// Some result in the list reports a failed push of the given id.
pub open spec fn spec_any_failed(id: Id, s: Seq<SyncResult<TimeEntry>>) -> bool {
    exists|i: int| 0 <= i < s.len() && spec_has_failed(id, s[i])
}

/// Some result in the list reports the given id as newly created.
pub open spec fn spec_any_created(id: Id, s: Seq<SyncResult<TimeEntry>>) -> bool {
    exists|i: int| 0 <= i < s.len() && spec_has_been_created(id, s[i])
}

fn any_failed(id: Id, s: &Vec<SyncResult<TimeEntry>>) -> (r: bool)
    ensures
        r == spec_any_failed(id, s@),
{
    let mut i: usize = 0;
    while i < s.len()
        invariant
            i <= s.len(),
            forall|k: int| 0 <= k < i ==> !spec_has_failed(id, s@[k]),
        decreases s.len() - i,
    {
        if crate::arbiter::has_failed(&id, &s[i]) {
            return true;
        }
        i = i + 1;
    }
    false
}

fn any_created(id: Id, s: &Vec<SyncResult<TimeEntry>>) -> (r: bool)
    ensures
        r == spec_any_created(id, s@),
{
    let mut i: usize = 0;
    while i < s.len()
        invariant
            i <= s.len(),
            forall|k: int| 0 <= k < i ==> !spec_has_been_created(id, s@[k]),
        decreases s.len() - i,
    {
        if crate::arbiter::has_been_created(&id, &s[i]) {
            return true;
        }
        i = i + 1;
    }
    false
}

/// The client resolution as it stands after the push: the stopped entry's
/// directive is mirrored in unless the push failed for that id (the client
/// must not be told about a change the store refused) or the entry came back
/// as newly created (the created payload already encodes the stopped state).
pub open spec fn spec_client_resolution_after_push(
    client_resolution: ResolutionView,
    stopped: Option<TimeEntry>,
    server_time_entries: Seq<SyncResult<TimeEntry>>,
) -> ResolutionView {
    match stopped {
        Some(st) => if !spec_any_failed(st.spec_id(), server_time_entries) && !spec_any_created(
            st.spec_id(),
            server_time_entries,
        ) {
            ResolutionView {
                time_entries: spec_push_replace(client_resolution.time_entries, st),
                ..client_resolution
            }
        } else {
            client_resolution
        },
        None => client_resolution,
    }
}

/// The final report of a pass: the client resolution (with the mirrored stop
/// directive where it is owed) converted to outcome shape, concatenated with
/// the live push outcome; the client-derived user slot wins a tie.
pub open spec fn spec_finish(
    client_resolution: ResolutionView,
    stopped: Option<TimeEntry>,
    server_outcome: OutcomeView,
) -> OutcomeView {
    let cres = spec_client_resolution_after_push(
        client_resolution,
        stopped,
        server_outcome.time_entries,
    );
    let cu = spec_user_result(cres.user);
    OutcomeView {
        user: if cu is Some {
            cu
        } else {
            server_outcome.user
        },
        projects: spec_to_results(cres.projects) + server_outcome.projects,
        time_entries: spec_to_results(cres.time_entries) + server_outcome.time_entries,
    }
}

/// Assembles the final outcome once the push ran; see [`spec_finish`].
pub fn finish_sync(
    client_resolution: SyncResolution,
    stopped: Option<TimeEntry>,
    server_outcome: SyncOutcome,
) -> (r: SyncOutcome)
    ensures
        r@ == spec_finish(client_resolution@, stopped, server_outcome@),
{
    let cres = match stopped {
        Some(st) => {
            let failed_here = any_failed(st.id(), &server_outcome.time_entries);
            let created_here = any_created(st.id(), &server_outcome.time_entries);
            if !failed_here && !created_here {
                let SyncResolution { user, projects, time_entries } = client_resolution;
                SyncResolution {
                    user,
                    projects,
                    time_entries: push_and_maybe_replace(time_entries, st),
                }
            } else {
                client_resolution
            }
        },
        None => client_resolution,
    };
    let converted = SyncOutcome::convert(cres);
    let merged = SyncOutcome::merge(converted, server_outcome);
    assert(merged@ =~= spec_finish(client_resolution@, stopped, server_outcome@));
    merged
}

/// The entities of one fetched collection that really changed since the
/// reference point: the store's "changed since" query may return false
/// positives, which are dropped here.
pub open spec fn spec_filter_since<T: Entity>(s: Seq<T>, since: Option<Timestamp>) -> Seq<T>
    decreases s.len(),
{
    if s.len() == 0 {
        Seq::<T>::empty()
    } else {
        (if (match since {
            Some(t) => t <= s[0].spec_at(),
            None => true,
        }) {
            seq![s[0]]
        } else {
            Seq::<T>::empty()
        }) + spec_filter_since(s.drop_first(), since)
    }
}

fn filter_since<T: Entity>(v: Vec<T>, since: Option<Timestamp>) -> (r: Vec<T>)
    ensures
        r@ == spec_filter_since(v@, since),
{
    let ghost orig: Seq<T> = v@;
    let mut v = v;
    let mut r: Vec<T> = Vec::new();
    assert(r@ + spec_filter_since(v@, since) =~= spec_filter_since(orig, since));
    while v.len() > 0
        invariant
            r@ + spec_filter_since(v@, since) =~= spec_filter_since(orig, since),
        decreases v.len(),
    {
        let ghost pre: Seq<T> = v@;
        let e = v.remove(0);
        proof {
            assert(v@ =~= pre.drop_first());
        }
        let keep: bool = match since {
            Some(t) => t <= e.last_update(),
            None => true,
        };
        if keep {
            r.push(e);
        }
        proof {
            assert(r@ + spec_filter_since(v@, since) =~= spec_filter_since(orig, since));
        }
    }
    assert(r@ =~= spec_filter_since(orig, since));
    r
}

/// Assembles the server delta from the fetched collections, dropping the
/// false positives of the store's "changed since" queries.
pub fn delta_from_fetched(
    user: User,
    projects: Vec<Project>,
    time_entries: Vec<TimeEntry>,
    since: Option<Timestamp>,
) -> (r: Delta)
    ensures
        r@.user == Some(user),
        r@.projects == spec_filter_since(projects@, since),
        r@.time_entries == spec_filter_since(time_entries@, since),
{
    Delta {
        user: Some(user),
        projects: filter_since(projects, since),
        time_entries: filter_since(time_entries, since),
    }
}

} // verus!
