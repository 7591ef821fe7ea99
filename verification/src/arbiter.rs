//! The running-entry arbiter: at most one timer may run per account. When the
//! client and the server each report a running entry and the two differ, the
//! older one is stopped; the resulting directive is mirrored into both
//! resolutions by the engine.

use vstd::prelude::*;

use crate::error::Error;
use crate::models::{spec_stopped_duration, Delta, DeltaView, Entity, Id, TimeEntry, Timestamp};
use crate::resolution::{spec_outcome_id, ConflictResolution, ResolutionView, SyncResolution};

verus! {

/// The version of `te` the resolution settled on: the payload of the first
/// directive about `te`'s id, or `te` itself when no directive mentions it.
pub open spec fn spec_effect(te: TimeEntry, rs: Seq<ConflictResolution<TimeEntry>>) -> TimeEntry
    decreases rs.len(),
{
    if rs.len() == 0 {
        te
    } else {
        match rs[0] {
            ConflictResolution::Create(e) => if e.spec_id() == te.spec_id() {
                e
            } else {
                spec_effect(te, rs.drop_first())
            },
            ConflictResolution::Update(_, e) => if e.spec_id() == te.spec_id() {
                e
            } else {
                spec_effect(te, rs.drop_first())
            },
            ConflictResolution::Ignore => spec_effect(te, rs.drop_first()),
        }
    }
}

/// The first running time entry of a sequence, if any.
pub open spec fn spec_first_running(s: Seq<TimeEntry>) -> Option<TimeEntry>
    decreases s.len(),
{
    if s.len() == 0 {
        None
    } else if s[0].spec_running() {
        Some(s[0])
    } else {
        spec_first_running(s.drop_first())
    }
}

/// Which of two running entries must be stopped: none when either side has
/// none or both report the same id; otherwise the one whose `last_update` is
/// older (the client's on a tie).
pub open spec fn spec_should_stop(c: Option<TimeEntry>, s: Option<TimeEntry>) -> Option<
    TimeEntry,
> {
    match (c, s) {
        (Some(ce), Some(se)) => if ce.spec_id() == se.spec_id() {
            None
        } else if ce.spec_at() > se.spec_at() {
            Some(se)
        } else {
            Some(ce)
        },
        _ => None,
    }
}

/// `te` stopped at `now`.
pub open spec fn spec_stopped(te: TimeEntry, now: Timestamp) -> TimeEntry {
    TimeEntry { duration: Some(spec_stopped_duration(te.start, now)), ..te }
}

/// The directive that propagates a stopped entry: replace it where it exists
/// on the store, create it where it does not yet.
pub open spec fn spec_stop_directive(te: TimeEntry) -> ConflictResolution<TimeEntry> {
    if te.spec_id() > 0 {
        ConflictResolution::Update(te.spec_id(), te)
    } else {
        ConflictResolution::Create(te)
    }
}

/// The whole arbiter decision: rewrite the server's live running entry and
/// the client's self-reported one through the freshly computed resolutions,
/// pick the loser, and stop it at `now`. A failed live query means no entry
/// is stopped in this pass.
pub open spec fn spec_te_to_stop(
    client_delta: DeltaView,
    client_resolution: ResolutionView,
    server_resolution: ResolutionView,
    running_on_server: Result<Option<TimeEntry>, Error>,
    now: Timestamp,
) -> Option<TimeEntry> {
    match running_on_server {
        Err(_) => None,
        Ok(live) => {
            let on_server = match live {
                Some(te) => Some(spec_effect(te, server_resolution.time_entries)),
                None => None,
            };
            let on_client = match spec_first_running(client_delta.time_entries) {
                Some(te) => Some(spec_effect(te, client_resolution.time_entries)),
                None => None,
            };
            match spec_should_stop(on_client, on_server) {
                Some(te) => Some(spec_stopped(te, now)),
                None => None,
            }
        },
    }
}

/// The list of time-entry directives with every directive about the stopped
/// entry's id replaced by the single stop directive, appended last.
pub open spec fn spec_push_replace(s: Seq<ConflictResolution<TimeEntry>>, stopped: TimeEntry)
    -> Seq<ConflictResolution<TimeEntry>> {
    spec_drop_id(s, stopped.spec_id()) + seq![spec_stop_directive(stopped)]
}

/// The directives that are not about the given id, in order.
pub open spec fn spec_drop_id(s: Seq<ConflictResolution<TimeEntry>>, id: Id) -> Seq<
    ConflictResolution<TimeEntry>,
>
    decreases s.len(),
{
    if s.len() == 0 {
        Seq::<ConflictResolution<TimeEntry>>::empty()
    } else {
        (if spec_outcome_id(s[0]) == Some(id) {
            Seq::<ConflictResolution<TimeEntry>>::empty()
        } else {
            seq![s[0]]
        }) + spec_drop_id(s.drop_first(), id)
    }
}

/// See [`spec_effect`].
pub fn effect_of_conflict_resolution(te: TimeEntry, resolved: &SyncResolution) -> (r: TimeEntry)
    ensures
        r == spec_effect(te, resolved@.time_entries),
{
    let rs = &resolved.time_entries;
    let mut i: usize = 0;
    assert(rs@.skip(0) =~= rs@);
    while i < rs.len()
        invariant
            i <= rs.len(),
            rs@ == resolved@.time_entries,
            spec_effect(te, rs@) == spec_effect(te, rs@.skip(i as int)),
        decreases rs.len() - i,
    {
        proof {
            assert(rs@.skip(i as int)[0] == rs@[i as int]);
            assert(rs@.skip(i as int).drop_first() =~= rs@.skip(i as int + 1));
        }
        match &rs[i] {
            ConflictResolution::Create(e) => {
                if e.id() == te.id() {
                    proof {
                        assert(spec_effect(te, rs@.skip(i as int)) == *e);
                    }
                    return e.dup();
                }
            },
            ConflictResolution::Update(_, e) => {
                if e.id() == te.id() {
                    proof {
                        assert(spec_effect(te, rs@.skip(i as int)) == *e);
                    }
                    return e.dup();
                }
            },
            ConflictResolution::Ignore => {},
        }
        i = i + 1;
    }
    assert(rs@.skip(rs@.len() as int) =~= Seq::<ConflictResolution<TimeEntry>>::empty());
    te
}

/// The first running time entry of a delta's list, if any; see
/// [`spec_first_running`].
fn first_running(time_entries: &Vec<TimeEntry>) -> (r: Option<TimeEntry>)
    ensures
        r == spec_first_running(time_entries@),
{
    let mut i: usize = 0;
    assert(time_entries@.skip(0) =~= time_entries@);
    while i < time_entries.len()
        invariant
            i <= time_entries.len(),
            spec_first_running(time_entries@) == spec_first_running(
                time_entries@.skip(i as int),
            ),
        decreases time_entries.len() - i,
    {
        proof {
            assert(time_entries@.skip(i as int)[0] == time_entries@[i as int]);
            assert(time_entries@.skip(i as int).drop_first() =~= time_entries@.skip(i as int + 1));
        }
        if time_entries[i].is_running() {
            return Some(time_entries[i].dup());
        }
        i = i + 1;
    }
    assert(time_entries@.skip(time_entries@.len() as int) =~= Seq::<TimeEntry>::empty());
    None
}

/// See [`spec_should_stop`].
pub fn should_stop(client_te: Option<TimeEntry>, server_te: Option<TimeEntry>) -> (r: Option<
    TimeEntry,
>)
    ensures
        r == spec_should_stop(client_te, server_te),
{
    match (client_te, server_te) {
        (Some(client), Some(server)) => {
            if client.id() == server.id() {
                None
            } else if client.last_update() > server.last_update() {
                Some(server)
            } else {
                Some(client)
            }
        },
        _ => None,
    }
}

/// The arbiter decision over freshly computed resolutions; see
/// [`spec_te_to_stop`].
pub fn time_entry_which_should_be_stopped(
    client_delta: &Delta,
    client_resolution: &SyncResolution,
    server_resolution: &SyncResolution,
    running_on_server: Result<Option<TimeEntry>, Error>,
    now: Timestamp,
) -> (r: Option<TimeEntry>)
    ensures
        r == spec_te_to_stop(
            client_delta@,
            client_resolution@,
            server_resolution@,
            running_on_server,
            now,
        ),
{
    let live = match running_on_server {
        Ok(live) => live,
        Err(_) => {
            return None;
        },
    };
    let on_server = match live {
        Some(te) => Some(effect_of_conflict_resolution(te, server_resolution)),
        None => None,
    };
    let on_client = match first_running(&client_delta.time_entries) {
        Some(te) => Some(effect_of_conflict_resolution(te, client_resolution)),
        None => None,
    };
    match should_stop(on_client, on_server) {
        Some(te) => Some(te.stop(now)),
        None => None,
    }
}

/// Replaces every directive about the stopped entry's id with the single
/// stop directive, appended last; see [`spec_push_replace`].
pub fn push_and_maybe_replace(
    entries: Vec<ConflictResolution<TimeEntry>>,
    stopped: TimeEntry,
) -> (r: Vec<ConflictResolution<TimeEntry>>)
    ensures
        r@ == spec_push_replace(entries@, stopped),
{
    let ghost orig: Seq<ConflictResolution<TimeEntry>> = entries@;
    let id = stopped.id();
    let mut entries = entries;
    let mut kept: Vec<ConflictResolution<TimeEntry>> = Vec::new();
    assert(kept@ + spec_drop_id(entries@, id) =~= spec_drop_id(orig, id));
    while entries.len() > 0
        invariant
            id == stopped.spec_id(),
            kept@ + spec_drop_id(entries@, id) =~= spec_drop_id(orig, id),
        decreases entries.len(),
    {
        let ghost pre: Seq<ConflictResolution<TimeEntry>> = entries@;
        let d = entries.remove(0);
        proof {
            assert(entries@ =~= pre.drop_first());
        }
        let keep: bool = match &d {
            ConflictResolution::Create(e) => e.id() != id,
            ConflictResolution::Update(_, e) => e.id() != id,
            ConflictResolution::Ignore => true,
        };
        if keep {
            kept.push(d);
        }
        proof {
            assert(kept@ + spec_drop_id(entries@, id) =~= spec_drop_id(orig, id));
        }
    }
    assert(kept@ =~= spec_drop_id(orig, id));
    let directive = if stopped.exists_on_server() {
        let sid = stopped.id();
        ConflictResolution::Update(sid, stopped)
    } else {
        ConflictResolution::Create(stopped)
    };
    kept.push(directive);
    assert(kept@ =~= spec_push_replace(orig, stopped));
    kept
}

/// Whether the result reports a failed push of the entry with the given id.
pub open spec fn spec_has_failed(
    id: Id,
    result: crate::outcome::SyncResult<TimeEntry>,
) -> bool {
    result matches crate::outcome::SyncResult::Failed { client_assigned_id, .. }
        && client_assigned_id == id
}

/// Whether the result reports the entry with the given id as newly created.
pub open spec fn spec_has_been_created(
    id: Id,
    result: crate::outcome::SyncResult<TimeEntry>,
) -> bool {
    result matches crate::outcome::SyncResult::Created { client_assigned_id, .. }
        && client_assigned_id == id
}

pub fn has_failed(id: &Id, result: &crate::outcome::SyncResult<TimeEntry>) -> (r: bool)
    ensures
        r == spec_has_failed(*id, *result),
{
    match result {
        crate::outcome::SyncResult::Failed { client_assigned_id, .. } => *client_assigned_id
            == *id,
        _ => false,
    }
}

pub fn has_been_created(id: &Id, result: &crate::outcome::SyncResult<TimeEntry>) -> (r: bool)
    ensures
        r == spec_has_been_created(*id, *result),
{
    match result {
        crate::outcome::SyncResult::Created { client_assigned_id, .. } => *client_assigned_id
            == *id,
        _ => false,
    }
}

} // verus!
