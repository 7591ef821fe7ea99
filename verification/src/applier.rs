//! The change applier's decision half. Pushing a server resolution to the
//! remote store alternates remote calls with bookkeeping; everything that can
//! be decided from plain values is here: which call each directive needs,
//! what each call's outcome means, and how freshly minted project ids are
//! rewritten into the time entries that reference them.
//!
//! The caller runs the loop: it takes the planned requests, performs one
//! remote call per request, and hands the responses back in the same order.

use vstd::prelude::*;

use crate::error::Error;
use crate::models::{Entity, Id, Project, TimeEntry};
use crate::outcome::SyncResult;
use crate::resolution::ConflictResolution;

verus! {

/// The remote call one directive needs: a creation for an entity the store
/// does not hold yet, a replacement for one it does.
#[derive(Debug, Clone, PartialEq)]
pub enum PushRequest<T> {
    Create(T),
    Update(T),
}

/// What one remote call came back with: the stored entity for a creation, a
/// bare acknowledgement for an update, or an error.
#[derive(Debug, Clone, PartialEq)]
pub enum PushResponse<T> {
    Created(T),
    Updated,
    Failed(Error),
}

/// The entity a request would push.
pub open spec fn spec_request_payload<T>(r: PushRequest<T>) -> T {
    match r {
        PushRequest::Create(e) => e,
        PushRequest::Update(e) => e,
    }
}

/// The calls a list of directives needs, in order: one per `Create` or
/// `Update` directive, none for `Ignore`; an entity that exists on the store
/// (positive id) is updated, any other is created.
pub open spec fn spec_plan<T: Entity>(s: Seq<ConflictResolution<T>>) -> Seq<PushRequest<T>>
    decreases s.len(),
{
    if s.len() == 0 {
        Seq::<PushRequest<T>>::empty()
    } else {
        (match s[0] {
            ConflictResolution::Create(e) => seq![spec_request_for(e)],
            ConflictResolution::Update(_, e) => seq![spec_request_for(e)],
            ConflictResolution::Ignore => Seq::<PushRequest<T>>::empty(),
        }) + spec_plan(s.drop_first())
    }
}

/// The call one entity needs, by whether it already exists on the store.
pub open spec fn spec_request_for<T: Entity>(e: T) -> PushRequest<T> {
    if e.spec_id() > 0 {
        PushRequest::Update(e)
    } else {
        PushRequest::Create(e)
    }
}

/// See [`spec_plan`].
pub fn plan_requests<T: Entity>(directives: Vec<ConflictResolution<T>>) -> (r: Vec<
    PushRequest<T>,
>)
    ensures
        r@ == spec_plan(directives@),
{
    let ghost orig: Seq<ConflictResolution<T>> = directives@;
    let mut directives = directives;
    let mut r: Vec<PushRequest<T>> = Vec::new();
    assert(r@ + spec_plan(directives@) =~= spec_plan(orig));
    while directives.len() > 0
        invariant
            r@ + spec_plan(directives@) =~= spec_plan(orig),
        decreases directives.len(),
    {
        let ghost pre: Seq<ConflictResolution<T>> = directives@;
        let d = directives.remove(0);
        proof {
            assert(directives@ =~= pre.drop_first());
        }
        match d {
            ConflictResolution::Create(e) => {
                if e.exists_on_server() {
                    r.push(PushRequest::Update(e));
                } else {
                    r.push(PushRequest::Create(e));
                }
            },
            ConflictResolution::Update(_, e) => {
                if e.exists_on_server() {
                    r.push(PushRequest::Update(e));
                } else {
                    r.push(PushRequest::Create(e));
                }
            },
            ConflictResolution::Ignore => {},
        }
        proof {
            assert(r@ + spec_plan(directives@) =~= spec_plan(orig));
        }
    }
    assert(r@ =~= spec_plan(orig));
    r
}

/// The reported outcome of one performed call, keeping the boundary total:
/// a creation comes back as `Created` under the pushed entity's
/// client-assigned id, an acknowledged update as a plain `Changed` of the
/// pushed entity, and an error as `Failed`.
pub open spec fn spec_one_outcome<T: Entity>(req: PushRequest<T>, resp: PushResponse<T>) -> Seq<
    SyncResult<T>,
> {
    match resp {
        PushResponse::Created(stored) => seq![
            SyncResult::Created {
                client_assigned_id: spec_request_payload(req).spec_id(),
                entity: stored,
            },
        ],
        PushResponse::Updated => seq![SyncResult::Changed(spec_request_payload(req))],
        PushResponse::Failed(err) => seq![
            spec_failed_result(spec_request_payload(req).spec_id(), err),
        ],
    }
}

/// The failure report [`crate::outcome::failed`] builds for a remote-call
/// error; an invariant violation is no remote-call error and never stands in
/// a push response.
pub open spec fn spec_failed_result<T: Entity>(id: Id, err: Error) -> SyncResult<T> {
    match err {
        Error::ApiError(code, message) => SyncResult::Failed {
            client_assigned_id: id,
            code,
            message,
        },
        Error::NetworkError(message) => SyncResult::Failed {
            client_assigned_id: id,
            code: 0u16,
            message,
        },
        Error::InvariantViolation => SyncResult::Failed {
            client_assigned_id: id,
            code: 0u16,
            message: vstd::pervasive::arbitrary(),
        },
    }
}

/// The outcomes of a performed phase, request by request; see
/// [`spec_one_outcome`].
pub open spec fn spec_outcomes<T: Entity>(
    reqs: Seq<PushRequest<T>>,
    resps: Seq<PushResponse<T>>,
) -> Seq<SyncResult<T>>
    decreases reqs.len(),
{
    if reqs.len() == 0 {
        Seq::<SyncResult<T>>::empty()
    } else {
        spec_one_outcome(reqs[0], resps[0]) + spec_outcomes(reqs.drop_first(), resps.drop_first())
    }
}

/// Turns the responses of one performed phase into outcome reports, request
/// by request. Each request's outcome depends on its own response alone, so
/// one failed call never disturbs its siblings' reports.
pub fn collect_outcomes<T: Entity>(
    requests: Vec<PushRequest<T>>,
    responses: Vec<PushResponse<T>>,
) -> (r: Vec<SyncResult<T>>)
    requires
        requests@.len() == responses@.len(),
        forall|i: int|
            0 <= i < responses@.len() ==> !((#[trigger] responses@[i]) matches PushResponse::Failed(
                Error::InvariantViolation,
            )),
    ensures
        r@ == spec_outcomes(requests@, responses@),
{
    let ghost oreq: Seq<PushRequest<T>> = requests@;
    let ghost oresp: Seq<PushResponse<T>> = responses@;
    let mut requests = requests;
    let mut responses = responses;
    let mut r: Vec<SyncResult<T>> = Vec::new();
    assert(r@ + spec_outcomes(requests@, responses@) =~= spec_outcomes(oreq, oresp));
    while requests.len() > 0
        invariant
            requests@.len() == responses@.len(),
            forall|i: int|
                0 <= i < responses@.len() ==> !((#[trigger] responses@[i])
                    matches PushResponse::Failed(Error::InvariantViolation)),
            r@ + spec_outcomes(requests@, responses@) =~= spec_outcomes(oreq, oresp),
        decreases requests.len(),
    {
        let ghost preq: Seq<PushRequest<T>> = requests@;
        let ghost presp: Seq<PushResponse<T>> = responses@;
        let req = requests.remove(0);
        let resp = responses.remove(0);
        proof {
            assert(requests@ =~= preq.drop_first());
            assert(responses@ =~= presp.drop_first());
        }
        let ghost req_spec: PushRequest<T> = req;
        let payload = match req {
            PushRequest::Create(e) => e,
            PushRequest::Update(e) => e,
        };
        let payload_id = payload.id();
        assert(payload == spec_request_payload(req_spec));
        match resp {
            PushResponse::Created(stored) => {
                r.push(SyncResult::Created { client_assigned_id: payload_id, entity: stored });
            },
            PushResponse::Updated => {
                r.push(SyncResult::Changed(payload));
            },
            PushResponse::Failed(err) => {
                r.push(crate::outcome::failed(payload_id, err));
            },
        }
        proof {
            assert(r@ + spec_outcomes(requests@, responses@) =~= spec_outcomes(oreq, oresp));
        }
    }
    assert(r@ =~= spec_outcomes(oreq, oresp));
    r
}

/// The id remap table a project phase yields: for every newly created
/// project, its client-assigned placeholder id next to the id the store
/// assigned.
pub open spec fn spec_id_map(outcomes: Seq<SyncResult<Project>>) -> Seq<(Id, Id)>
    decreases outcomes.len(),
{
    if outcomes.len() == 0 {
        Seq::<(Id, Id)>::empty()
    } else {
        (match outcomes[0] {
            SyncResult::Created { client_assigned_id, entity } => seq![
                (client_assigned_id, entity.spec_id()),
            ],
            _ => Seq::<(Id, Id)>::empty(),
        }) + spec_id_map(outcomes.drop_first())
    }
}

/// See [`spec_id_map`].
pub fn project_id_map(outcomes: &Vec<SyncResult<Project>>) -> (r: Vec<(Id, Id)>)
    ensures
        r@ == spec_id_map(outcomes@),
{
    let mut r: Vec<(Id, Id)> = Vec::new();
    let mut i: usize = 0;
    assert(outcomes@.skip(0) =~= outcomes@);
    while i < outcomes.len()
        invariant
            i <= outcomes.len(),
            r@ + spec_id_map(outcomes@.skip(i as int)) =~= spec_id_map(outcomes@),
        decreases outcomes.len() - i,
    {
        proof {
            assert(outcomes@.skip(i as int)[0] == outcomes@[i as int]);
            assert(outcomes@.skip(i as int).drop_first() =~= outcomes@.skip(i as int + 1));
        }
        match &outcomes[i] {
            SyncResult::Created { client_assigned_id, entity } => {
                r.push((*client_assigned_id, entity.id()));
            },
            _ => {},
        }
        i = i + 1;
    }
    assert(outcomes@.skip(outcomes@.len() as int) =~= Seq::<SyncResult<Project>>::empty());
    assert(r@ + Seq::<(Id, Id)>::empty() =~= r@);
    r
}

/// The first mapping for the given id, if any.
pub open spec fn spec_lookup(map: Seq<(Id, Id)>, id: Id) -> Option<Id>
    decreases map.len(),
{
    if map.len() == 0 {
        None
    } else if map[0].0 == id {
        Some(map[0].1)
    } else {
        spec_lookup(map.drop_first(), id)
    }
}

fn lookup(map: &Vec<(Id, Id)>, id: Id) -> (r: Option<Id>)
    ensures
        r == spec_lookup(map@, id),
{
    let mut i: usize = 0;
    assert(map@.skip(0) =~= map@);
    while i < map.len()
        invariant
            i <= map.len(),
            spec_lookup(map@, id) == spec_lookup(map@.skip(i as int), id),
        decreases map.len() - i,
    {
        proof {
            assert(map@.skip(i as int)[0] == map@[i as int]);
            assert(map@.skip(i as int).drop_first() =~= map@.skip(i as int + 1));
        }
        if map[i].0 == id {
            return Some(map[i].1);
        }
        i = i + 1;
    }
    assert(map@.skip(map@.len() as int) =~= Seq::<(Id, Id)>::empty());
    None
}

/// A time entry with its project reference rewritten through the remap
/// table, where the table maps it; untouched otherwise.
pub open spec fn spec_remap_entry(te: TimeEntry, map: Seq<(Id, Id)>) -> TimeEntry {
    match te.project_id {
        Some(pid) => match spec_lookup(map, pid) {
            Some(fresh) => TimeEntry { project_id: Some(fresh), ..te },
            None => te,
        },
        None => te,
    }
}

/// A time-entry directive with its payload's project reference rewritten.
pub open spec fn spec_remap_directive(
    d: ConflictResolution<TimeEntry>,
    map: Seq<(Id, Id)>,
) -> ConflictResolution<TimeEntry> {
    match d {
        ConflictResolution::Create(te) => ConflictResolution::Create(spec_remap_entry(te, map)),
        ConflictResolution::Update(id, te) => ConflictResolution::Update(
            id,
            spec_remap_entry(te, map),
        ),
        ConflictResolution::Ignore => ConflictResolution::Ignore,
    }
}

/// Rewrites, in every time-entry directive, a project reference that still
/// holds a client-assigned placeholder id into the id the store assigned
/// during the project phase.
pub fn remap_time_entries(
    directives: Vec<ConflictResolution<TimeEntry>>,
    map: &Vec<(Id, Id)>,
) -> (r: Vec<ConflictResolution<TimeEntry>>)
    ensures
        r@ == directives@.map_values(
            |d: ConflictResolution<TimeEntry>| spec_remap_directive(d, map@),
        ),
{
    let ghost orig: Seq<ConflictResolution<TimeEntry>> = directives@;
    let mut directives = directives;
    let mut r: Vec<ConflictResolution<TimeEntry>> = Vec::new();
    while directives.len() > 0
        invariant
            r@ + directives@.map_values(
                |d: ConflictResolution<TimeEntry>| spec_remap_directive(d, map@),
            ) =~= orig.map_values(
                |d: ConflictResolution<TimeEntry>| spec_remap_directive(d, map@),
            ),
        decreases directives.len(),
    {
        let ghost pre: Seq<ConflictResolution<TimeEntry>> = directives@;
        let d = directives.remove(0);
        proof {
            assert(directives@ =~= pre.drop_first());
        }
        let mapped = match d {
            ConflictResolution::Create(te) => ConflictResolution::Create(remap_entry(te, map)),
            ConflictResolution::Update(id, te) => ConflictResolution::Update(
                id,
                remap_entry(te, map),
            ),
            ConflictResolution::Ignore => ConflictResolution::Ignore,
        };
        r.push(mapped);
        proof {
            assert(r@ + directives@.map_values(
                |q: ConflictResolution<TimeEntry>| spec_remap_directive(q, map@),
            ) =~= orig.map_values(
                |q: ConflictResolution<TimeEntry>| spec_remap_directive(q, map@),
            ));
        }
    }
    assert(r@ =~= orig.map_values(|q: ConflictResolution<TimeEntry>| spec_remap_directive(q, map@)));
    r
}

fn remap_entry(te: TimeEntry, map: &Vec<(Id, Id)>) -> (r: TimeEntry)
    ensures
        r == spec_remap_entry(te, map@),
{
    match te.project_id {
        Some(pid) => {
            match lookup(map, pid) {
                Some(fresh) => TimeEntry { project_id: Some(fresh), ..te },
                None => te,
            }
        },
        None => te,
    }
}

/// The report for a user directive: the store boundary does not support
/// pushing the user record, and an unsupported operation is an explicit
/// failure, never a silent omission.
pub fn user_push_outcome(user: Option<ConflictResolution<crate::models::User>>) -> (r: Option<
    SyncResult<crate::models::User>,
>)
    ensures
        match user {
            Some(ConflictResolution::Create(e)) => r matches Some(res)
                && spec_unsupported_user(e.spec_id(), res),
            Some(ConflictResolution::Update(_, e)) => r matches Some(res)
                && spec_unsupported_user(e.spec_id(), res),
            _ => r is None,
        },
{
    match user {
        Some(ConflictResolution::Create(e)) => {
            let id = e.id();
            Some(unsupported_user(id))
        },
        Some(ConflictResolution::Update(_, e)) => {
            let id = e.id();
            Some(unsupported_user(id))
        },
        _ => None,
    }
}

/// A failure report that says the store cannot update the user record.
pub open spec fn spec_unsupported_user(id: Id, r: SyncResult<crate::models::User>) -> bool {
    r matches SyncResult::Failed { client_assigned_id, code, message } && client_assigned_id == id
        && code == 501 && message@ == "updating the user is not supported"@
}

fn unsupported_user(id: Id) -> (r: SyncResult<crate::models::User>)
    ensures
        spec_unsupported_user(id, r),
{
    SyncResult::Failed {
        client_assigned_id: id,
        code: 501,
        message: "updating the user is not supported".to_owned(),
    }
}

} // verus!
