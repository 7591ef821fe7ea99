//! The outcome algebra: what actually happened to each entity once a sync
//! pass ran, and how the client-side resolution and the live push results are
//! merged into the final report.

use vstd::prelude::*;

use crate::error::Error;
use crate::models::{Delta, Entity, Id, Project, TimeEntry, User};
use crate::resolution::{ConflictResolution, SyncResolution};

verus! {

/// What happened to one entity: it changed in place, it was created on the
/// store under a fresh id, or its push failed.
#[derive(Debug, Clone, PartialEq)]
pub enum SyncResult<T> {
    Changed(T),
    Created { client_assigned_id: Id, entity: T },
    Failed { client_assigned_id: Id, code: u16, message: String },
}

/// The caller-facing report of one sync pass, one slot per entity kind.
#[derive(Debug, Clone, PartialEq)]
pub struct SyncOutcome {
    pub user: Option<SyncResult<User>>,
    pub projects: Vec<SyncResult<Project>>,
    pub time_entries: Vec<SyncResult<TimeEntry>>,
}

/// The mathematical shape of a [`SyncOutcome`].
#[verifier::ext_equal]
pub ghost struct OutcomeView {
    pub user: Option<SyncResult<User>>,
    pub projects: Seq<SyncResult<Project>>,
    pub time_entries: Seq<SyncResult<TimeEntry>>,
}

impl View for SyncOutcome {
    type V = OutcomeView;

    open spec fn view(&self) -> OutcomeView {
        OutcomeView {
            user: self.user,
            projects: self.projects@,
            time_entries: self.time_entries@,
        }
    }
}

pub fn changed<T: Entity>(entity: T) -> (r: SyncResult<T>)
    ensures
        r == SyncResult::Changed(entity),
{
    SyncResult::<T>::Changed(entity)
}

pub fn created<T: Entity>(client_assigned_id: Id, entity: T) -> (r: SyncResult<T>)
    ensures
        r == (SyncResult::Created { client_assigned_id, entity }),
{
    SyncResult::<T>::Created { client_assigned_id, entity }
}

/// The failure report for one entity: a rejected call keeps its HTTP status
/// and body; a transport failure is reported under the sentinel code 0 with
/// its description; the engine's own invariant violation never reaches a
/// per-entity report but is mapped totally all the same.
pub fn failed<T: Entity>(client_assigned_id: Id, err: Error) -> (r: SyncResult<T>)
    ensures
        match err {
            Error::ApiError(code, message) => r == (SyncResult::<T>::Failed {
                client_assigned_id,
                code,
                message,
            }),
            Error::NetworkError(message) => r == (SyncResult::<T>::Failed {
                client_assigned_id,
                code: 0u16,
                message,
            }),
            Error::InvariantViolation => r matches SyncResult::Failed {
                client_assigned_id: cid,
                code,
                message,
            } && cid == client_assigned_id && code == 0 && message@
                == "internal invariant violation"@,
        },
{
    let (code, message) = match err {
        Error::ApiError(code, message) => (code, message),
        Error::NetworkError(message) => (0, message),
        Error::InvariantViolation => (0, "internal invariant violation".to_owned()),
    };
    SyncResult::<T>::Failed { client_assigned_id, code, message }
}

impl<T: Entity> SyncResult<T> {
    /// The result a directive applied locally reports: a plain change.
    pub fn from(entity: T) -> (r: SyncResult<T>)
        ensures
            r == SyncResult::Changed(entity),
    {
        SyncResult::<T>::Changed(entity)
    }

    /// A deep copy that is equal, as a value, to the original.
    pub fn dup(&self) -> (r: SyncResult<T>)
        ensures
            r == *self,
    {
        match self {
            SyncResult::Changed(e) => SyncResult::Changed(e.dup()),
            SyncResult::Created { client_assigned_id, entity } => SyncResult::Created {
                client_assigned_id: *client_assigned_id,
                entity: entity.dup(),
            },
            SyncResult::Failed { client_assigned_id, code, message } => SyncResult::Failed {
                client_assigned_id: *client_assigned_id,
                code: *code,
                message: message.clone(),
            },
        }
    }
}

/// The results a list of directives reports when applied locally, with no
/// round trip: adopted and replaced entities are plain changes, empty
/// directives report nothing.
pub open spec fn spec_to_results<T: Entity>(s: Seq<ConflictResolution<T>>) -> Seq<SyncResult<T>>
    decreases s.len(),
{
    if s.len() == 0 {
        Seq::<SyncResult<T>>::empty()
    } else {
        (match s[0] {
            ConflictResolution::Create(e) => seq![SyncResult::Changed(e)],
            ConflictResolution::Update(_, e) => seq![SyncResult::Changed(e)],
            ConflictResolution::Ignore => Seq::<SyncResult<T>>::empty(),
        }) + spec_to_results(s.drop_first())
    }
}

/// The result the user slot of a resolution reports when applied locally.
pub open spec fn spec_user_result(d: Option<ConflictResolution<User>>) -> Option<
    SyncResult<User>,
> {
    match d {
        Some(ConflictResolution::Create(e)) => Some(SyncResult::Changed(e)),
        Some(ConflictResolution::Update(_, e)) => Some(SyncResult::Changed(e)),
        _ => None,
    }
}

fn to_results<T: Entity>(directives: Vec<ConflictResolution<T>>) -> (r: Vec<SyncResult<T>>)
    ensures
        r@ == spec_to_results(directives@),
{
    let ghost orig: Seq<ConflictResolution<T>> = directives@;
    let mut directives = directives;
    let mut r: Vec<SyncResult<T>> = Vec::new();
    assert(r@ + spec_to_results(directives@) =~= spec_to_results(orig));
    while directives.len() > 0
        invariant
            r@ + spec_to_results(directives@) =~= spec_to_results(orig),
        decreases directives.len(),
    {
        let ghost pre: Seq<ConflictResolution<T>> = directives@;
        let d = directives.remove(0);
        proof {
            assert(directives@ =~= pre.drop_first());
        }
        match d {
            ConflictResolution::Create(e) => {
                r.push(SyncResult::Changed(e));
            },
            ConflictResolution::Update(_, e) => {
                r.push(SyncResult::Changed(e));
            },
            ConflictResolution::Ignore => {},
        }
        proof {
            assert(r@ + spec_to_results(directives@) =~= spec_to_results(orig));
        }
    }
    assert(r@ =~= spec_to_results(orig));
    r
}

/// Some entity in `known` is, field by field, the same as `e`.
pub open spec fn spec_known<T: Entity>(known: Seq<T>, e: T) -> bool {
    exists|k: int| 0 <= k < known.len() && known[k].same_spec(&e)
}

fn known_contains<T: Entity>(known: &Vec<T>, e: &T) -> (r: bool)
    ensures
        r == spec_known(known@, *e),
{
    let mut k: usize = 0;
    while k < known.len()
        invariant
            k <= known.len(),
            forall|j: int| 0 <= j < k ==> !known@[j].same_spec(e),
        decreases known.len() - k,
    {
        if known[k].same_as(e) {
            return true;
        }
        k = k + 1;
    }
    false
}

/// The list with every plain change dropped whose entity the other side
/// already knows; creations and failures always stay.
pub open spec fn spec_remove_unchanged<T: Entity>(changes: Seq<SyncResult<T>>, known: Seq<T>)
    -> Seq<SyncResult<T>>
    decreases changes.len(),
{
    if changes.len() == 0 {
        Seq::<SyncResult<T>>::empty()
    } else {
        let rest = spec_remove_unchanged(changes.drop_last(), known);
        match changes.last() {
            SyncResult::Changed(e) => if spec_known(known, e) {
                rest
            } else {
                rest + seq![changes.last()]
            },
            _ => rest + seq![changes.last()],
        }
    }
}

fn remove_unchanged_in_list<T: Entity>(changes: &Vec<SyncResult<T>>, known_changes: Vec<T>) -> (r:
    Vec<SyncResult<T>>)
    ensures
        r@ == spec_remove_unchanged(changes@, known_changes@),
{
    let mut r: Vec<SyncResult<T>> = Vec::new();
    let mut i: usize = 0;
    assert(changes@.subrange(0, 0) =~= Seq::<SyncResult<T>>::empty());
    while i < changes.len()
        invariant
            i <= changes.len(),
            r@ == spec_remove_unchanged(changes@.subrange(0, i as int), known_changes@),
        decreases changes.len() - i,
    {
        proof {
            assert(changes@.subrange(0, i as int + 1).drop_last() =~= changes@.subrange(
                0,
                i as int,
            ));
            assert(changes@.subrange(0, i as int + 1).last() == changes@[i as int]);
        }
        let keep: bool = match &changes[i] {
            SyncResult::Changed(e) => !known_contains(&known_changes, e),
            _ => true,
        };
        if keep {
            r.push(changes[i].dup());
        }
        i = i + 1;
    }
    assert(changes@.subrange(0, changes@.len() as int) =~= changes@);
    r
}

impl SyncOutcome {
    /// The outcome a client resolution reports on its own, with no network
    /// call: every adopted or replaced entity is a plain change.
    pub fn convert(resolution: SyncResolution) -> (r: SyncOutcome)
        ensures
            r@.user == spec_user_result(resolution@.user),
            r@.projects == spec_to_results(resolution@.projects),
            r@.time_entries == spec_to_results(resolution@.time_entries),
    {
        let user = match resolution.user {
            Some(ConflictResolution::Create(e)) => Some(SyncResult::Changed(e)),
            Some(ConflictResolution::Update(_, e)) => Some(SyncResult::Changed(e)),
            _ => None,
        };
        SyncOutcome {
            user,
            projects: to_results(resolution.projects),
            time_entries: to_results(resolution.time_entries),
        }
    }

    /// Two outcome reports side by side: the first user slot wins when both
    /// are present, the lists are concatenated in order.
    pub fn merge(a: SyncOutcome, b: SyncOutcome) -> (r: SyncOutcome)
        ensures
            r@.user == (if a@.user is Some {
                a@.user
            } else {
                b@.user
            }),
            r@.projects == a@.projects + b@.projects,
            r@.time_entries == a@.time_entries + b@.time_entries,
    {
        let user = match a.user {
            Some(u) => Some(u),
            None => b.user,
        };
        let mut projects = a.projects;
        let mut b_projects = b.projects;
        projects.append(&mut b_projects);
        let mut time_entries = a.time_entries;
        let mut b_time_entries = b.time_entries;
        time_entries.append(&mut b_time_entries);
        SyncOutcome { user, projects, time_entries }
    }

    /// This outcome with every plain change dropped that the given delta
    /// already contains, entity kind by entity kind; the user slot is kept
    /// as it is.
    pub fn without_unchanged(&self, known_changes: Delta) -> (r: SyncOutcome)
        ensures
            r@.user == self@.user,
            r@.projects == spec_remove_unchanged(self@.projects, known_changes@.projects),
            r@.time_entries == spec_remove_unchanged(
                self@.time_entries,
                known_changes@.time_entries,
            ),
    {
        let user = match &self.user {
            Some(u) => Some(u.dup()),
            None => None,
        };
        SyncOutcome {
            user,
            projects: remove_unchanged_in_list(&self.projects, known_changes.projects),
            time_entries: remove_unchanged_in_list(&self.time_entries, known_changes.time_entries),
        }
    }
}

} // verus!
