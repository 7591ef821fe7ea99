//! The entity model: user record, projects and time entries, and the delta
//! bundles that carry everything that changed on one side since a reference
//! point in time.

use vstd::prelude::*;

verus! {

/// Identifier of an entity. Positive ids are assigned by the remote store;
/// non-positive ids are client-local placeholders for entities that were not
/// created on the store yet.
pub type Id = i64;

/// A point in time, in seconds since the Unix epoch.
pub type Timestamp = i64;

pub type ApiToken = String;

#[derive(Debug, Clone, PartialEq)]
pub struct User {
    pub id: Id,
    pub default_workspace_id: Id,
    pub fullname: String,
    pub api_token: ApiToken,
    pub at: Timestamp,
}

#[derive(Debug, Clone, PartialEq)]
pub struct Project {
    pub id: Id,
    pub workspace_id: Id,
    pub name: String,
    pub color: String,
    pub active: bool,
    pub at: Timestamp,
    pub server_deleted_at: Option<Timestamp>,
}

#[derive(Debug, Clone, PartialEq)]
pub struct TimeEntry {
    pub id: Id,
    pub workspace_id: Id,
    pub description: String,
    pub project_id: Option<Id>,
    pub start: Timestamp,
    /// `None` denotes a currently running timer.
    pub duration: Option<u64>,
    pub at: Timestamp,
    pub server_deleted_at: Option<Timestamp>,
}

/// Everything that changed on one side relative to a reference point.
#[derive(Debug, Clone, PartialEq)]
pub struct Delta {
    pub user: Option<User>,
    pub projects: Vec<Project>,
    pub time_entries: Vec<TimeEntry>,
}

/// The mathematical shape of a [`Delta`].
#[verifier::ext_equal]
pub ghost struct DeltaView {
    pub user: Option<User>,
    pub projects: Seq<Project>,
    pub time_entries: Seq<TimeEntry>,
}

impl View for Delta {
    type V = DeltaView;

    open spec fn view(&self) -> DeltaView {
        DeltaView {
            user: self.user,
            projects: self.projects@,
            time_entries: self.time_entries@,
        }
    }
}

/// The capability set shared by all entities: an id, a tombstone, and the
/// timestamp of the last update, plus a deep copy and a deep comparison whose
/// meaning is pinned down for contracts.
pub trait Entity: Sized {
    spec fn spec_id(&self) -> Id;

    spec fn spec_deleted(&self) -> bool;

    spec fn spec_at(&self) -> Timestamp;

    /// Field-by-field sameness; `String` fields are compared by contents.
    spec fn same_spec(&self, other: &Self) -> bool;

    /// Every entity is, field by field, the same as itself.
    proof fn lemma_same_reflexive(&self)
        ensures
            self.same_spec(self),
    ;

    fn id(&self) -> (r: Id)
        ensures
            r == self.spec_id(),
    ;

    fn is_deleted(&self) -> (r: bool)
        ensures
            r == self.spec_deleted(),
    ;

    fn last_update(&self) -> (r: Timestamp)
        ensures
            r == self.spec_at(),
    ;

    /// An entity exists on the remote store exactly when its id is positive.
    fn exists_on_server(&self) -> (r: bool)
        ensures
            r == (self.spec_id() > 0),
    ;

    /// A deep copy that is equal, as a value, to the original.
    fn dup(&self) -> (r: Self)
        ensures
            r == *self,
    ;

    fn same_as(&self, other: &Self) -> (r: bool)
        ensures
            r == self.same_spec(other),
    ;
}

impl Entity for User {
    open spec fn spec_id(&self) -> Id {
        self.id
    }

    open spec fn spec_deleted(&self) -> bool {
        false
    }

    open spec fn spec_at(&self) -> Timestamp {
        self.at
    }

    open spec fn same_spec(&self, other: &Self) -> bool {
        &&& self.id == other.id
        &&& self.default_workspace_id == other.default_workspace_id
        &&& self.fullname@ == other.fullname@
        &&& self.api_token@ == other.api_token@
        &&& self.at == other.at
    }

    proof fn lemma_same_reflexive(&self) {
    }

    fn id(&self) -> Id {
        self.id
    }

    fn is_deleted(&self) -> bool {
        false
    }

    fn last_update(&self) -> Timestamp {
        self.at
    }

    fn exists_on_server(&self) -> bool {
        self.id > 0
    }

    fn dup(&self) -> User {
        User {
            id: self.id,
            default_workspace_id: self.default_workspace_id,
            fullname: self.fullname.clone(),
            api_token: self.api_token.clone(),
            at: self.at,
        }
    }

    fn same_as(&self, other: &Self) -> bool {
        self.id == other.id && self.default_workspace_id == other.default_workspace_id
            && self.fullname == other.fullname && self.api_token == other.api_token
            && self.at == other.at
    }
}

impl Entity for Project {
    open spec fn spec_id(&self) -> Id {
        self.id
    }

    open spec fn spec_deleted(&self) -> bool {
        self.server_deleted_at is Some
    }

    open spec fn spec_at(&self) -> Timestamp {
        self.at
    }

    open spec fn same_spec(&self, other: &Self) -> bool {
        &&& self.id == other.id
        &&& self.workspace_id == other.workspace_id
        &&& self.name@ == other.name@
        &&& self.color@ == other.color@
        &&& self.active == other.active
        &&& self.at == other.at
        &&& self.server_deleted_at == other.server_deleted_at
    }

    proof fn lemma_same_reflexive(&self) {
    }

    fn id(&self) -> Id {
        self.id
    }

    fn is_deleted(&self) -> bool {
        self.server_deleted_at.is_some()
    }

    fn last_update(&self) -> Timestamp {
        self.at
    }

    fn exists_on_server(&self) -> bool {
        self.id > 0
    }

    fn dup(&self) -> Project {
        Project {
            id: self.id,
            workspace_id: self.workspace_id,
            name: self.name.clone(),
            color: self.color.clone(),
            active: self.active,
            at: self.at,
            server_deleted_at: self.server_deleted_at,
        }
    }

    fn same_as(&self, other: &Self) -> bool {
        self.id == other.id && self.workspace_id == other.workspace_id
            && self.name == other.name && self.color == other.color
            && self.active == other.active && self.at == other.at
            && self.server_deleted_at == other.server_deleted_at
    }
}

impl Entity for TimeEntry {
    open spec fn spec_id(&self) -> Id {
        self.id
    }

    open spec fn spec_deleted(&self) -> bool {
        self.server_deleted_at is Some
    }

    open spec fn spec_at(&self) -> Timestamp {
        self.at
    }

    open spec fn same_spec(&self, other: &Self) -> bool {
        &&& self.id == other.id
        &&& self.workspace_id == other.workspace_id
        &&& self.description@ == other.description@
        &&& self.project_id == other.project_id
        &&& self.start == other.start
        &&& self.duration == other.duration
        &&& self.at == other.at
        &&& self.server_deleted_at == other.server_deleted_at
    }

    proof fn lemma_same_reflexive(&self) {
    }

    fn id(&self) -> Id {
        self.id
    }

    fn is_deleted(&self) -> bool {
        self.server_deleted_at.is_some()
    }

    fn last_update(&self) -> Timestamp {
        self.at
    }

    fn exists_on_server(&self) -> bool {
        self.id > 0
    }

    fn dup(&self) -> TimeEntry {
        TimeEntry {
            id: self.id,
            workspace_id: self.workspace_id,
            description: self.description.clone(),
            project_id: self.project_id,
            start: self.start,
            duration: self.duration,
            at: self.at,
            server_deleted_at: self.server_deleted_at,
        }
    }

    fn same_as(&self, other: &Self) -> bool {
        self.id == other.id && self.workspace_id == other.workspace_id
            && self.description == other.description && self.project_id == other.project_id
            && self.start == other.start && self.duration == other.duration
            && self.at == other.at && self.server_deleted_at == other.server_deleted_at
    }
}

/// The duration a timer stopped at `now` reports: the elapsed seconds since
/// `start`, or zero when the clock reads earlier than the start.
pub open spec fn spec_stopped_duration(start: Timestamp, now: Timestamp) -> u64 {
    if now >= start {
        (now - start) as u64
    } else {
        0
    }
}

impl TimeEntry {
    /// A time entry with unset duration represents an active timer.
    pub open spec fn spec_running(&self) -> bool {
        self.duration is None
    }

    pub fn is_running(&self) -> (r: bool)
        ensures
            r == self.spec_running(),
    {
        self.duration.is_none()
    }

    /// The same entry, no longer running: its duration becomes the time
    /// elapsed between its start and `now`.
    pub fn stop(&self, now: Timestamp) -> (r: TimeEntry)
        ensures
            (r == TimeEntry { duration: Some(spec_stopped_duration(self.start, now)), ..*self }),
    {
        let elapsed: u64 = if now >= self.start {
            (now as i128 - self.start as i128) as u64
        } else {
            0
        };
        TimeEntry {
            id: self.id,
            workspace_id: self.workspace_id,
            description: self.description.clone(),
            project_id: self.project_id,
            start: self.start,
            duration: Some(elapsed),
            at: self.at,
            server_deleted_at: self.server_deleted_at,
        }
    }
}

impl Default for Delta {
    /// The empty delta: nothing changed on this side.
    fn default() -> (r: Delta)
        ensures
            r.user is None,
            r.projects@ == Seq::<Project>::empty(),
            r.time_entries@ == Seq::<TimeEntry>::empty(),
    {
        Delta { user: None, projects: Vec::new(), time_entries: Vec::new() }
    }
}

/// A deep copy of a vector of entities, equal to the original element by
/// element.
fn dup_entities<T: Entity>(v: &Vec<T>) -> (r: Vec<T>)
    ensures
        r@ == v@,
{
    let mut r: Vec<T> = Vec::new();
    let mut i: usize = 0;
    while i < v.len()
        invariant
            i <= v.len(),
            r@ =~= v@.subrange(0, i as int),
        decreases v.len() - i,
    {
        r.push(v[i].dup());
        i = i + 1;
    }
    assert(r@ =~= v@);
    r
}

impl Delta {
    /// A deep copy whose fields equal the original's.
    pub fn dup(&self) -> (r: Delta)
        ensures
            r.user == self.user,
            r.projects@ == self.projects@,
            r.time_entries@ == self.time_entries@,
    {
        let user = match &self.user {
            Some(u) => Some(u.dup()),
            None => None,
        };
        Delta {
            user,
            projects: dup_entities(&self.projects),
            time_entries: dup_entities(&self.time_entries),
        }
    }
}

/// No two elements of the sequence carry the same id.
pub open spec fn unique_ids<T: Entity>(s: Seq<T>) -> bool {
    forall|i: int, j: int|
        0 <= i < s.len() && 0 <= j < s.len() && i != j ==> s[i].spec_id() != s[j].spec_id()
}

} // verus!
