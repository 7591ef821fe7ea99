//! The directive algebra: what one side of the sync must do for one entity,
//! and the bundles of directives produced by one resolve pass.

use vstd::prelude::*;

use crate::models::{Entity, Id, Project, TimeEntry, User};

verus! {

/// What one side must do for one entity: adopt a new entity, replace the
/// version it holds under `Id` with the carried one, or do nothing.
#[derive(Debug, Clone, PartialEq)]
pub enum ConflictResolution<T> {
    Create(T),
    Update(Id, T),
    Ignore,
}

/// The directives one side must apply, one slot per entity kind.
#[derive(Debug, Clone, PartialEq)]
pub struct SyncResolution {
    pub user: Option<ConflictResolution<User>>,
    pub projects: Vec<ConflictResolution<Project>>,
    pub time_entries: Vec<ConflictResolution<TimeEntry>>,
}

/// The mathematical shape of a [`SyncResolution`].
#[verifier::ext_equal]
pub ghost struct ResolutionView {
    pub user: Option<ConflictResolution<User>>,
    pub projects: Seq<ConflictResolution<Project>>,
    pub time_entries: Seq<ConflictResolution<TimeEntry>>,
}

impl View for SyncResolution {
    type V = ResolutionView;

    open spec fn view(&self) -> ResolutionView {
        ResolutionView {
            user: self.user,
            projects: self.projects@,
            time_entries: self.time_entries@,
        }
    }
}

/// The id a directive is about, if any: the carried entity's id for `Create`
/// and `Update`, nothing for `Ignore`.
pub open spec fn spec_outcome_id<T: Entity>(d: ConflictResolution<T>) -> Option<Id> {
    match d {
        ConflictResolution::Create(e) => Some(e.spec_id()),
        ConflictResolution::Update(_, e) => Some(e.spec_id()),
        ConflictResolution::Ignore => None,
    }
}

/// Some directive in the sequence is about `id`.
pub open spec fn spec_list_has_id<T: Entity>(s: Seq<ConflictResolution<T>>, id: Id) -> bool {
    exists|i: int| 0 <= i < s.len() && spec_outcome_id(s[i]) == Some(id)
}

/// The two sequences carry a directive about one common id.
pub open spec fn spec_overlap<T: Entity>(
    a: Seq<ConflictResolution<T>>,
    b: Seq<ConflictResolution<T>>,
) -> bool {
    exists|i: int|
        0 <= i < a.len() && spec_outcome_id(a[i]) is Some && spec_list_has_id(
            b,
            spec_outcome_id(a[i])->0,
        )
}

/// The two user slots carry a directive about one common id.
pub open spec fn spec_entities_match<T: Entity>(
    a: Option<ConflictResolution<T>>,
    b: Option<ConflictResolution<T>>,
) -> bool {
    match (a, b) {
        (Some(x), Some(y)) => spec_outcome_id(x) is Some && spec_outcome_id(x)
            == spec_outcome_id(y),
        _ => false,
    }
}

/// The two resolutions carry a directive for one common entity id, in any of
/// the three slots.
pub open spec fn spec_share(a: ResolutionView, b: ResolutionView) -> bool {
    ||| spec_entities_match(a.user, b.user)
    ||| spec_overlap(a.projects, b.projects)
    ||| spec_overlap(a.time_entries, b.time_entries)
}

fn outcome_id<T: Entity>(d: &ConflictResolution<T>) -> (r: Option<Id>)
    ensures
        r == spec_outcome_id(*d),
{
    match d {
        ConflictResolution::Create(e) => Some(e.id()),
        ConflictResolution::Update(_, e) => Some(e.id()),
        ConflictResolution::Ignore => None,
    }
}

fn list_has_id<T: Entity>(v: &Vec<ConflictResolution<T>>, id: Id) -> (r: bool)
    ensures
        r == spec_list_has_id(v@, id),
{
    let mut i: usize = 0;
    while i < v.len()
        invariant
            i <= v.len(),
            forall|k: int| 0 <= k < i ==> spec_outcome_id(v@[k]) != Some(id),
        decreases v.len() - i,
    {
        match outcome_id(&v[i]) {
            Some(found) => {
                if found == id {
                    return true;
                }
            },
            None => {},
        }
        i = i + 1;
    }
    false
}

fn entities_match<T: Entity>(
    a: &Option<ConflictResolution<T>>,
    b: &Option<ConflictResolution<T>>,
) -> (r: bool)
    ensures
        r == spec_entities_match(*a, *b),
{
    match (a, b) {
        (Some(x), Some(y)) => {
            match (outcome_id(x), outcome_id(y)) {
                (Some(ix), Some(iy)) => ix == iy,
                _ => false,
            }
        },
        _ => false,
    }
}

fn overlap<T: Entity>(
    a: &Vec<ConflictResolution<T>>,
    b: &Vec<ConflictResolution<T>>,
) -> (r: bool)
    ensures
        r == spec_overlap(a@, b@),
{
    let mut i: usize = 0;
    while i < a.len()
        invariant
            i <= a.len(),
            forall|k: int|
                0 <= k < i ==> !(spec_outcome_id(a@[k]) is Some && spec_list_has_id(
                    b@,
                    spec_outcome_id(a@[k])->0,
                )),
        decreases a.len() - i,
    {
        match outcome_id(&a[i]) {
            Some(id) => {
                if list_has_id(b, id) {
                    return true;
                }
            },
            None => {},
        }
        i = i + 1;
    }
    false
}

/// Whether the two resolutions carry a directive for one common entity id.
/// The engine produces disjoint resolutions; a shared id is a defect, not a
/// user error.
pub fn share_entities(a: &SyncResolution, b: &SyncResolution) -> (r: bool)
    ensures
        r == spec_share(a@, b@),
{
    entities_match(&a.user, &b.user) || overlap(&a.projects, &b.projects) || overlap(
        &a.time_entries,
        &b.time_entries,
    )
}

} // verus!
