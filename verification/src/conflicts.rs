//! Pairing and single-entity conflict resolution: given the client's and the
//! server's changes, decide per entity what each side must do.

use vstd::prelude::*;

use crate::error::Error;
use crate::models::{Delta, DeltaView, Entity, Id};
use crate::resolution::{
    spec_share, share_entities, ConflictResolution, ResolutionView, SyncResolution,
};

verus! {

/// Last-write-wins between two versions of one entity that exist on both
/// sides: the side with the strictly older `last_update` is told to adopt
/// the newer version. A timestamp tie resolves toward the server — its clock
/// is authoritative, so the client adopts the server version and the server
/// is left untouched — except that two field-for-field identical versions
/// need no directive at all.
pub open spec fn spec_prefer_newer<T: Entity>(c: T, s: T) -> (Option<ConflictResolution<T>>,
    Option<ConflictResolution<T>>) {
    if c.spec_at() > s.spec_at() {
        (None, Some(ConflictResolution::Update(s.spec_id(), c)))
    } else if s.spec_at() > c.spec_at() {
        (Some(ConflictResolution::Update(c.spec_id(), s)), None)
    } else if c.same_spec(&s) {
        (None, None)
    } else {
        (Some(ConflictResolution::Update(c.spec_id(), s)), None)
    }
}

/// The resolution policy for one paired entity, client directive first:
/// an entity present on one side alone is created on the other; a server-side
/// tombstone always wins over a live client version, whatever the timestamps;
/// otherwise the newer version wins by `last_update`, with ties resolved
/// toward the server (see [`spec_prefer_newer`]).
pub open spec fn spec_resolve_single<T: Entity>(c: Option<T>, s: Option<T>) -> (Option<
    ConflictResolution<T>,
>, Option<ConflictResolution<T>>) {
    match (c, s) {
        (None, None) => (None, None),
        (Some(ce), None) => (None, Some(ConflictResolution::Create(ce))),
        (None, Some(se)) => (Some(ConflictResolution::Create(se)), None),
        (Some(ce), Some(se)) => {
            if !ce.spec_deleted() && se.spec_deleted() {
                (Some(ConflictResolution::Update(ce.spec_id(), se)), None)
            } else {
                spec_prefer_newer(ce, se)
            }
        },
    }
}

/// The index of the first entity with the given id, or -1 when there is none.
pub open spec fn find_id<T: Entity>(s: Seq<T>, id: Id) -> int
    decreases s.len(),
{
    if s.len() == 0 {
        -1
    } else if s[0].spec_id() == id {
        0
    } else {
        let r = find_id(s.drop_first(), id);
        if r == -1 {
            -1
        } else {
            r + 1
        }
    }
}

/// `find_id` returns -1 exactly when no entity carries the id, and otherwise
/// the first index that does.
pub proof fn lemma_find_id<T: Entity>(s: Seq<T>, id: Id)
    ensures
        find_id(s, id) == -1 ==> forall|k: int| 0 <= k < s.len() ==> s[k].spec_id() != id,
        find_id(s, id) != -1 ==> 0 <= find_id(s, id) < s.len() && s[find_id(s, id)].spec_id() == id
            && forall|k: int| 0 <= k < find_id(s, id) ==> s[k].spec_id() != id,
    decreases s.len(),
{
    if s.len() == 0 {
    } else if s[0].spec_id() == id {
    } else {
        lemma_find_id(s.drop_first(), id);
        let r = find_id(s.drop_first(), id);
        if r == -1 {
            assert(find_id(s, id) == -1);
            assert forall|k: int| 0 <= k < s.len() implies s[k].spec_id() != id by {
                if k > 0 {
                    assert(s.drop_first()[k - 1] == s[k]);
                }
            }
        } else {
            assert(find_id(s, id) == r + 1);
            assert(s.drop_first()[r] == s[r + 1]);
            assert forall|k: int| 0 <= k < r + 1 implies s[k].spec_id() != id by {
                if k > 0 {
                    assert(s.drop_first()[k - 1] == s[k]);
                }
            }
        }
    }
}

/// The pairing of two sequences of entities by id. Client entities come
/// first, in order, each next to the first not yet consumed server entity
/// with the same id; server entities that no client entity claimed follow, in
/// their own order, paired with nothing.
pub open spec fn spec_pair<T: Entity>(client: Seq<T>, server: Seq<T>) -> Seq<(Option<T>, Option<
    T,
>)>
    decreases client.len(),
{
    if client.len() == 0 {
        server.map_values(|e: T| (None::<T>, Some(e)))
    } else {
        let c = client[0];
        let j = find_id(server, c.spec_id());
        if j == -1 {
            seq![(Some(c), None::<T>)] + spec_pair(client.drop_first(), server)
        } else {
            seq![(Some(c), Some(server[j]))] + spec_pair(client.drop_first(), server.remove(j))
        }
    }
}

/// The `Some` payloads of a sequence of options, in order.
pub open spec fn collect_some<T>(s: Seq<Option<T>>) -> Seq<T>
    decreases s.len(),
{
    if s.len() == 0 {
        Seq::<T>::empty()
    } else {
        (match s[0] {
            Some(x) => seq![x],
            None => Seq::<T>::empty(),
        }) + collect_some(s.drop_first())
    }
}

/// The client directive of a resolved pair.
pub open spec fn client_directive<T: Entity>(p: (Option<T>, Option<T>)) -> Option<
    ConflictResolution<T>,
> {
    spec_resolve_single(p.0, p.1).0
}

/// The server directive of a resolved pair.
pub open spec fn server_directive<T: Entity>(p: (Option<T>, Option<T>)) -> Option<
    ConflictResolution<T>,
> {
    spec_resolve_single(p.0, p.1).1
}

/// Pairing followed by per-pair resolution, with the empty directives dropped:
/// what each side must do for one kind of entity.
pub open spec fn spec_resolve_lists<T: Entity>(client: Seq<T>, server: Seq<T>) -> (Seq<
    ConflictResolution<T>,
>, Seq<ConflictResolution<T>>) {
    let pairs = spec_pair(client, server);
    (
        collect_some(pairs.map_values(|p: (Option<T>, Option<T>)| client_directive(p))),
        collect_some(pairs.map_values(|p: (Option<T>, Option<T>)| server_directive(p))),
    )
}

/// One resolve pass over a whole delta pair: the user slot is resolved
/// directly, projects and time entries through pairing.
pub open spec fn spec_resolve(client: DeltaView, server: DeltaView) -> (ResolutionView,
    ResolutionView) {
    let (cu, su) = spec_resolve_single(client.user, server.user);
    let (cp, sp) = spec_resolve_lists(client.projects, server.projects);
    let (ct, st) = spec_resolve_lists(client.time_entries, server.time_entries);
    (
        ResolutionView { user: cu, projects: cp, time_entries: ct },
        ResolutionView { user: su, projects: sp, time_entries: st },
    )
}

/// Last-write-wins for two versions that both exist and where no tombstone
/// decides; see [`spec_prefer_newer`].
pub fn prefer_newer<T: Entity>(client: T, server: T) -> (r: (Option<ConflictResolution<T>>,
    Option<ConflictResolution<T>>))
    ensures
        r == spec_prefer_newer(client, server),
{
    if client.last_update() > server.last_update() {
        let sid = server.id();
        (None, Some(ConflictResolution::Update(sid, client)))
    } else if server.last_update() > client.last_update() {
        let cid = client.id();
        (Some(ConflictResolution::Update(cid, server)), None)
    } else if client.same_as(&server) {
        (None, None)
    } else {
        let cid = client.id();
        (Some(ConflictResolution::Update(cid, server)), None)
    }
}

/// The resolution policy for one paired entity; see [`spec_resolve_single`].
pub fn resolve_single<T: Entity>(client: Option<T>, server: Option<T>) -> (r: (Option<
    ConflictResolution<T>,
>, Option<ConflictResolution<T>>))
    ensures
        r == spec_resolve_single(client, server),
{
    match (client, server) {
        (None, None) => (None, None),
        (Some(c), None) => (None, Some(ConflictResolution::Create(c))),
        (None, Some(s)) => (Some(ConflictResolution::Create(s)), None),
        (Some(c), Some(s)) => {
            if !c.is_deleted() && s.is_deleted() {
                let cid = c.id();
                (Some(ConflictResolution::Update(cid, s)), None)
            } else {
                prefer_newer(c, s)
            }
        },
    }
}

/// The first index holding an entity with the given id, if any.
fn find_entity<T: Entity>(v: &Vec<T>, id: Id) -> (r: Option<usize>)
    ensures
        r matches Some(j) ==> j < v@.len() && find_id(v@, id) == j,
        r is None ==> find_id(v@, id) == -1,
{
    let mut j: usize = 0;
    while j < v.len()
        invariant
            j <= v.len(),
            forall|k: int| 0 <= k < j ==> v@[k].spec_id() != id,
        decreases v.len() - j,
    {
        if v[j].id() == id {
            proof {
                lemma_find_id(v@, id);
            }
            return Some(j);
        }
        j = j + 1;
    }
    proof {
        lemma_find_id(v@, id);
    }
    None
}

/// The pairing of two collections of entities by id; see [`spec_pair`].
pub fn pair<T: Entity>(client: Vec<T>, server: Vec<T>) -> (pairs: Vec<(Option<T>, Option<T>)>)
    ensures
        pairs@ == spec_pair(client@, server@),
{
    let ghost cv: Seq<T> = client@;
    let ghost sv: Seq<T> = server@;
    let mut pairs: Vec<(Option<T>, Option<T>)> = Vec::new();
    let mut srv = server;
    let mut i: usize = 0;
    assert(cv.skip(0) =~= cv);
    while i < client.len()
        invariant
            i <= client.len(),
            client@ == cv,
            spec_pair(cv, sv) =~= pairs@ + spec_pair(cv.skip(i as int), srv@),
        decreases client.len() - i,
    {
        let ghost rest: Seq<T> = cv.skip(i as int);
        let ghost srv_pre: Seq<T> = srv@;
        proof {
            assert(rest.len() > 0);
            assert(rest[0] == cv[i as int]);
            assert(rest.drop_first() =~= cv.skip(i as int + 1));
        }
        let c = client[i].dup();
        match find_entity(&srv, c.id()) {
            Some(j) => {
                let s = srv.remove(j);
                pairs.push((Some(c), Some(s)));
                proof {
                    assert(spec_pair(rest, srv_pre) == seq![
                        (Some(cv[i as int]), Some(srv_pre[j as int])),
                    ] + spec_pair(rest.drop_first(), srv_pre.remove(j as int)));
                }
            },
            None => {
                pairs.push((Some(c), None));
                proof {
                    assert(spec_pair(rest, srv_pre) == seq![(Some(cv[i as int]), None::<T>)]
                        + spec_pair(rest.drop_first(), srv_pre));
                }
            },
        }
        proof {
            assert(spec_pair(cv, sv) =~= pairs@ + spec_pair(cv.skip(i as int + 1), srv@));
        }
        i = i + 1;
    }
    assert(cv.skip(cv.len() as int) =~= Seq::<T>::empty());
    while srv.len() > 0
        invariant
            spec_pair(cv, sv) =~= pairs@ + srv@.map_values(|e: T| (None::<T>, Some(e))),
        decreases srv.len(),
    {
        let ghost pre: Seq<T> = srv@;
        let e = srv.remove(0);
        pairs.push((None, Some(e)));
        proof {
            assert(srv@ =~= pre.drop_first());
            assert(pre.map_values(|x: T| (None::<T>, Some(x))) =~= seq![(None::<T>, Some(e))]
                + srv@.map_values(|x: T| (None::<T>, Some(x))));
            assert(spec_pair(cv, sv) =~= pairs@ + srv@.map_values(|x: T| (None::<T>, Some(x))));
        }
    }
    assert(pairs@ =~= spec_pair(cv, sv));
    pairs
}

/// The `Some` payloads of a list of options, in order; see [`collect_some`].
pub fn filter_map<T>(data: Vec<Option<T>>) -> (r: Vec<T>)
    ensures
        r@ == collect_some(data@),
{
    let ghost orig: Seq<Option<T>> = data@;
    let mut data = data;
    let mut r: Vec<T> = Vec::new();
    assert(r@ + collect_some(data@) =~= collect_some(orig));
    while data.len() > 0
        invariant
            r@ + collect_some(data@) =~= collect_some(orig),
        decreases data.len(),
    {
        let ghost pre: Seq<Option<T>> = data@;
        let e = data.remove(0);
        proof {
            assert(data@ =~= pre.drop_first());
        }
        match e {
            Some(x) => {
                r.push(x);
            },
            None => {},
        }
        proof {
            assert(r@ + collect_some(data@) =~= collect_some(orig));
        }
    }
    assert(r@ =~= collect_some(orig));
    r
}

/// Resolves one kind of entity across two collections; see
/// [`spec_resolve_lists`].
fn resolve_many<T: Entity>(client: Vec<T>, server: Vec<T>) -> (r: (Vec<ConflictResolution<T>>,
    Vec<ConflictResolution<T>>))
    ensures
        (r.0@, r.1@) == spec_resolve_lists(client@, server@),
{
    let ghost cv: Seq<T> = client@;
    let ghost sv: Seq<T> = server@;
    let pairs = pair(client, server);
    let ghost pv: Seq<(Option<T>, Option<T>)> = pairs@;
    let mut pairs = pairs;
    let mut for_client: Vec<Option<ConflictResolution<T>>> = Vec::new();
    let mut for_server: Vec<Option<ConflictResolution<T>>> = Vec::new();
    while pairs.len() > 0
        invariant
            for_client@ + pairs@.map_values(|p: (Option<T>, Option<T>)| client_directive(p))
                =~= pv.map_values(|p: (Option<T>, Option<T>)| client_directive(p)),
            for_server@ + pairs@.map_values(|p: (Option<T>, Option<T>)| server_directive(p))
                =~= pv.map_values(|p: (Option<T>, Option<T>)| server_directive(p)),
        decreases pairs.len(),
    {
        let ghost pre: Seq<(Option<T>, Option<T>)> = pairs@;
        let p = pairs.remove(0);
        let (c, s) = resolve_single(p.0, p.1);
        for_client.push(c);
        for_server.push(s);
        proof {
            assert(pairs@ =~= pre.drop_first());
            assert(for_client@ + pairs@.map_values(|q: (Option<T>, Option<T>)| client_directive(q))
                =~= pv.map_values(|q: (Option<T>, Option<T>)| client_directive(q)));
            assert(for_server@ + pairs@.map_values(|q: (Option<T>, Option<T>)| server_directive(q))
                =~= pv.map_values(|q: (Option<T>, Option<T>)| server_directive(q)));
        }
    }
    assert(for_client@ =~= pv.map_values(|p: (Option<T>, Option<T>)| client_directive(p)));
    assert(for_server@ =~= pv.map_values(|p: (Option<T>, Option<T>)| server_directive(p)));
    let rc = filter_map(for_client);
    let rs = filter_map(for_server);
    (rc, rs)
}

/// One full resolve pass: the user slot directly, projects and time
/// entries through pairing, then the internal disjointness check. A shared id
/// across the two resolutions is a defect of the engine and aborts the sync
/// with `Error::InvariantViolation`; on every other input the resolutions are
/// returned as computed.
pub fn resolve(client: Delta, server: Delta) -> (r: Result<
    (SyncResolution, SyncResolution),
    Error,
>)
    ensures
        ({
            let (rc, rs) = spec_resolve(client@, server@);
            if spec_share(rc, rs) {
                r matches Err(e) && e == Error::InvariantViolation
            } else {
                r matches Ok(p) && p.0@ == rc && p.1@ == rs
            }
        }),
{
    let (client_user, server_user) = resolve_single(client.user, server.user);
    let (client_projects, server_projects) = resolve_many(client.projects, server.projects);
    let (client_time_entries, server_time_entries) = resolve_many(
        client.time_entries,
        server.time_entries,
    );
    let client_resolution = SyncResolution {
        user: client_user,
        projects: client_projects,
        time_entries: client_time_entries,
    };
    let server_resolution = SyncResolution {
        user: server_user,
        projects: server_projects,
        time_entries: server_time_entries,
    };
    proof {
        assert(client_resolution@ =~= spec_resolve(client@, server@).0);
        assert(server_resolution@ =~= spec_resolve(client@, server@).1);
    }
    if share_entities(&client_resolution, &server_resolution) {
        Err(Error::InvariantViolation)
    } else {
        Ok((client_resolution, server_resolution))
    }
}

} // verus!
