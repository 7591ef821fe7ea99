//! The laws the resolver obeys, stated and proved over the same spec
//! functions its contracts use.

use vstd::prelude::*;

use crate::arbiter::{
    spec_drop_id, spec_effect, spec_first_running, spec_push_replace, spec_should_stop,
    spec_stop_directive, spec_stopped, spec_te_to_stop,
};
use crate::conflicts::{
    client_directive, collect_some, find_id, lemma_find_id, server_directive, spec_pair,
    spec_resolve, spec_resolve_lists, spec_resolve_single,
};
use crate::engine::{
    spec_any_created, spec_any_failed, spec_client_resolution_after_push, spec_prepare,
};
use crate::error::Error;
use crate::models::{unique_ids, DeltaView, Entity, Id, TimeEntry, Timestamp};
use crate::outcome::SyncResult;
use crate::resolution::{
    spec_entities_match, spec_list_has_id, spec_outcome_id, spec_overlap, spec_share,
    ConflictResolution,
};

verus! {

/// Some entity of the sequence carries the given id.
pub open spec fn seq_has_id<T: Entity>(s: Seq<T>, id: Id) -> bool {
    exists|i: int| 0 <= i < s.len() && s[i].spec_id() == id
}

/// A well-formed pair holds at least one side, and where it holds both, they
/// carry the same id.
pub open spec fn pair_wf<T: Entity>(p: (Option<T>, Option<T>)) -> bool {
    &&& p.0 is Some || p.1 is Some
    &&& p.0 is Some && p.1 is Some ==> p.0->0.spec_id() == p.1->0.spec_id()
}

/// The id a well-formed pair is about.
pub open spec fn pair_id<T: Entity>(p: (Option<T>, Option<T>)) -> Id {
    match p.0 {
        Some(e) => e.spec_id(),
        None => match p.1 {
            Some(e) => e.spec_id(),
            None => 0,
        },
    }
}

proof fn lemma_unique_drop_first<T: Entity>(s: Seq<T>)
    requires
        unique_ids(s),
        s.len() > 0,
    ensures
        unique_ids(s.drop_first()),
{
    assert forall|i: int, j: int|
        0 <= i < s.drop_first().len() && 0 <= j < s.drop_first().len() && i != j implies s
        .drop_first()[i].spec_id() != s.drop_first()[j].spec_id() by {
        assert(s.drop_first()[i] == s[i + 1]);
        assert(s.drop_first()[j] == s[j + 1]);
    }
}

proof fn lemma_unique_remove<T: Entity>(s: Seq<T>, j: int)
    requires
        unique_ids(s),
        0 <= j < s.len(),
    ensures
        unique_ids(s.remove(j)),
        forall|i: int|
            0 <= i < s.remove(j).len() ==> #[trigger] s.remove(j)[i].spec_id() == (if i < j {
                s[i].spec_id()
            } else {
                s[i + 1].spec_id()
            }),
{
    s.remove_ensures(j);
    assert forall|a: int, b: int|
        0 <= a < s.remove(j).len() && 0 <= b < s.remove(j).len() && a != b implies s.remove(
        j,
    )[a].spec_id() != s.remove(j)[b].spec_id() by {
        let sa: int = if a < j {
            a
        } else {
            a + 1
        };
        let sb: int = if b < j {
            b
        } else {
            b + 1
        };
        assert(s.remove(j)[a] == s[sa]);
        assert(s.remove(j)[b] == s[sb]);
    }
}

/// Over inputs with unique ids, the pairing yields well-formed pairs about
/// pairwise distinct ids, each taken from one of the inputs.
proof fn lemma_pair_ids<T: Entity>(c: Seq<T>, s: Seq<T>)
    requires
        unique_ids(c),
        unique_ids(s),
    ensures
        ({
            let ps = spec_pair(c, s);
            &&& forall|i: int| 0 <= i < ps.len() ==> pair_wf(#[trigger] ps[i])
            &&& forall|i: int, j: int|
                0 <= i < ps.len() && 0 <= j < ps.len() && i != j ==> pair_id(#[trigger] ps[i])
                    != pair_id(#[trigger] ps[j])
            &&& forall|i: int|
                0 <= i < ps.len() ==> seq_has_id(c, pair_id(#[trigger] ps[i])) || seq_has_id(
                    s,
                    pair_id(ps[i]),
                )
        }),
    decreases c.len(),
{
    let ps = spec_pair(c, s);
    if c.len() == 0 {
        assert(ps == s.map_values(|e: T| (None::<T>, Some(e))));
        assert(forall|i: int| 0 <= i < ps.len() ==> ps[i] == (None::<T>, Some(s[i])));
    } else {
        let c0 = c[0];
        let id0 = c0.spec_id();
        let j = find_id(s, id0);
        lemma_find_id(s, id0);
        lemma_unique_drop_first(c);
        assert(forall|k: int| 0 <= k < c.drop_first().len() ==> c.drop_first()[k] == c[k + 1]);
        assert(!seq_has_id(c.drop_first(), id0));
        if j == -1 {
            let tail = spec_pair(c.drop_first(), s);
            lemma_pair_ids(c.drop_first(), s);
            assert(ps == seq![(Some(c0), None::<T>)] + tail);
            assert(pair_wf(ps[0]));
            assert(!seq_has_id(s, id0));
            assert forall|i: int, j2: int|
                0 <= i < ps.len() && 0 <= j2 < ps.len() && i != j2 implies pair_id(ps[i])
                != pair_id(ps[j2]) by {
                if i > 0 && j2 > 0 {
                    assert(ps[i] == tail[i - 1]);
                    assert(ps[j2] == tail[j2 - 1]);
                } else {
                    let other: int = if i == 0 {
                        j2
                    } else {
                        i
                    };
                    assert(ps[other] == tail[other - 1]);
                    assert(seq_has_id(c.drop_first(), pair_id(tail[other - 1])) || seq_has_id(
                        s,
                        pair_id(tail[other - 1]),
                    ));
                }
            }
            assert forall|i: int|
                0 <= i < ps.len() implies seq_has_id(c, pair_id(ps[i])) || seq_has_id(
                s,
                pair_id(ps[i]),
            ) by {
                if i == 0 {
                    assert(pair_id(ps[0]) == id0 && c[0].spec_id() == id0);
                } else {
                    assert(ps[i] == tail[i - 1]);
                    if seq_has_id(c.drop_first(), pair_id(ps[i])) {
                        let w = choose|k: int|
                            0 <= k < c.drop_first().len() && c.drop_first()[k].spec_id() == pair_id(
                                ps[i],
                            );
                        assert(c[w + 1].spec_id() == pair_id(ps[i]));
                    }
                }
            }
        } else {
            let s2 = s.remove(j);
            let tail = spec_pair(c.drop_first(), s2);
            lemma_unique_remove(s, j);
            lemma_pair_ids(c.drop_first(), s2);
            assert(ps == seq![(Some(c0), Some(s[j]))] + tail);
            assert(pair_wf(ps[0]));
            // the head's id is gone from both remainders
            assert(!seq_has_id(s2, id0));
            assert forall|i: int, j2: int|
                0 <= i < ps.len() && 0 <= j2 < ps.len() && i != j2 implies pair_id(ps[i])
                != pair_id(ps[j2]) by {
                if i > 0 && j2 > 0 {
                    assert(ps[i] == tail[i - 1]);
                    assert(ps[j2] == tail[j2 - 1]);
                } else {
                    let other: int = if i == 0 {
                        j2
                    } else {
                        i
                    };
                    assert(ps[other] == tail[other - 1]);
                    assert(seq_has_id(c.drop_first(), pair_id(tail[other - 1])) || seq_has_id(
                        s2,
                        pair_id(tail[other - 1]),
                    ));
                }
            }
            assert forall|i: int|
                0 <= i < ps.len() implies seq_has_id(c, pair_id(ps[i])) || seq_has_id(
                s,
                pair_id(ps[i]),
            ) by {
                if i == 0 {
                    assert(pair_id(ps[0]) == id0 && c[0].spec_id() == id0);
                } else {
                    assert(ps[i] == tail[i - 1]);
                    if seq_has_id(c.drop_first(), pair_id(ps[i])) {
                        let w = choose|k: int|
                            0 <= k < c.drop_first().len() && c.drop_first()[k].spec_id() == pair_id(
                                ps[i],
                            );
                        assert(c[w + 1].spec_id() == pair_id(ps[i]));
                    } else {
                        assert(seq_has_id(s2, pair_id(ps[i])));
                        let w = choose|k: int|
                            0 <= k < s2.len() && s2[k].spec_id() == pair_id(ps[i]);
                        if w < j {
                            assert(s[w].spec_id() == pair_id(ps[i]));
                        } else {
                            assert(s[w + 1].spec_id() == pair_id(ps[i]));
                        }
                    }
                }
            }
        }
    }
}

/// A resolved pair yields a directive on at most one side, and any directive
/// it yields is about the pair's own id.
proof fn lemma_directive_id<T: Entity>(p: (Option<T>, Option<T>))
    requires
        pair_wf(p),
    ensures
        ({
            let (dc, ds) = spec_resolve_single(p.0, p.1);
            &&& !(dc is Some && ds is Some)
            &&& dc matches Some(d) ==> spec_outcome_id(d) == Some(pair_id(p))
            &&& ds matches Some(d) ==> spec_outcome_id(d) == Some(pair_id(p))
        }),
{
}

/// Every element of `collect_some(s)` stands in `s`, wrapped in `Some`.
proof fn lemma_collect_some_membership<T>(s: Seq<Option<T>>, i: int)
    requires
        0 <= i < collect_some(s).len(),
    ensures
        exists|k: int| 0 <= k < s.len() && s[k] == Some(collect_some(s)[i]),
    decreases s.len(),
{
    if s.len() == 0 {
    } else {
        match s[0] {
            Some(_) => {
                if i == 0 {
                    assert(s[0] == Some(collect_some(s)[0]));
                } else {
                    lemma_collect_some_membership(s.drop_first(), i - 1);
                    let k = choose|k: int|
                        0 <= k < s.drop_first().len() && s.drop_first()[k] == Some(
                            collect_some(s.drop_first())[i - 1],
                        );
                    assert(s[k + 1] == Some(collect_some(s)[i]));
                }
            },
            None => {
                lemma_collect_some_membership(s.drop_first(), i);
                let k = choose|k: int|
                    0 <= k < s.drop_first().len() && s.drop_first()[k] == Some(
                        collect_some(s.drop_first())[i],
                    );
                assert(s[k + 1] == Some(collect_some(s)[i]));
            },
        }
    }
}

/// Over inputs with unique ids, the two directive lists one resolve pass
/// yields for one entity kind never share an id.
proof fn lemma_lists_disjoint<T: Entity>(c: Seq<T>, s: Seq<T>)
    requires
        unique_ids(c),
        unique_ids(s),
    ensures
        !spec_overlap(spec_resolve_lists(c, s).0, spec_resolve_lists(c, s).1),
{
    let ps = spec_pair(c, s);
    let mc = ps.map_values(|p: (Option<T>, Option<T>)| client_directive(p));
    let ms = ps.map_values(|p: (Option<T>, Option<T>)| server_directive(p));
    let lc = collect_some(mc);
    let ls = collect_some(ms);
    lemma_pair_ids(c, s);
    if spec_overlap(lc, ls) {
        let i = choose|i: int|
            0 <= i < lc.len() && spec_outcome_id(lc[i]) is Some
                && crate::resolution::spec_list_has_id(ls, spec_outcome_id(lc[i])->0);
        let id = spec_outcome_id(lc[i])->0;
        let j = choose|j: int| 0 <= j < ls.len() && spec_outcome_id(ls[j]) == Some(id);
        lemma_collect_some_membership(mc, i);
        lemma_collect_some_membership(ms, j);
        let k = choose|k: int| 0 <= k < mc.len() && mc[k] == Some(lc[i]);
        let l = choose|l: int| 0 <= l < ms.len() && ms[l] == Some(ls[j]);
        lemma_directive_id(ps[k]);
        lemma_directive_id(ps[l]);
        assert(pair_id(ps[k]) == id);
        assert(pair_id(ps[l]) == id);
        assert(k == l);
        assert(false);
    }
}

/// I1, disjointness: one resolve pass over deltas whose collections carry
/// unique ids never produces a directive for the same entity id in both
/// resolutions — in particular the internal invariant check never trips.
pub proof fn lemma_resolutions_disjoint(client: DeltaView, server: DeltaView)
    requires
        unique_ids(client.projects),
        unique_ids(server.projects),
        unique_ids(client.time_entries),
        unique_ids(server.time_entries),
    ensures
        !spec_share(spec_resolve(client, server).0, spec_resolve(client, server).1),
{
    let (rc, rs) = spec_resolve(client, server);
    assert(!spec_entities_match(rc.user, rs.user));
    lemma_lists_disjoint(client.projects, server.projects);
    lemma_lists_disjoint(client.time_entries, server.time_entries);
}

/// The pairing of a collection with itself: every entity meets its own copy,
/// nothing is left over.
proof fn lemma_pair_self<T: Entity>(s: Seq<T>)
    ensures
        spec_pair(s, s).len() == s.len(),
        forall|i: int| 0 <= i < s.len() ==> spec_pair(s, s)[i] == (Some(s[i]), Some(s[i])),
    decreases s.len(),
{
    if s.len() == 0 {
    } else {
        assert(find_id(s, s[0].spec_id()) == 0);
        assert(s.remove(0) =~= s.drop_first());
        lemma_pair_self(s.drop_first());
        let tail = spec_pair(s.drop_first(), s.drop_first());
        assert(spec_pair(s, s) == seq![(Some(s[0]), Some(s[0]))] + tail);
        assert forall|i: int| 0 <= i < s.len() implies spec_pair(s, s)[i] == (
            Some(s[i]),
            Some(s[i]),
        ) by {
            if i > 0 {
                assert(spec_pair(s, s)[i] == tail[i - 1]);
                assert(s.drop_first()[i - 1] == s[i]);
            }
        }
    }
}

proof fn lemma_drop_id_ids(s: Seq<ConflictResolution<TimeEntry>>, dropped: Id, id: Id)
    requires
        spec_list_has_id(spec_drop_id(s, dropped), id),
    ensures
        spec_list_has_id(s, id),
        id != dropped,
    decreases s.len(),
{
    if s.len() == 0 {
    } else {
        let head: Seq<ConflictResolution<TimeEntry>> = if spec_outcome_id(s[0]) == Some(dropped) {
            Seq::<ConflictResolution<TimeEntry>>::empty()
        } else {
            seq![s[0]]
        };
        let rest = spec_drop_id(s.drop_first(), dropped);
        let i = choose|i: int|
            0 <= i < spec_drop_id(s, dropped).len() && spec_outcome_id(spec_drop_id(s, dropped)[i])
                == Some(id);
        if i < head.len() {
            assert(spec_outcome_id(s[0]) == Some(id));
        } else {
            assert(spec_drop_id(s, dropped)[i] == rest[i - head.len()]);
            assert(spec_list_has_id(rest, id));
            lemma_drop_id_ids(s.drop_first(), dropped, id);
            let k = choose|k: int|
                0 <= k < s.drop_first().len() && spec_outcome_id(s.drop_first()[k]) == Some(id);
            assert(s.drop_first()[k] == s[k + 1]);
        }
    }
}

proof fn lemma_list_has_id_concat<T: Entity>(
    a: Seq<ConflictResolution<T>>,
    b: Seq<ConflictResolution<T>>,
    id: Id,
)
    ensures
        spec_list_has_id(a + b, id) <==> spec_list_has_id(a, id) || spec_list_has_id(b, id),
{
    if spec_list_has_id(a + b, id) {
        let i = choose|i: int| 0 <= i < (a + b).len() && spec_outcome_id((a + b)[i]) == Some(id);
        if i < a.len() {
            assert((a + b)[i] == a[i]);
        } else {
            assert((a + b)[i] == b[i - a.len()]);
        }
    }
    if spec_list_has_id(a, id) {
        let i = choose|i: int| 0 <= i < a.len() && spec_outcome_id(a[i]) == Some(id);
        assert((a + b)[i] == a[i]);
    }
    if spec_list_has_id(b, id) {
        let i = choose|i: int| 0 <= i < b.len() && spec_outcome_id(b[i]) == Some(id);
        assert((a + b)[i + a.len()] == b[i]);
    }
}

/// I1 with its one exception: after the arbiter folded the stop directive
/// into the server resolution and — where owed — the push mirrored it into
/// the client one, the only entity id the two time-entry lists may share is
/// the stopped entry's own; projects and the user slot stay disjoint
/// throughout.
pub proof fn lemma_disjoint_after_arbiter(
    client_delta: DeltaView,
    server_delta: DeltaView,
    running_on_server: Result<Option<TimeEntry>, Error>,
    now: Timestamp,
    outcome: Seq<SyncResult<TimeEntry>>,
)
    requires
        unique_ids(client_delta.projects),
        unique_ids(server_delta.projects),
        unique_ids(client_delta.time_entries),
        unique_ids(server_delta.time_entries),
    ensures
        ({
            let prep = spec_prepare(Some(client_delta), server_delta, running_on_server, now);
            &&& prep is Ok
            &&& ({
                let (rc, rs, stopped) = prep->Ok_0;
                let after = spec_client_resolution_after_push(rc, stopped, outcome);
                &&& !spec_entities_match(after.user, rs.user)
                &&& !spec_overlap(after.projects, rs.projects)
                &&& forall|id: Id|
                    spec_list_has_id(#[trigger] after.time_entries, id) && spec_list_has_id(
                        rs.time_entries,
                        id,
                    ) ==> (stopped matches Some(st) && id == st.spec_id())
            })
        }),
{
    lemma_resolutions_disjoint(client_delta, server_delta);
    let (rc0, rs0) = spec_resolve(client_delta, server_delta);
    let prep = spec_prepare(Some(client_delta), server_delta, running_on_server, now);
    let (rc, rs, stopped) = prep->Ok_0;
    let after = spec_client_resolution_after_push(rc, stopped, outcome);
    assert(rc == rc0);
    assert(after.user == rc0.user && after.projects == rc0.projects);
    assert(rs.user == rs0.user && rs.projects == rs0.projects);
    assert forall|id: Id|
        spec_list_has_id(#[trigger] after.time_entries, id) && spec_list_has_id(
            rs.time_entries,
            id,
        ) implies stopped matches Some(st) && id == st.spec_id() by {
        match stopped {
            None => {
                assert(spec_overlap(rc0.time_entries, rs0.time_entries));
            },
            Some(st) => {
                let sid = st.spec_id();
                let stop_dir = seq![crate::arbiter::spec_stop_directive(st)];
                assert(spec_outcome_id(stop_dir[0]) == Some(sid));
                if id != sid {
                    // the id must then come from the original lists on both
                    // sides, which the resolver keeps disjoint
                    assert(rs.time_entries == spec_drop_id(rs0.time_entries, sid) + stop_dir);
                    lemma_list_has_id_concat(spec_drop_id(rs0.time_entries, sid), stop_dir, id);
                    lemma_drop_id_ids(rs0.time_entries, sid, id);
                    if after.time_entries == rc0.time_entries {
                        assert(spec_overlap(rc0.time_entries, rs0.time_entries));
                    } else {
                        assert(after.time_entries == spec_drop_id(rc0.time_entries, sid)
                            + stop_dir);
                        lemma_list_has_id_concat(
                            spec_drop_id(rc0.time_entries, sid),
                            stop_dir,
                            id,
                        );
                        lemma_drop_id_ids(rc0.time_entries, sid, id);
                        assert(spec_overlap(rc0.time_entries, rs0.time_entries));
                    }
                }
            },
        }
    }
}

proof fn lemma_collect_some_all_none<T>(s: Seq<Option<T>>)
    requires
        forall|i: int| 0 <= i < s.len() ==> s[i] is None,
    ensures
        collect_some(s).len() == 0,
    decreases s.len(),
{
    if s.len() == 0 {
    } else {
        assert(forall|i: int| 0 <= i < s.drop_first().len() ==> s.drop_first()[i] == s[i + 1]);
        lemma_collect_some_all_none(s.drop_first());
    }
}

/// Idempotence: resolving a delta against an identical delta yields empty
/// resolutions on both sides — every entity meets its own copy, no tombstone
/// outranks a live version, and a timestamp tie between field-for-field
/// identical versions needs no directive.
pub proof fn lemma_resolve_idempotent(d: DeltaView)
    ensures
        ({
            let (rc, rs) = spec_resolve(d, d);
            &&& rc.user is None
            &&& rs.user is None
            &&& rc.projects.len() == 0
            &&& rs.projects.len() == 0
            &&& rc.time_entries.len() == 0
            &&& rs.time_entries.len() == 0
        }),
{
    assert(spec_resolve_single(d.user, d.user) == (None::<ConflictResolution<crate::models::User>>,
        None::<ConflictResolution<crate::models::User>>));
    lemma_lists_self_empty(d.projects);
    lemma_lists_self_empty(d.time_entries);
}

/// Running-entry convergence: when the client's delta reports a running
/// entry whose resolved version `a` differs in id from the resolved version
/// of the server's live running entry and is not newer than it, the prepared
/// sync stops `a`: the stopped copy is no longer running, the server
/// resolution ends in its stop directive, and — as long as the push reports
/// neither a failure nor a creation for `a`'s id — the client resolution
/// after the push ends in the same stop directive.
pub proof fn lemma_running_entry_convergence(
    client_delta: DeltaView,
    server_delta: DeltaView,
    b: TimeEntry,
    now: Timestamp,
    outcome: Seq<SyncResult<TimeEntry>>,
)
    requires
        unique_ids(client_delta.projects),
        unique_ids(server_delta.projects),
        unique_ids(client_delta.time_entries),
        unique_ids(server_delta.time_entries),
        spec_first_running(client_delta.time_entries) is Some,
        ({
            let (rc, rs) = spec_resolve(client_delta, server_delta);
            let a = spec_effect(
                spec_first_running(client_delta.time_entries)->0,
                rc.time_entries,
            );
            let b2 = spec_effect(b, rs.time_entries);
            a.spec_id() != b2.spec_id() && b2.spec_at() >= a.spec_at()
        }),
        ({
            let (rc, rs) = spec_resolve(client_delta, server_delta);
            let a = spec_effect(
                spec_first_running(client_delta.time_entries)->0,
                rc.time_entries,
            );
            !spec_any_failed(a.spec_id(), outcome) && !spec_any_created(a.spec_id(), outcome)
        }),
    ensures
        ({
            let (rc, rs) = spec_resolve(client_delta, server_delta);
            let a = spec_effect(
                spec_first_running(client_delta.time_entries)->0,
                rc.time_entries,
            );
            let stopped = spec_stopped(a, now);
            let prep = spec_prepare(Some(client_delta), server_delta, Ok(Some(b)), now);
            &&& prep matches Ok(t)
            &&& prep->Ok_0.2 == Some(stopped)
            &&& !stopped.spec_running()
            &&& prep->Ok_0.1.time_entries.len() > 0
            &&& prep->Ok_0.1.time_entries.last() == spec_stop_directive(stopped)
            &&& ({
                let after = spec_client_resolution_after_push(
                    prep->Ok_0.0,
                    Some(stopped),
                    outcome,
                );
                after.time_entries.len() > 0 && after.time_entries.last() == spec_stop_directive(
                    stopped,
                )
            })
        }),
{
    let (rc, rs) = spec_resolve(client_delta, server_delta);
    lemma_resolutions_disjoint(client_delta, server_delta);
    let a0 = spec_first_running(client_delta.time_entries)->0;
    let a = spec_effect(a0, rc.time_entries);
    let b2 = spec_effect(b, rs.time_entries);
    assert(spec_should_stop(Some(a), Some(b2)) == Some(a));
    assert(spec_te_to_stop(client_delta, rc, rs, Ok(Some(b)), now) == Some(spec_stopped(a, now)));
    let stopped = spec_stopped(a, now);
    assert(spec_push_replace(rs.time_entries, stopped).last() == spec_stop_directive(stopped));
    assert(spec_push_replace(rc.time_entries, stopped).last() == spec_stop_directive(stopped));
}

proof fn lemma_lists_self_empty<T: Entity>(s: Seq<T>)
    ensures
        spec_resolve_lists(s, s).0.len() == 0,
        spec_resolve_lists(s, s).1.len() == 0,
{
    let ps = spec_pair(s, s);
    lemma_pair_self(s);
    let mc = ps.map_values(|p: (Option<T>, Option<T>)| client_directive(p));
    let ms = ps.map_values(|p: (Option<T>, Option<T>)| server_directive(p));
    assert forall|i: int| 0 <= i < mc.len() implies mc[i] is None by {
        assert(ps[i] == (Some(s[i]), Some(s[i])));
        s[i].lemma_same_reflexive();
        assert(spec_resolve_single(Some(s[i]), Some(s[i])) == (None::<ConflictResolution<T>>,
            None::<ConflictResolution<T>>));
    }
    assert forall|i: int| 0 <= i < ms.len() implies ms[i] is None by {
        assert(ps[i] == (Some(s[i]), Some(s[i])));
        s[i].lemma_same_reflexive();
        assert(spec_resolve_single(Some(s[i]), Some(s[i])) == (None::<ConflictResolution<T>>,
            None::<ConflictResolution<T>>));
    }
    lemma_collect_some_all_none(mc);
    lemma_collect_some_all_none(ms);
}

} // verus!
