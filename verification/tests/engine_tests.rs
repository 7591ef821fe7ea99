use utopia_sync::applier::{
    collect_outcomes, plan_requests, project_id_map, remap_time_entries, user_push_outcome,
    PushRequest, PushResponse,
};
use utopia_sync::engine::{delta_from_fetched, finish_sync, prepare_sync};
use utopia_sync::error::Error;
use utopia_sync::models::{Delta, Project, TimeEntry, User};
use utopia_sync::outcome::{SyncOutcome, SyncResult};
use utopia_sync::resolution::{share_entities, ConflictResolution, SyncResolution};
use utopia_sync::wire::{duration_from_wire, duration_to_wire};

fn entry(id: i64, start: i64, duration: Option<u64>, at: i64) -> TimeEntry {
    TimeEntry {
        id,
        workspace_id: 0,
        description: "work".to_string(),
        project_id: None,
        start,
        duration,
        at,
        server_deleted_at: None,
    }
}

fn project(id: i64, name: &str) -> Project {
    Project {
        id,
        workspace_id: 0,
        name: name.to_string(),
        color: "#ff0000".to_string(),
        active: true,
        at: 1700000000,
        server_deleted_at: None,
    }
}

fn sample_user(id: i64) -> User {
    User {
        id,
        default_workspace_id: 0,
        fullname: "user".to_string(),
        api_token: "token".to_string(),
        at: 1700000000,
    }
}

fn empty_delta() -> Delta {
    Delta { user: None, projects: vec![], time_entries: vec![] }
}

#[test]
fn running_entry_convergence_stops_the_older_entry() {
    let t1: i64 = 1700000000;
    let t2: i64 = 1700001000;
    let now: i64 = 1700002000;
    let a = entry(10, t1, None, t1);
    let b = entry(20, t2, None, t2);
    let client_delta = Delta { user: None, projects: vec![], time_entries: vec![a.clone()] };

    let prep =
        prepare_sync(Some(client_delta), empty_delta(), Ok(Some(b)), now).unwrap();

    let stopped = entry(10, t1, Some((now - t1) as u64), t1);
    assert_eq!(prep.stopped, Some(stopped.clone()));
    // the server must be told to stop the older entry
    assert_eq!(
        prep.server_resolution.time_entries,
        vec![ConflictResolution::Update(10, stopped.clone())]
    );
    assert!(prep.client_resolution.time_entries.is_empty());

    // the push succeeds as a plain update, which is reported as Changed,
    // and the client must be told too
    let requests = plan_requests(prep.server_resolution.time_entries);
    assert_eq!(requests, vec![PushRequest::Update(stopped.clone())]);
    let outcomes = collect_outcomes(requests, vec![PushResponse::Updated]);
    assert_eq!(outcomes, vec![SyncResult::Changed(stopped.clone())]);

    let server_outcome = SyncOutcome { user: None, projects: vec![], time_entries: outcomes };
    let finished = finish_sync(prep.client_resolution, prep.stopped, server_outcome);

    // the stopped entry reaches the client, mirrored next to the push
    // report — the one deliberate overlap; the newer entry keeps running
    assert_eq!(
        finished.time_entries,
        vec![SyncResult::Changed(stopped.clone()), SyncResult::Changed(stopped)]
    );
    assert!(finished.projects.is_empty());
}

#[test]
fn running_entry_stop_is_not_mirrored_after_a_failed_push() {
    let t1: i64 = 1700000000;
    let t2: i64 = 1700001000;
    let now: i64 = 1700002000;
    let a = entry(10, t1, None, t1);
    let b = entry(20, t2, None, t2);
    let client_delta = Delta { user: None, projects: vec![], time_entries: vec![a.clone()] };

    let prep =
        prepare_sync(Some(client_delta), empty_delta(), Ok(Some(b)), now).unwrap();

    let server_outcome = SyncOutcome {
        user: None,
        projects: vec![],
        time_entries: vec![SyncResult::Failed {
            client_assigned_id: 10,
            code: 500,
            message: "rejected".to_string(),
        }],
    };
    let finished = finish_sync(prep.client_resolution, prep.stopped, server_outcome);

    // only the failure is reported; the client is not told about a change
    // the store refused
    assert_eq!(
        finished.time_entries,
        vec![SyncResult::Failed { client_assigned_id: 10, code: 500, message: "rejected".to_string() }]
    );
}

#[test]
fn matching_running_entries_need_no_stop() {
    let t1: i64 = 1700000000;
    let a = entry(10, t1, None, t1);
    let client_delta = Delta { user: None, projects: vec![], time_entries: vec![a.clone()] };

    let prep = prepare_sync(Some(client_delta), empty_delta(), Ok(Some(a.clone())), t1 + 50)
        .unwrap();

    assert_eq!(prep.stopped, None);
    // the resolver's own directive for the entry stays untouched
    assert_eq!(prep.server_resolution.time_entries, vec![ConflictResolution::Create(a)]);
}

#[test]
fn a_failed_live_query_stops_nothing() {
    let t1: i64 = 1700000000;
    let a = entry(10, t1, None, t1);
    let client_delta = Delta { user: None, projects: vec![], time_entries: vec![a.clone()] };

    let prep = prepare_sync(
        Some(client_delta),
        empty_delta(),
        Err(Error::NetworkError("down".to_string())),
        t1 + 50,
    )
    .unwrap();

    assert_eq!(prep.stopped, None);
}

#[test]
fn sync_without_a_client_delta_adopts_server_changes() {
    let p = project(3, "from the server");
    let server_delta = Delta { user: None, projects: vec![p.clone()], time_entries: vec![] };

    let prep = prepare_sync(None, server_delta, Ok(None), 1700000000).unwrap();

    assert_eq!(prep.client_resolution.projects, vec![ConflictResolution::Create(p.clone())]);
    assert!(prep.server_resolution.projects.is_empty());
    assert_eq!(prep.stopped, None);

    let outcome = SyncOutcome { user: None, projects: vec![], time_entries: vec![] };
    let finished = finish_sync(prep.client_resolution, prep.stopped, outcome);
    assert_eq!(finished.projects, vec![SyncResult::Changed(p)]);
}

#[test]
fn applier_failure_is_isolated_per_entity() {
    let p = project(-5, "new project");
    let te = entry(-7, 1700000000, Some(60), 1700000000);

    // project phase: the creation fails with a server error
    let project_requests = plan_requests(vec![ConflictResolution::Create(p.clone())]);
    assert_eq!(project_requests, vec![PushRequest::Create(p.clone())]);
    let project_outcomes = collect_outcomes(
        project_requests,
        vec![PushResponse::Failed(Error::ApiError(500, "internal error".to_string()))],
    );
    assert_eq!(
        project_outcomes,
        vec![SyncResult::Failed {
            client_assigned_id: -5,
            code: 500,
            message: "internal error".to_string()
        }]
    );

    // the independent time-entry directive still produces its own outcome
    let stored = entry(70, 1700000000, Some(60), 1700000000);
    let te_requests = plan_requests(vec![ConflictResolution::Create(te.clone())]);
    let te_outcomes = collect_outcomes(te_requests, vec![PushResponse::Created(stored.clone())]);
    assert_eq!(
        te_outcomes,
        vec![SyncResult::Created { client_assigned_id: -7, entity: stored }]
    );
}

#[test]
fn freshly_minted_project_ids_are_rewritten_into_time_entries() {
    let stored = project(77, "stored");
    let outcomes = vec![SyncResult::Created { client_assigned_id: -5, entity: stored }];
    let map = project_id_map(&outcomes);
    assert_eq!(map, vec![(-5, 77)]);

    let mut te = entry(3, 1700000000, Some(60), 1700000000);
    te.project_id = Some(-5);
    let mut unrelated = entry(4, 1700000000, Some(60), 1700000000);
    unrelated.project_id = Some(9);
    let remapped = remap_time_entries(
        vec![
            ConflictResolution::Create(te.clone()),
            ConflictResolution::Update(4, unrelated.clone()),
        ],
        &map,
    );

    let mut expected = te;
    expected.project_id = Some(77);
    assert_eq!(
        remapped,
        vec![
            ConflictResolution::Create(expected),
            ConflictResolution::Update(4, unrelated),
        ]
    );
}

#[test]
fn pushing_the_user_is_an_explicit_failure() {
    let outcome = user_push_outcome(Some(ConflictResolution::Update(1, sample_user(1))));
    assert_eq!(
        outcome,
        Some(SyncResult::Failed {
            client_assigned_id: 1,
            code: 501,
            message: "updating the user is not supported".to_string()
        })
    );
    assert_eq!(user_push_outcome(None), None);
}

#[test]
fn share_entities_spots_a_common_directive_id() {
    let a = SyncResolution {
        user: None,
        projects: vec![ConflictResolution::Create(project(5, "a"))],
        time_entries: vec![],
    };
    let b = SyncResolution {
        user: None,
        projects: vec![ConflictResolution::Update(5, project(5, "b"))],
        time_entries: vec![],
    };
    let c = SyncResolution {
        user: None,
        projects: vec![ConflictResolution::Update(6, project(6, "c"))],
        time_entries: vec![],
    };
    assert!(share_entities(&a, &b));
    assert!(!share_entities(&a, &c));
    assert!(share_entities(&c, &c.clone()));
}

#[test]
fn delta_from_fetched_drops_false_positives() {
    let old = project(1, "old");
    let mut fresh = project(2, "fresh");
    fresh.at = 1700000500;
    let d = delta_from_fetched(
        sample_user(1),
        vec![old.clone(), fresh.clone()],
        vec![],
        Some(1700000300),
    );
    assert_eq!(d.user, Some(sample_user(1)));
    assert_eq!(d.projects, vec![fresh.clone()]);

    let full = delta_from_fetched(sample_user(1), vec![old.clone(), fresh.clone()], vec![], None);
    assert_eq!(full.projects, vec![old, fresh]);
}

#[test]
fn wire_durations_round_trip() {
    assert_eq!(duration_from_wire(42), Some(42));
    assert_eq!(duration_from_wire(-1575892800), None);
    assert_eq!(duration_to_wire(Some(42), 100), 42);
    assert_eq!(duration_to_wire(None, 1575892800), -1575892800);
}

#[test]
fn stopping_an_entry_records_the_elapsed_time() {
    let te = entry(10, 1700000000, None, 1700000000);
    let stopped = te.stop(1700000090);
    assert_eq!(stopped.duration, Some(90));
    assert_eq!(stopped.id, te.id);
    assert_eq!(stopped.start, te.start);
}
