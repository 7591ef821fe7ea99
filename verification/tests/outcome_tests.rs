use utopia_sync::error::Error;
use utopia_sync::models::{Delta, Project, TimeEntry, User};
use utopia_sync::outcome::{changed, created, failed, SyncOutcome, SyncResult};
use utopia_sync::resolution::{ConflictResolution, SyncResolution};

fn empty() -> SyncOutcome {
    SyncOutcome { user: None, projects: vec![], time_entries: vec![] }
}

fn now() -> i64 {
    1700000000
}

fn sample_user() -> User {
    User {
        id: 1,
        default_workspace_id: 0,
        fullname: "user".to_string(),
        api_token: "token".to_string(),
        at: now(),
    }
}

fn sample_project(id: i64, name: &str) -> Project {
    Project {
        id,
        workspace_id: 0,
        name: name.to_string(),
        color: "#ff0000".to_string(),
        active: true,
        at: now(),
        server_deleted_at: None,
    }
}

#[test]
fn merges_two_empty_resoutions_into_a_single_empty_resolution() {
    let a = empty();
    let b = empty();

    let merged = SyncOutcome::merge(a, b);

    assert!(merged.user.is_none());
    assert!(merged.projects.is_empty());
    assert!(merged.time_entries.is_empty());
}

#[test]
fn merges_a_non_empty_with_an_empty() {
    let a = empty();
    let b = SyncOutcome {
        user: Some(SyncResult::<User>::Created {
            client_assigned_id: 123,
            entity: sample_user(),
        }),
        projects: vec![SyncResult::<Project>::Changed(sample_project(2, "project"))],
        time_entries: vec![SyncResult::<TimeEntry>::Failed {
            client_assigned_id: 3,
            code: 1,
            message: "msg".to_string(),
        }],
    };

    let merged = SyncOutcome::merge(a, b.clone());

    assert_eq!(merged, b);
}

#[test]
fn merges_two_non_overlapping_non_empty() {
    let a = SyncOutcome {
        user: Some(SyncResult::<User>::Created {
            client_assigned_id: 123,
            entity: sample_user(),
        }),
        projects: vec![SyncResult::<Project>::Changed(sample_project(2, "project A"))],
        time_entries: vec![SyncResult::<TimeEntry>::Failed {
            client_assigned_id: 3,
            code: 1,
            message: "error".to_string(),
        }],
    };
    let b = SyncOutcome {
        user: None,
        projects: vec![SyncResult::<Project>::Changed(sample_project(4, "project B"))],
        time_entries: vec![SyncResult::<TimeEntry>::Failed {
            client_assigned_id: 5,
            code: 3,
            message: "error".to_string(),
        }],
    };

    let merged = SyncOutcome::merge(a, b);

    assert!(merged.user.is_some());
    assert_eq!(merged.projects.len(), 2);
    assert_eq!(merged.time_entries.len(), 2);
}

#[test]
fn convert_turns_directives_into_plain_changes() {
    let p = sample_project(2, "p");
    let q = sample_project(3, "q");
    let resolution = SyncResolution {
        user: Some(ConflictResolution::Create(sample_user())),
        projects: vec![
            ConflictResolution::Create(p.clone()),
            ConflictResolution::Ignore,
            ConflictResolution::Update(3, q.clone()),
        ],
        time_entries: vec![],
    };

    let outcome = SyncOutcome::convert(resolution);

    assert_eq!(outcome.user, Some(SyncResult::Changed(sample_user())));
    assert_eq!(outcome.projects, vec![SyncResult::Changed(p), SyncResult::Changed(q)]);
    assert!(outcome.time_entries.is_empty());
}

#[test]
fn without_unchanged_drops_changes_the_client_already_knows() {
    let known = sample_project(2, "known");
    let fresh = sample_project(3, "fresh");
    let outcome = SyncOutcome {
        user: None,
        projects: vec![
            SyncResult::Changed(known.clone()),
            SyncResult::Changed(fresh.clone()),
            SyncResult::Failed { client_assigned_id: 2, code: 500, message: "x".to_string() },
        ],
        time_entries: vec![],
    };
    let known_changes = Delta { user: None, projects: vec![known], time_entries: vec![] };

    let trimmed = outcome.without_unchanged(known_changes);

    assert_eq!(
        trimmed.projects,
        vec![
            SyncResult::Changed(fresh),
            SyncResult::Failed { client_assigned_id: 2, code: 500, message: "x".to_string() },
        ]
    );
}

#[test]
fn failed_keeps_the_status_of_a_rejected_call() {
    let r: SyncResult<Project> = failed(4, Error::ApiError(500, "boom".to_string()));
    assert_eq!(
        r,
        SyncResult::Failed { client_assigned_id: 4, code: 500, message: "boom".to_string() }
    );
}

#[test]
fn failed_reports_transport_failures_under_the_sentinel_code() {
    let r: SyncResult<Project> = failed(4, Error::NetworkError("connection reset".to_string()));
    assert_eq!(
        r,
        SyncResult::Failed {
            client_assigned_id: 4,
            code: 0,
            message: "connection reset".to_string()
        }
    );
}

#[test]
fn error_codes_follow_the_taxonomy() {
    assert_eq!(Error::ApiError(404, "missing".to_string()).code(), 404);
    assert_eq!(Error::NetworkError("down".to_string()).code(), 0);
    assert_eq!(Error::InvariantViolation.code(), 0);
}

#[test]
fn changed_and_created_build_the_expected_variants() {
    let p = sample_project(2, "p");
    assert_eq!(changed(p.clone()), SyncResult::Changed(p.clone()));
    assert_eq!(
        created(-4, p.clone()),
        SyncResult::Created { client_assigned_id: -4, entity: p.clone() }
    );
    assert_eq!(SyncResult::from(p.clone()), SyncResult::Changed(p));
}
