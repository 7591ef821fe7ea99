use utopia_sync::conflicts::{pair, prefer_newer, resolve, resolve_single};
use utopia_sync::models::{Delta, Project};
use utopia_sync::resolution::ConflictResolution;

fn create_project(id: i64, at: i64, deleted_at: Option<i64>) -> Project {
    Project {
        id,
        workspace_id: 0,
        name: "ABC".to_string(),
        color: "#ff0000".to_string(),
        active: true,
        at,
        server_deleted_at: deleted_at,
    }
}

// 2019-12-09T12:00:00Z
fn sooner() -> i64 {
    1575892800
}

// 2019-12-10T12:00:00Z
fn later() -> i64 {
    1575979200
}

#[test]
fn prefers_client_if_it_was_updated_later() {
    let client = create_project(1, later(), None);
    let server = create_project(2, sooner(), None);

    let (client_res, server_res) = prefer_newer(client.clone(), server.clone());

    assert_eq!(client_res, None);
    assert_eq!(server_res, Some(ConflictResolution::Update(2, client)));
}

#[test]
fn prefers_server_if_it_was_updated_later() {
    let client = create_project(1, sooner(), None);
    let server = create_project(2, later(), None);

    let (client_res, server_res) = prefer_newer(client.clone(), server.clone());

    assert_eq!(client_res, Some(ConflictResolution::Update(1, server)));
    assert_eq!(server_res, None);
}

#[test]
fn a_tie_resolves_toward_the_server() {
    // same timestamp, divergent content: the server clock is authoritative,
    // so the client adopts the server version and the server is untouched
    let client = create_project(1, sooner(), None);
    let server = create_project(2, sooner(), None);

    let (client_res, server_res) = prefer_newer(client.clone(), server.clone());

    assert_eq!(client_res, Some(ConflictResolution::Update(1, server)));
    assert_eq!(server_res, None);
}

#[test]
fn a_tie_between_identical_versions_needs_no_directive() {
    let copy = create_project(1, sooner(), None);

    let (client_res, server_res) = prefer_newer(copy.clone(), copy);

    assert_eq!(client_res, None);
    assert_eq!(server_res, None);
}

#[test]
fn create_on_server_when_there_is_not_a_counterpart_on_the_server() {
    let client = create_project(1, sooner(), None);

    let (client_res, server_res) = resolve_single(Some(client.clone()), None);

    assert_eq!(client_res, None);
    assert_eq!(server_res, Some(ConflictResolution::Create(client)));
}

#[test]
fn creates_on_client_when_there_is_not_a_counterpart_on_the_client() {
    let server = create_project(1, sooner(), None);

    let (client_res, server_res) = resolve_single(None, Some(server.clone()));

    assert_eq!(client_res, Some(ConflictResolution::Create(server)));
    assert_eq!(server_res, None);
}

#[test]
fn updates_client_when_it_is_deleted_on_server_but_not_on_client() {
    let client = create_project(1, later(), None);
    let server = create_project(2, sooner(), Some(sooner()));

    let (client_res, server_res) = resolve_single(Some(client.clone()), Some(server.clone()));

    assert_eq!(client_res, Some(ConflictResolution::Update(1, server)));
    assert_eq!(server_res, None);
}

#[test]
fn updates_server_when_it_is_deleted_on_server_and_on_client_and_client_has_more_up_to_date_information(
) {
    let client = create_project(1, later(), Some(sooner()));
    let server = create_project(2, sooner(), Some(sooner()));

    let (client_res, server_res) = resolve_single(Some(client.clone()), Some(server.clone()));

    assert_eq!(client_res, None);
    assert_eq!(server_res, Some(ConflictResolution::Update(2, client)));
}

#[test]
fn updates_client_when_server_has_more_up_to_date_information() {
    let client = create_project(1, sooner(), None);
    let server = create_project(2, later(), None);

    let (client_res, server_res) = resolve_single(Some(client.clone()), Some(server.clone()));

    assert_eq!(client_res, Some(ConflictResolution::Update(1, server)));
    assert_eq!(server_res, None);
}

#[test]
fn updates_server_when_client_has_more_up_to_date_information() {
    let client = create_project(1, later(), None);
    let server = create_project(2, sooner(), None);

    let (client_res, server_res) = resolve_single(Some(client.clone()), Some(server.clone()));

    assert_eq!(client_res, None);
    assert_eq!(server_res, Some(ConflictResolution::Update(2, client)));
}

fn proj(id: i64) -> Project {
    create_project(id, sooner(), None)
}

#[test]
fn forms_pairs_for_between_a_pair_of_entities() {
    let client = vec![proj(1)];
    let server = vec![proj(1)];

    let pairs = pair(client, server);

    assert_eq!(pairs.len(), 1);
    assert!(pairs[0].0.is_some());
    assert!(pairs[0].1.is_some());
}

#[test]
fn forms_pairs_for_between_all_entities() {
    let client = vec![proj(1), proj(2), proj(3)];
    let server = vec![proj(3), proj(2), proj(1)];

    let pairs = pair(client, server);

    assert_eq!(pairs.len(), 3);
    assert_eq!(pairs.iter().all(|pair| pair.0.is_some() && pair.1.is_some()), true);
    assert_eq!(
        pairs
            .iter()
            .all(|pair| pair.0.as_ref().unwrap().id == pair.1.as_ref().unwrap().id),
        true
    );
}

#[test]
fn if_there_is_no_counterpar_then_it_should_be_none() {
    let client = vec![proj(1), proj(2)];
    let server = vec![proj(2), proj(3)];

    let pairs = pair(client, server);

    assert_eq!(pairs.len(), 3);
    // first the client
    assert!(pairs[0].0.is_some());
    assert!(pairs[0].1.is_none());
    // then the client+server pair
    assert!(pairs[1].0.is_some());
    assert!(pairs[1].1.is_some());
    // then the lonely entity on the server
    assert!(pairs[2].0.is_none());
    assert!(pairs[2].1.is_some());
}

fn named_project(id: i64, at: i64, name: &str) -> Project {
    Project {
        id,
        workspace_id: 0,
        name: name.to_string(),
        color: "#ff0000".to_string(),
        active: true,
        at,
        server_deleted_at: None,
    }
}

fn delta_of_projects(projects: Vec<Project>) -> Delta {
    Delta { user: None, projects, time_entries: vec![] }
}

#[test]
fn newer_wins_across_a_whole_resolve_pass() {
    // 2024-01-01T00:00:00Z and 2024-01-02T00:00:00Z
    let a = named_project(7, 1704067200, "A");
    let b = named_project(7, 1704153600, "B");
    let client = delta_of_projects(vec![a]);
    let server = delta_of_projects(vec![b.clone()]);

    let (client_res, server_res) = resolve(client, server).unwrap();

    assert_eq!(client_res.projects, vec![ConflictResolution::Update(7, b)]);
    assert!(server_res.projects.is_empty());
    assert!(client_res.user.is_none() && server_res.user.is_none());
}

#[test]
fn server_tombstone_wins_regardless_of_timestamps() {
    // client copy updated 2024-02-01, server copy deleted 2024-01-15
    let client_copy = named_project(9, 1706745600, "mine");
    let mut deleted = named_project(9, 1705276800, "mine");
    deleted.server_deleted_at = Some(1705276800);
    let client = delta_of_projects(vec![client_copy]);
    let server = delta_of_projects(vec![deleted.clone()]);

    let (client_res, server_res) = resolve(client, server).unwrap();

    assert_eq!(client_res.projects, vec![ConflictResolution::Update(9, deleted)]);
    assert!(server_res.projects.is_empty());
}

#[test]
fn placeholder_project_is_created_on_the_server_only() {
    let placeholder = named_project(-1, 1704067200, "new one");
    let client = delta_of_projects(vec![placeholder.clone()]);
    let server = delta_of_projects(vec![]);

    let (client_res, server_res) = resolve(client, server).unwrap();

    assert!(client_res.projects.is_empty());
    assert_eq!(server_res.projects, vec![ConflictResolution::Create(placeholder)]);
}

#[test]
fn duplicate_ids_trip_the_invariant_check() {
    // two client copies of one id leave one of them unmatched, so both
    // resolutions end up carrying a directive for id 5 — a defect the
    // engine must refuse to push
    let client = delta_of_projects(vec![
        named_project(5, 1704067200, "first copy"),
        named_project(5, 1704067200, "second copy"),
    ]);
    let server = delta_of_projects(vec![named_project(5, 1704153600, "server copy")]);

    let result = resolve(client, server);

    assert_eq!(result, Err(utopia_sync::error::Error::InvariantViolation));
}

#[test]
fn resolving_identical_deltas_yields_empty_resolutions() {
    let d = Delta {
        user: Some(utopia_sync::models::User {
            id: 1,
            default_workspace_id: 0,
            fullname: "user".to_string(),
            api_token: "token".to_string(),
            at: sooner(),
        }),
        projects: vec![proj(1), proj(2)],
        time_entries: vec![utopia_sync::models::TimeEntry {
            id: 5,
            workspace_id: 0,
            description: "work".to_string(),
            project_id: Some(1),
            start: sooner(),
            duration: Some(60),
            at: sooner(),
            server_deleted_at: None,
        }],
    };

    let (client_res, server_res) = resolve(d.clone(), d).unwrap();

    assert!(client_res.user.is_none());
    assert!(server_res.user.is_none());
    assert!(client_res.projects.is_empty());
    assert!(server_res.projects.is_empty());
    assert!(client_res.time_entries.is_empty());
    assert!(server_res.time_entries.is_empty());
}
