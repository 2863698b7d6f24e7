use vibe_manager::commands::project_by_id;
use vibe_manager::manager::AppState;
use vibe_manager::models::{
    DiscoveryCandidate, PersistedState, ProcessOrigin, ProjectRecord, ProjectStatus, StartupPolicy,
};

fn candidate(key: &str, pid: u32, port: u16, confidence: u8, directory: &str, at: i64) -> DiscoveryCandidate {
    DiscoveryCandidate {
        key: key.to_string(),
        pid,
        port,
        address: "127.0.0.1".to_string(),
        url: format!("http://localhost:{port}"),
        name: format!("server {key}"),
        process_name: "node".to_string(),
        process_type: "Node.js".to_string(),
        executable: "/usr/bin/node".to_string(),
        command: "npm run dev".to_string(),
        directory: directory.to_string(),
        external_exposure: false,
        confidence,
        discovered_at: at,
    }
}

fn project(id: &str, key: Option<&str>, status: ProjectStatus, origin: ProcessOrigin, pid: Option<u32>) -> ProjectRecord {
    ProjectRecord {
        id: id.to_string(),
        name: id.to_string(),
        directory: "/work".to_string(),
        command: "npm run dev".to_string(),
        url: None,
        startup_policy: StartupPolicy::Manual,
        status,
        desired_running: false,
        pid,
        created_at: 0,
        updated_at: 0,
        last_started_at: None,
        last_stopped_at: None,
        last_exit_code: Some(3),
        last_error: Some("gone".to_string()),
        log_path: String::new(),
        discovery_key: key.map(|k| k.to_string()),
        detected_port: None,
        process_origin: origin,
    }
}

fn state(projects: Vec<ProjectRecord>) -> AppState {
    let mut store = PersistedState::default();
    store.projects = projects;
    AppState::new("/data".to_string(), store)
}

#[test]
fn hidden_candidates_are_never_offered_and_hiding_twice_is_hiding_once() {
    let mut s = state(Vec::new());
    let out = s.perform_discovery(vec![candidate("k1", 10, 3000, 60, "", 1), candidate("k2", 11, 3001, 60, "", 1)]);
    assert!(out.changed);
    assert_eq!(s.discovered.len(), 2);
    assert!(s.ignore_discovery_candidate("k1"));
    assert!(!s.ignore_discovery_candidate("k1"));
    assert_eq!(s.store.ignored_discovery_keys, vec!["k1".to_string()]);
    assert_eq!(s.discovered.len(), 1);
    assert!(s.discovery_candidate("k1").is_none());
    let out = s.perform_discovery(vec![candidate("k1", 10, 3000, 60, "", 2), candidate("k2", 11, 3001, 60, "", 2)]);
    assert!(!out.changed);
    assert_eq!(s.discovered.len(), 1);
    assert_eq!(s.discovered[0].key, "k2");
    assert_eq!(s.discovered[0].discovered_at, 1);
    s.clear_ignored_discovery_candidates();
    assert!(s.store.ignored_discovery_keys.is_empty());
}

#[test]
fn a_registered_server_found_again_counts_as_running() {
    let mut s = state(vec![project("p", Some("k1"), ProjectStatus::Crashed, ProcessOrigin::External, None)]);
    let out = s.perform_discovery(vec![candidate("k1", 10, 3000, 60, "", 1)]);
    assert!(out.reconciled);
    let p = &s.store.projects[0];
    assert_eq!(p.status, ProjectStatus::Running);
    assert_eq!(p.pid, Some(10));
    assert_eq!(p.detected_port, Some(3000));
    assert_eq!(p.last_exit_code, None);
    assert_eq!(p.last_error, None);
    assert!(s.discovered.is_empty());
}

#[test]
fn discovery_leaves_projects_the_manager_runs_alone() {
    let mut s = state(vec![project("p", Some("k1"), ProjectStatus::Running, ProcessOrigin::Manager, Some(99))]);
    let out = s.perform_discovery(vec![candidate("k1", 10, 3000, 60, "", 1), candidate("k3", 99, 3005, 60, "", 1)]);
    assert!(!out.reconciled);
    assert_eq!(s.store.projects[0].pid, Some(99));
    assert_eq!(s.store.projects[0].process_origin, ProcessOrigin::Manager);
    assert!(s.discovered.is_empty());
}

#[test]
fn confident_candidates_in_existing_folders_are_registered_when_allowed() {
    let temp = tempfile::tempdir().unwrap();
    let dir = temp.path().to_string_lossy().into_owned();
    let mut s = state(Vec::new());
    s.store.settings.auto_register_discovered = true;
    s.store.settings.default_startup_policy = StartupPolicy::Auto;
    let out = s.perform_discovery(vec![
        candidate("sure", 20, 3000, 90, &dir, 1),
        candidate("unsure", 21, 3001, 60, &dir, 1),
        candidate("nowhere", 22, 3002, 90, "/definitely/missing/place", 1),
    ]);
    assert_eq!(out.adopted.len(), 1);
    let p = &out.adopted[0];
    assert_eq!(p.discovery_key.as_deref(), Some("sure"));
    assert_eq!(p.status, ProjectStatus::Running);
    assert_eq!(p.pid, Some(20));
    assert_eq!(p.url.as_deref(), Some("http://localhost:3000"));
    assert_eq!(p.startup_policy, StartupPolicy::Auto);
    assert_eq!(p.process_origin, ProcessOrigin::External);
    assert_eq!(p.id.len(), 36);
    assert_eq!(p.log_path, format!("/data/logs/{}.log", p.id));
    assert_eq!(s.store.projects.len(), 1);
    let keys: Vec<String> = s.discovered.iter().map(|c| c.key.clone()).collect();
    assert_eq!(keys, vec!["unsure".to_string(), "nowhere".to_string()]);
}

#[test]
fn only_confident_directories_are_checked_and_only_when_registering_automatically() {
    let mut s = state(Vec::new());
    let found = vec![
        candidate("a", 1, 3000, 90, "/work/a", 1),
        candidate("b", 2, 3001, 60, "/work/b", 1),
        candidate("c", 3, 3002, 80, "", 1),
        candidate("d", 4, 3003, 75, "/work/d", 1),
    ];
    assert!(s.folders_to_check(&found).is_empty());
    s.store.settings.auto_register_discovered = true;
    assert_eq!(s.folders_to_check(&found), vec!["/work/a".to_string(), "/work/d".to_string()]);
}

#[test]
fn only_candidates_in_reported_folders_are_registered() {
    let mut s = state(Vec::new());
    s.store.settings.auto_register_discovered = true;
    let found = vec![
        candidate("a", 1, 3000, 90, "/work/a", 1),
        candidate("d", 4, 3003, 75, "/work/d", 1),
    ];
    let out = s.apply_scan(found, 5, &vec!["/work/d".to_string()]);
    assert_eq!(out.adopted.len(), 1);
    assert_eq!(out.adopted[0].discovery_key.as_deref(), Some("d"));
    assert_eq!(out.adopted[0].created_at, 5);
    assert_eq!(s.discovered.len(), 1);
    assert_eq!(s.discovered[0].key, "a");
}

#[test]
fn a_candidate_keeps_its_first_seen_time_across_rescans() {
    let mut s = state(Vec::new());
    s.apply_scan(vec![candidate("k1", 10, 3000, 60, "", 100)], 100, &Vec::new());
    s.apply_scan(vec![candidate("k1", 10, 3000, 60, "", 200), candidate("k2", 11, 3001, 60, "", 200)], 200, &Vec::new());
    assert_eq!(s.discovered.len(), 2);
    assert_eq!(s.discovered[0].discovered_at, 100);
    assert_eq!(s.discovered[1].discovered_at, 200);
}

#[test]
fn a_quitting_manager_ignores_scans() {
    let mut s = state(Vec::new());
    s.prepare_for_exit(1);
    let out = s.perform_discovery(vec![candidate("k", 1, 3000, 90, "", 1)]);
    assert!(!out.changed && !out.reconciled && out.adopted.is_empty());
    assert!(s.discovered.is_empty());
}

#[test]
fn registering_a_project_withdraws_its_candidate() {
    let mut s = state(Vec::new());
    s.perform_discovery(vec![candidate("k1", 10, 3000, 60, "", 1), candidate("k2", 11, 3001, 60, "", 1)]);
    let p = project("x", Some("k2"), ProjectStatus::Stopped, ProcessOrigin::Manager, None);
    s.remove_discovered_for_project(&p);
    assert_eq!(s.discovered.len(), 1);
    assert_eq!(s.discovered[0].key, "k1");
}

#[test]
fn projects_are_found_by_id_for_the_dashboard() {
    let s = state(vec![project("a", None, ProjectStatus::Stopped, ProcessOrigin::Manager, None)]);
    let snapshot = s.snapshot();
    assert_eq!(project_by_id(&snapshot, "a").unwrap().id, "a");
    assert_eq!(project_by_id(&snapshot, "b").unwrap_err(), "Project not found. / プロジェクトが見つかりません。");
    assert_eq!(s.log_path("b").unwrap_err(), "プロジェクトが見つかりません。");
    assert_eq!(s.recorded_pid("a"), None);
}
