use std::path::Path;
use uuid::Uuid;
use vibe_manager::manager::{snapshot_from_store, validate_input};
use vibe_manager::models::{
    PersistedState, ProcessOrigin, ProjectInput, ProjectRecord, ProjectStatus, StartupPolicy,
};

fn valid_input(directory: &Path) -> ProjectInput {
    ProjectInput {
        name: " API ".into(),
        directory: directory.to_string_lossy().into_owned(),
        command: " npm run dev ".into(),
        url: Some(" http://localhost:3000 ".into()),
        startup_policy: StartupPolicy::Ask,
        discovery_key: None,
        detected_port: None,
        external_pid: None,
    }
}

#[test]
fn input_validation_trims_values() {
    let temp = tempfile::tempdir().unwrap();
    let validated = validate_input(valid_input(temp.path())).unwrap();
    assert_eq!(validated.name, "API");
    assert_eq!(validated.command, "npm run dev");
    assert_eq!(validated.url.as_deref(), Some("http://localhost:3000"));
}

#[test]
fn input_validation_rejects_missing_directory() {
    let mut input = valid_input(Path::new("definitely-missing-directory"));
    input.name = "Project".into();
    assert!(validate_input(input).is_err());
}

#[test]
fn snapshot_counts_statuses() {
    let mut state = PersistedState::default();
    let temp = tempfile::tempdir().unwrap();
    for status in [
        ProjectStatus::Running,
        ProjectStatus::RestorePending,
        ProjectStatus::Crashed,
    ] {
        let input = validate_input(valid_input(temp.path())).unwrap();
        state.projects.push(ProjectRecord {
            id: Uuid::new_v4().to_string(),
            name: input.name,
            directory: input.directory,
            command: input.command,
            url: input.url,
            startup_policy: input.startup_policy,
            status,
            desired_running: true,
            pid: None,
            created_at: 0,
            updated_at: 0,
            last_started_at: None,
            last_stopped_at: None,
            last_exit_code: None,
            last_error: None,
            log_path: String::new(),
            discovery_key: None,
            detected_port: None,
            process_origin: ProcessOrigin::Manager,
        });
    }
    let snapshot = snapshot_from_store(&state, &[]);
    assert_eq!(snapshot.running_count, 1);
    assert_eq!(snapshot.restore_count, 1);
    assert_eq!(snapshot.crashed_count, 1);
}
