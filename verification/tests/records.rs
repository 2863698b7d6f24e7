use vibe_manager::manager::validate_input;
use vibe_manager::models::{
    AppSettings, PersistedState, ProcessOrigin, ProjectInput, ProjectStatus, SettingsInput,
    StartupPolicy,
};

#[test]
fn defaults_match_a_first_run() {
    let settings = AppSettings::default();
    assert!(!settings.onboarding_complete);
    assert!(!settings.launch_at_login);
    assert!(settings.discovery_enabled);
    assert!(!settings.auto_register_discovered);
    assert_eq!(settings.default_startup_policy, StartupPolicy::Ask);
    assert!(settings.workspace_roots.is_empty());
    let state = PersistedState::default();
    assert_eq!(state.schema_version, 1);
    assert!(state.projects.is_empty());
    assert!(state.ignored_discovery_keys.is_empty());
    assert_eq!(StartupPolicy::default(), StartupPolicy::Ask);
    assert_eq!(ProjectStatus::default(), ProjectStatus::Stopped);
    assert_eq!(ProcessOrigin::default(), ProcessOrigin::Manager);
}

#[test]
fn settings_input_becomes_settings() {
    let input = SettingsInput {
        onboarding_complete: true,
        launch_at_login: false,
        default_startup_policy: StartupPolicy::Manual,
        discovery_enabled: false,
        auto_register_discovered: true,
        workspace_roots: vec!["/src".to_string()],
    };
    let settings = AppSettings::from(input);
    assert!(settings.onboarding_complete);
    assert!(!settings.discovery_enabled);
    assert!(settings.auto_register_discovered);
    assert_eq!(settings.default_startup_policy, StartupPolicy::Manual);
    assert_eq!(settings.workspace_roots, vec!["/src".to_string()]);
}

#[test]
fn an_accepted_input_is_accepted_again_unchanged() {
    let temp = tempfile::tempdir().unwrap();
    let raw = ProjectInput {
        name: "\tShop ".to_string(),
        directory: format!(" {} ", temp.path().to_string_lossy()),
        command: " pnpm dev".to_string(),
        url: Some(" https://localhost:5173 ".to_string()),
        startup_policy: StartupPolicy::Ask,
        discovery_key: Some("k".to_string()),
        detected_port: Some(5173),
        external_pid: None,
    };
    let once = validate_input(raw).unwrap();
    let twice = validate_input(once.clone()).unwrap();
    assert_eq!(once.name, twice.name);
    assert_eq!(once.directory, twice.directory);
    assert_eq!(once.command, twice.command);
    assert_eq!(once.url, twice.url);
    assert_eq!(once.url.as_deref(), Some("https://localhost:5173"));
    assert_eq!(twice.discovery_key.as_deref(), Some("k"));
}
