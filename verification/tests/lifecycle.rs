use vibe_manager::manager::{
    AppState, ChildExit, StartStep, adopted_log_text, exit_log_text, log_read_start,
    log_tail_text, output_log_line, start_log_text, timestamp_label_at, tray_tooltip,
};
use vibe_manager::models::{
    PersistedState, ProcessOrigin, ProjectInput, ProjectRecord, ProjectStatus, StartupPolicy,
};

fn record(id: &str, status: ProjectStatus, desired: bool, pid: Option<u32>) -> ProjectRecord {
    ProjectRecord {
        id: id.to_string(),
        name: format!("Project {id}"),
        directory: "/work".to_string(),
        command: "npm run dev".to_string(),
        url: None,
        startup_policy: StartupPolicy::Ask,
        status,
        desired_running: desired,
        pid,
        created_at: 1,
        updated_at: 1,
        last_started_at: None,
        last_stopped_at: None,
        last_exit_code: None,
        last_error: None,
        log_path: format!("/data/logs/{id}.log"),
        discovery_key: None,
        detected_port: None,
        process_origin: ProcessOrigin::Manager,
    }
}

fn state_with(projects: Vec<ProjectRecord>) -> AppState {
    let mut store = PersistedState::default();
    store.projects = projects;
    AppState::new("/data".to_string(), store)
}

fn input(dir: &str) -> ProjectInput {
    ProjectInput {
        name: " Web ".to_string(),
        directory: dir.to_string(),
        command: " npm start ".to_string(),
        url: Some("   ".to_string()),
        startup_policy: StartupPolicy::Auto,
        discovery_key: None,
        detected_port: None,
        external_pid: Some(77),
    }
}

#[test]
fn creating_a_project_records_it_stopped_or_adopted() {
    let temp = tempfile::tempdir().unwrap();
    let dir = temp.path().to_string_lossy().into_owned();
    let mut state = state_with(Vec::new());
    let created = state.create_project(input(&dir), false).unwrap();
    assert_eq!(created.name, "Web");
    assert_eq!(created.command, "npm start");
    assert_eq!(created.url, None);
    assert_eq!(created.status, ProjectStatus::Stopped);
    assert_eq!(created.pid, None);
    assert_eq!(created.id.len(), 36);
    assert_eq!(created.process_origin, ProcessOrigin::Manager);
    assert_eq!(created.log_path, format!("/data/logs/{}.log", created.id));
    assert!(!created.desired_running);
    assert_eq!(created.last_started_at, None);
    assert_eq!(created.last_stopped_at, None);
    assert_eq!(created.created_at, created.updated_at);
    let adopted = state.create_project(input(&dir), true).unwrap();
    assert_eq!(adopted.status, ProjectStatus::Running);
    assert_eq!(adopted.pid, Some(77));
    assert_eq!(adopted.process_origin, ProcessOrigin::External);
    assert!(adopted.desired_running);
    assert_eq!(adopted.last_started_at, Some(adopted.created_at));
    assert_ne!(adopted.id, created.id);
    assert_eq!(state.store.projects.len(), 2);
}

#[test]
fn each_input_error_has_its_message() {
    let temp = tempfile::tempdir().unwrap();
    let dir = temp.path().to_string_lossy().into_owned();
    let file = tempfile::NamedTempFile::new().unwrap();
    let mut state = state_with(Vec::new());
    let mut i = input(&dir);
    i.name = "  ".to_string();
    assert_eq!(state.create_project(i, false).unwrap_err(), "プロジェクト名を入力してください。");
    let mut i = input(&dir);
    i.command = "".to_string();
    assert_eq!(state.create_project(i, false).unwrap_err(), "起動コマンドを入力してください。");
    let i = input("/definitely/missing/place");
    assert_eq!(state.create_project(i, false).unwrap_err(), "指定した作業ディレクトリが見つかりません。");
    let i = input(&file.path().to_string_lossy());
    assert_eq!(state.create_project(i, false).unwrap_err(), "作業ディレクトリにはフォルダーを指定してください。");
    let mut i = input(&dir);
    i.url = Some(" ftp://host ".to_string());
    assert_eq!(state.create_project(i, false).unwrap_err(), "URLはhttp://またはhttps://から入力してください。");
    assert!(state.store.projects.is_empty());
}

#[test]
fn running_projects_cannot_be_edited_or_removed() {
    let temp = tempfile::tempdir().unwrap();
    let dir = temp.path().to_string_lossy().into_owned();
    let mut state = state_with(vec![record("a", ProjectStatus::Running, true, Some(10)), record("b", ProjectStatus::Stopped, false, None)]);
    assert_eq!(state.update_project("a", input(&dir), 5).unwrap_err(), "実行中のプロジェクトは編集できません。先に停止してください。");
    assert_eq!(state.delete_project("a").unwrap_err(), "実行中のプロジェクトは削除できません。先に停止してください。");
    assert_eq!(state.delete_project("zz").unwrap_err(), "プロジェクトが見つかりません。");
    let edited = state.update_project("b", input(&dir), 5).unwrap();
    assert_eq!(edited.name, "Web");
    assert_eq!(edited.updated_at, 5);
    assert_eq!(edited.created_at, 1);
    assert_eq!(edited.startup_policy, StartupPolicy::Auto);
    assert!(state.delete_project("b").is_ok());
    assert_eq!(state.store.projects.len(), 1);
}

#[test]
fn starting_launching_and_stopping_follow_the_status_model() {
    let mut state = state_with(vec![record("a", ProjectStatus::Stopped, false, None)]);
    match state.start_project("a", false, 10).unwrap() {
        StartStep::Launch(p) => assert_eq!(p.status, ProjectStatus::Starting),
        other => panic!("unexpected {other:?}"),
    }
    assert!(matches!(state.start_project("a", false, 11).unwrap(), StartStep::AlreadyActive));
    state.record_launch("a", 4242, "gen-1".to_string(), 12).unwrap();
    assert_eq!(state.store.projects[0].status, ProjectStatus::Running);
    assert_eq!(state.store.projects[0].pid, Some(4242));
    assert_eq!(state.begin_stop("a", false, 13).unwrap(), Some(4242));
    assert_eq!(state.store.projects[0].status, ProjectStatus::Stopping);
    state.finish_stop("a", false, 14).unwrap();
    assert_eq!(state.store.projects[0].status, ProjectStatus::Stopped);
    assert_eq!(state.store.projects[0].pid, None);
    assert!(state.runtimes.is_empty());
    assert!(matches!(state.start_project("a", false, 15).unwrap(), StartStep::Launch(_)));
}

#[test]
fn a_stale_or_stopped_exit_is_not_a_crash() {
    let mut state = state_with(vec![record("a", ProjectStatus::Stopped, false, None)]);
    state.start_project("a", false, 1).unwrap();
    state.record_launch("a", 50, "g1".to_string(), 2).unwrap();
    assert!(!state.child_exited("a", "old", ChildExit::Status { code: Some(0), success: true }, 3));
    assert_eq!(state.store.projects[0].status, ProjectStatus::Running);
    assert!(state.child_exited("a", "g1", ChildExit::Status { code: Some(1), success: false }, 4));
    let p = &state.store.projects[0];
    assert_eq!(p.status, ProjectStatus::Crashed);
    assert_eq!(p.last_exit_code, Some(1));
    assert_eq!(p.last_error.as_deref(), Some("プロセスがエラー終了しました。"));
    assert!(p.desired_running);
    let mut stopped = state_with(vec![record("b", ProjectStatus::Stopping, false, Some(9))]);
    assert!(!stopped.mark_unexpected_exit("b", None, "x", 5));
    assert_eq!(stopped.store.projects[0].status, ProjectStatus::Stopping);
}

#[test]
fn a_failed_wait_is_reported_with_its_reason() {
    let mut state = state_with(vec![record("a", ProjectStatus::Stopped, false, None)]);
    state.record_launch("a", 50, "g1".to_string(), 2).unwrap();
    assert!(state.child_exited("a", "g1", ChildExit::WaitFailed { detail: "boom".to_string() }, 4));
    assert_eq!(state.store.projects[0].last_error.as_deref(), Some("終了状態を取得できません: boom"));
}

#[test]
fn a_failed_launch_marks_the_project_crashed() {
    let mut state = state_with(vec![record("a", ProjectStatus::Stopped, false, None)]);
    state.start_project("a", false, 1).unwrap();
    state.mark_start_failed("a", "コマンドを起動できません: no shell", 2);
    let p = &state.store.projects[0];
    assert_eq!(p.status, ProjectStatus::Crashed);
    assert!(p.desired_running);
    assert_eq!(p.last_error.as_deref(), Some("コマンドを起動できません: no shell"));
}

#[test]
fn quitting_stops_nothing_twice_and_projects_come_back_for_restore() {
    let mut state = state_with(vec![
        record("a", ProjectStatus::Running, true, Some(11)),
        record("b", ProjectStatus::Starting, false, None),
        record("c", ProjectStatus::Crashed, true, None),
    ]);
    let active = state.prepare_for_exit(20).unwrap();
    assert_eq!(active, vec![("a".to_string(), 11)]);
    assert_eq!(state.store.projects[0].status, ProjectStatus::RestorePending);
    assert_eq!(state.store.projects[1].status, ProjectStatus::Stopped);
    assert_eq!(state.store.projects[2].status, ProjectStatus::Crashed);
    assert!(state.prepare_for_exit(21).is_none());
    assert!(state.start_project("a", false, 22).is_err());

    let mut next = AppState::new("/data".to_string(), state.store);
    next.reconcile_after_launch(&Vec::new());
    assert_eq!(next.restore_pending_ids(), vec!["a".to_string()]);
    assert!(next.auto_restore_ids().is_empty());
}

#[test]
fn the_first_look_after_a_restart_matches_live_processes() {
    let mut state = state_with(vec![
        record("a", ProjectStatus::Stopped, false, Some(5)),
        record("b", ProjectStatus::Running, true, Some(6)),
        record("c", ProjectStatus::Stopping, false, Some(7)),
    ]);
    state.reconcile_after_launch(&vec![5]);
    assert_eq!(state.store.projects[0].status, ProjectStatus::Running);
    assert!(state.store.projects[0].desired_running);
    assert_eq!(state.store.projects[1].status, ProjectStatus::RestorePending);
    assert_eq!(state.store.projects[1].pid, None);
    assert_eq!(state.store.projects[2].status, ProjectStatus::Stopped);
    let detached = state.detached_projects();
    assert_eq!(detached, vec![("a".to_string(), 5)]);
}

#[test]
fn the_tooltip_puts_crashes_first() {
    let mut state = state_with(vec![
        record("a", ProjectStatus::Crashed, true, None),
        record("b", ProjectStatus::RestorePending, true, None),
    ]);
    assert_eq!(tray_tooltip(&state.snapshot()), "Vibe Manager • 1件が異常終了");
    state.store.projects.remove(0);
    assert_eq!(tray_tooltip(&state.snapshot()), "Vibe Manager • 1件が復元待ち");
    state.store.projects.clear();
    assert_eq!(tray_tooltip(&state.snapshot()), "Vibe Manager • 0件が起動中");
}

#[test]
fn log_entries_have_their_fixed_form() {
    let mut p = record("a", ProjectStatus::Running, true, Some(31));
    assert_eq!(timestamp_label_at(1700000000), "unix:1700000000");
    assert_eq!(start_log_text("unix:1", &p), "\n[unix:1] --- Starting Project a ---\n[CMD] npm run dev\n[CWD] /work\n");
    assert_eq!(
        adopted_log_text("unix:2", &p),
        "[unix:2] --- Adopted external process Project a (PID 31) ---\n[VIBE] 取り込み前のログは取得できません。次回Vibe Managerから起動すると記録されます。\n"
    );
    p.pid = None;
    assert!(adopted_log_text("unix:2", &p).contains("(PID 0)"));
    assert_eq!(exit_log_text("unix:3", Some(-2)), "\n[unix:3] --- Process exited: Some(-2) ---\n");
    assert_eq!(exit_log_text("unix:3", None), "\n[unix:3] --- Process exited: None ---\n");
    assert_eq!(output_log_line("OUT", "ready"), "[OUT] ready\n");
}

#[test]
fn the_log_view_shows_the_tail_of_a_large_log() {
    assert_eq!(log_read_start(100), 0);
    assert_eq!(log_read_start(786432 + 10), 10);
    let bytes = b"rtial line\nlast line".to_vec();
    assert_eq!(log_tail_text(&bytes, 10), "…（先頭部分を省略）\nlast line");
    assert_eq!(log_tail_text(&bytes, 0), "rtial line\nlast line");
    let invalid = vec![b'o', b'k', 0xff];
    assert_eq!(log_tail_text(&invalid, 0), "ok\u{fffd}");
}
