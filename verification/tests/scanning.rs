use vibe_manager::discovery::{
    best_command, best_directory, candidates_from, classify_runtime, discover_candidates,
    is_common_dev_port, is_excluded_process, is_external_address, normalize_existing_path,
    parse_lsof_listeners,
    parse_windows_listener_json, sort_candidates, ListeningSocket, PathFacts, ProcessInfo,
    ShellStyle,
};
use vibe_manager::models::{AppSettings, DiscoveryCandidate};

fn process(pid: u32, parent: Option<u32>, name: &str, cwd: &str, exe: &str, cmd: &[&str]) -> ProcessInfo {
    ProcessInfo {
        pid,
        parent,
        name: name.to_string(),
        cwd: cwd.to_string(),
        exe: exe.to_string(),
        cmd: cmd.iter().map(|s| s.to_string()).collect(),
    }
}

fn socket(pid: u32, port: u16, address: &str) -> ListeningSocket {
    ListeningSocket { pid, port, address: address.to_string() }
}

fn table() -> Vec<ProcessInfo> {
    vec![
        process(200, Some(100), "node", "/work/app", "/usr/bin/node", &["node", "server.js"]),
        process(100, None, "npm", "/work/app", "/usr/bin/npm", &["npm", "run", "dev"]),
        process(300, None, "python3", "", "", &[]),
        process(400, None, "postgres", "/var/lib/pg", "/usr/bin/postgres", &["postgres"]),
        process(500, None, "mystery", "", "", &["mystery"]),
    ]
}

fn facts(n: usize) -> Vec<PathFacts> {
    (0..n).map(|_| PathFacts { under_root: false, dir_name: Some("app".to_string()) }).collect()
}

#[test]
fn classifies_every_runtime_with_its_score() {
    assert_eq!(classify_runtime("bun"), ("Bun".to_string(), 40));
    assert_eq!(classify_runtime("deno"), ("Deno".to_string(), 40));
    assert_eq!(classify_runtime("uvicorn"), ("Python".to_string(), 40));
    assert_eq!(classify_runtime("cargo"), ("Rust".to_string(), 35));
    assert_eq!(classify_runtime("dotnet"), (".NET".to_string(), 35));
    assert_eq!(classify_runtime("java"), ("Java".to_string(), 30));
    assert_eq!(classify_runtime("php-fpm"), ("PHP".to_string(), 35));
    assert_eq!(classify_runtime("ruby"), ("Ruby".to_string(), 35));
    assert_eq!(classify_runtime("nginx"), ("Local server / ローカルサーバー".to_string(), 0));
}

#[test]
fn excludes_services_databases_and_itself() {
    assert!(is_excluded_process("svchost.exe"));
    assert!(is_excluded_process("postgres"));
    assert!(is_excluded_process("vibe-manager"));
    assert!(!is_excluded_process("postgresql-helper"));
    assert!(!is_excluded_process("node"));
}

#[test]
fn recognises_development_ports() {
    assert!(is_common_dev_port(3000));
    assert!(is_common_dev_port(3010));
    assert!(!is_common_dev_port(3011));
    assert!(is_common_dev_port(4200));
    assert!(is_common_dev_port(5173));
    assert!(is_common_dev_port(8790));
    assert!(!is_common_dev_port(22));
}

#[test]
fn flags_addresses_reachable_from_other_machines() {
    assert!(is_external_address("0.0.0.0"));
    assert!(is_external_address("::"));
    assert!(is_external_address("*"));
    assert!(is_external_address("[::]"));
    assert!(!is_external_address("127.0.0.1"));
}

#[test]
fn lsof_parsing_handles_ipv6_bad_pids_and_crlf() {
    let parsed = parse_lsof_listeners("p42\r\nn[::1]:8080\r\npabc\nn*:9000\np7\nnnoport\nn*:70000\nn[::]:3001");
    assert_eq!(parsed, vec![socket(42, 8080, "::1"), socket(7, 3001, "::")]);
    assert!(parse_lsof_listeners("").is_empty());
}

#[test]
fn windows_listener_json_keeps_complete_records() {
    let parsed = parse_windows_listener_json(
        "  [{\"address\":\"0.0.0.0\",\"port\":5173,\"pid\":88},{\"address\":\"::\",\"port\":3000},{\"address\":\"127.0.0.1\",\"port\":4000,\"pid\":9}]\n",
    );
    assert_eq!(parsed, vec![socket(88, 5173, "0.0.0.0"), socket(9, 4000, "127.0.0.1")]);
    assert!(parse_windows_listener_json("not json").is_empty());
}

#[test]
fn walks_up_to_an_ancestor_for_directory_and_command() {
    let t = table();
    assert_eq!(best_directory(&t, 200).as_deref(), Some("/work/app"));
    assert_eq!(best_directory(&t, 300), None);
    assert_eq!(best_command(&t, 200, ShellStyle::Posix), "npm run dev");
    assert_eq!(best_command(&t, 500, ShellStyle::Posix), "mystery");
    assert_eq!(best_command(&t, 999, ShellStyle::Posix), "");
}

#[test]
fn scan_builds_and_ranks_candidates() {
    let t = table();
    let sockets = vec![
        socket(300, 8000, "0.0.0.0"),
        socket(200, 3000, "127.0.0.1"),
        socket(200, 3000, "::1"),
        socket(1, 3001, "127.0.0.1"),
        socket(0, 3002, "127.0.0.1"),
        socket(400, 5432, "127.0.0.1"),
        socket(500, 12345, "127.0.0.1"),
        socket(999, 3003, "127.0.0.1"),
    ];
    let found = candidates_from(&sockets, &t, 1, false, &facts(sockets.len()), ShellStyle::Posix, 5);
    assert_eq!(found.len(), 2);
    let node = &found[0];
    assert_eq!(node.pid, 200);
    assert_eq!(node.port, 3000);
    assert_eq!(node.key, "/work/app|node|3000");
    assert_eq!(node.url, "http://localhost:3000");
    assert_eq!(node.name, "app");
    assert_eq!(node.process_type, "Node.js");
    assert_eq!(node.command, "npm run dev");
    assert_eq!(node.directory, "/work/app");
    assert_eq!(node.confidence, 90);
    assert!(!node.external_exposure);
    assert_eq!(node.discovered_at, 5);
    let python = &found[1];
    assert_eq!(python.key, "python3|python3|8000");
    assert_eq!(python.name, "Python :8000");
    assert_eq!(python.confidence, 55);
    assert!(python.external_exposure);
}

#[test]
fn scan_with_workspace_roots_keeps_only_servers_under_them() {
    let t = table();
    let sockets = vec![socket(300, 8000, "0.0.0.0"), socket(200, 3000, "127.0.0.1")];
    let mut f = facts(2);
    f[1].under_root = true;
    let found = candidates_from(&sockets, &t, 1, true, &f, ShellStyle::Posix, 5);
    assert_eq!(found.len(), 1);
    assert_eq!(found[0].pid, 200);
    assert_eq!(found[0].confidence, 100);
}

#[test]
fn discovery_does_nothing_when_disabled_or_quiet() {
    let t = table();
    let mut settings = AppSettings::default();
    let sockets = vec![socket(200, 3000, "127.0.0.1")];
    assert_eq!(discover_candidates(&settings, &Vec::new(), &t, 1, &Vec::new(), ShellStyle::Posix).len(), 0);
    settings.discovery_enabled = false;
    assert_eq!(discover_candidates(&settings, &sockets, &t, 1, &Vec::new(), ShellStyle::Posix).len(), 0);
    settings.discovery_enabled = true;
    let found = discover_candidates(&settings, &sockets, &t, 1, &vec!["/work".to_string()], ShellStyle::Posix);
    assert_eq!(found.len(), 1);
    assert_eq!(found[0].name, "app");
    assert_eq!(found[0].confidence, 100);
}

#[test]
fn windows_compares_workspace_paths_without_case() {
    let t = table();
    let settings = AppSettings::default();
    let sockets = vec![socket(200, 3000, "127.0.0.1")];
    let roots = vec!["/WORK".to_string()];
    assert!(discover_candidates(&settings, &sockets, &t, 1, &roots, ShellStyle::Posix).is_empty());
    let found = discover_candidates(&settings, &sockets, &t, 1, &roots, ShellStyle::Windows);
    assert_eq!(found.len(), 1);
    assert_eq!(found[0].directory, "/work/app");
    assert_eq!(found[0].confidence, 100);
}

fn ranked(confidence: u8, port: u16, name: &str) -> DiscoveryCandidate {
    DiscoveryCandidate {
        key: name.to_string(),
        pid: 1,
        port,
        address: String::new(),
        url: String::new(),
        name: name.to_string(),
        process_name: String::new(),
        process_type: String::new(),
        executable: String::new(),
        command: String::new(),
        directory: String::new(),
        external_exposure: false,
        confidence,
        discovered_at: 0,
    }
}

#[test]
fn ranking_orders_by_confidence_then_port_and_is_stable() {
    let input = vec![
        ranked(50, 3000, "a"),
        ranked(90, 8000, "b"),
        ranked(50, 2000, "c"),
        ranked(90, 8000, "d"),
        ranked(100, 9000, "e"),
    ];
    let sorted = sort_candidates(&input);
    let names: Vec<String> = sorted.iter().map(|c| c.name.clone()).collect();
    assert_eq!(names, vec!["e", "b", "d", "c", "a"]);
}

#[test]
fn workspace_folders_are_trimmed_resolved_and_must_exist() {
    let temp = tempfile::tempdir().unwrap();
    let dir = temp.path().to_string_lossy().into_owned();
    let resolved = std::path::Path::new(&dir).canonicalize().unwrap().to_string_lossy().into_owned();
    assert_eq!(normalize_existing_path(&format!("  {dir}\n")), Some(resolved));
    assert_eq!(normalize_existing_path("/definitely/missing/place"), None);
    assert_eq!(normalize_existing_path("   "), None);
}
