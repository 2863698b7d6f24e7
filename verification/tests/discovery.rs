use vibe_manager::discovery::{classify_runtime, parse_lsof_listeners, ListeningSocket};

#[test]
fn parses_lsof_machine_output() {
    let parsed = parse_lsof_listeners("p123\ncnode\nn127.0.0.1:3000\nn*:5173\n");
    assert_eq!(
        parsed,
        vec![
            ListeningSocket {
                pid: 123,
                port: 3000,
                address: "127.0.0.1".into(),
            },
            ListeningSocket {
                pid: 123,
                port: 5173,
                address: "*".into(),
            }
        ]
    );
}

#[test]
fn classifies_common_development_runtimes() {
    assert_eq!(classify_runtime("node.exe").0, "Node.js");
    assert_eq!(classify_runtime("python3").0, "Python");
    assert_eq!(classify_runtime("unknown").1, 0);
}
