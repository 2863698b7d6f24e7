use vibe_manager::discovery::{join_command, shell_quote, ShellStyle};

#[test]
fn posix_quoting_keeps_plain_arguments() {
    assert_eq!(shell_quote("npm", ShellStyle::Posix), "npm");
    assert_eq!(shell_quote("./bin/dev:3000", ShellStyle::Posix), "./bin/dev:3000");
    assert_eq!(shell_quote("", ShellStyle::Posix), "");
}

#[test]
fn posix_quoting_escapes_single_quotes() {
    assert_eq!(shell_quote("it's here", ShellStyle::Posix), "'it'\\''s here'");
    assert_eq!(shell_quote("a b", ShellStyle::Posix), "'a b'");
}

#[test]
fn windows_quoting_wraps_spaces_and_quotes() {
    assert_eq!(shell_quote("C:\\Program Files\\node.exe", ShellStyle::Windows), "\"C:\\Program Files\\node.exe\"");
    assert_eq!(shell_quote("say \"hi\"", ShellStyle::Windows), "\"say \\\"hi\\\"\"");
    assert_eq!(shell_quote("plain", ShellStyle::Windows), "plain");
}

#[test]
fn joins_quoted_arguments_with_spaces() {
    let args = vec!["node".to_string(), "my app.js".to_string(), "--port=3000".to_string()];
    assert_eq!(join_command(&args, ShellStyle::Posix), "node 'my app.js' '--port=3000'");
    assert_eq!(join_command(&Vec::new(), ShellStyle::Posix), "");
}
