use schemalint::helper::{
    augment_node_error, augment_python_error, node_command, resolve_python, resolve_tsx_cmd,
    spawn_failure_message, stderr_tail_text, NodeError, PythonError,
};

fn lines(n: usize) -> Vec<String> {
    (1..=n).map(|i| format!("l{i}")).collect()
}

#[test]
fn error_texts() {
    assert_eq!(NodeError::Timeout(30).message(), "discover request timed out after 30s");
    assert_eq!(NodeError::NotInstalled("x".into()).message(), "npx not found; tried x");
    assert_eq!(
        PythonError::NotInstalled("python3, python".into()).message(),
        "python interpreter not found: tried python3, python"
    );
    assert_eq!(PythonError::DiscoverFailed("boom".into()).message(), "discovery failed: boom");
}

#[test]
fn stderr_keeps_the_last_ten_lines() {
    assert_eq!(stderr_tail_text("Node", &lines(2)), "\n--- Node stderr ---\nl1\nl2\n--- end stderr ---");
    assert_eq!(
        stderr_tail_text("Python", &lines(12)),
        "\n--- Python stderr (last 10 of 12 lines) ---\nl3\nl4\nl5\nl6\nl7\nl8\nl9\nl10\nl11\nl12\n--- end stderr ---"
    );
}

#[test]
fn augmentation_appends_or_logs() {
    let (e, log) = augment_node_error(NodeError::DiscoverFailed("boom".into()), &lines(1));
    assert_eq!(e, NodeError::DiscoverFailed("boom\n--- Node stderr ---\nl1\n--- end stderr ---".into()));
    assert!(log.is_none());
    let (e, log) = augment_node_error(NodeError::Timeout(5), &lines(1));
    assert_eq!(e, NodeError::Timeout(5));
    assert_eq!(log.unwrap(), "[schemalint-zod] Node stderr during timeout:\n\n--- Node stderr ---\nl1\n--- end stderr ---");
    let (e, log) = augment_node_error(NodeError::SpawnFailed("x".into()), &vec![]);
    assert_eq!(e, NodeError::SpawnFailed("x".into()));
    assert!(log.is_none());
    assert_eq!(
        augment_python_error(PythonError::InvalidResponse("bad".into()), &lines(1)),
        PythonError::InvalidResponse("bad\n--- Python stderr ---\nl1\n--- end stderr ---".into())
    );
    assert_eq!(augment_python_error(PythonError::Timeout(3), &lines(1)), PythonError::Timeout(3));
}

#[test]
fn runners_are_resolved_in_order() {
    assert_eq!(resolve_python(Some("/usr/bin/py"), |_: &str| false).unwrap(), "/usr/bin/py");
    assert_eq!(resolve_python(None, |c: &str| c == "python").unwrap(), "python");
    assert_eq!(
        resolve_python(None, |_: &str| false).unwrap_err(),
        PythonError::NotInstalled("python3, python".into())
    );
    assert_eq!(resolve_tsx_cmd(None, |c: &str| c == "npx").unwrap(), ("npx".to_string(), vec!["tsx".to_string()]));
    assert_eq!(resolve_tsx_cmd(Some("/ws/tsx"), |_: &str| true).unwrap().0, "/ws/tsx");
    assert!(resolve_tsx_cmd(None, |_: &str| false).is_err());
}

#[test]
fn node_command_prefers_the_compiled_helper() {
    let source = || Ok::<String, NodeError>("bin/helper.js".to_string());
    let tsx = || Ok::<(String, Vec<String>), NodeError>(("npx".to_string(), vec!["tsx".to_string()]));
    assert_eq!(
        node_command(None, Some("dist/main.js"), source, tsx).unwrap(),
        ("node".to_string(), vec!["dist/main.js".to_string()])
    );
    assert_eq!(
        node_command(None, None, source, tsx).unwrap(),
        ("npx".to_string(), vec!["tsx".to_string(), "bin/helper.js".to_string()])
    );
    assert_eq!(
        node_command(Some("/opt/node"), None, source, tsx).unwrap(),
        ("/opt/node".to_string(), vec!["bin/helper.js".to_string()])
    );
    assert_eq!(
        spawn_failure_message("npx", &vec!["tsx".to_string(), "a.js".to_string()], "denied"),
        "failed to start 'npx tsx a.js': denied"
    );
}
