use relay::agents::codex::{CodexAgent, CodexConfig};

fn config(binary: Option<&str>) -> CodexConfig {
    CodexConfig { binary: binary.map(String::from), model: "o4-mini".to_string() }
}

#[test]
fn default_binary_is_codex() {
    let agent = CodexAgent::new(&config(None));
    assert_eq!(agent.binary(), "codex");
    assert_eq!(agent.model(), "o4-mini");
    assert_eq!(agent.name(), "codex");
    let agent = CodexAgent::new(&config(Some("/opt/codex")));
    assert_eq!(agent.binary(), "/opt/codex");
}

#[test]
fn available_when_found() {
    let agent = CodexAgent::new(&config(None));
    let status = agent.availability(Some("/usr/bin/codex".into()), Some(" codex 1.2.3\n".into()));
    assert_eq!(status.name, "codex");
    assert!(status.available);
    assert_eq!(status.reason, "Found at /usr/bin/codex");
    assert_eq!(status.version.as_deref(), Some("codex 1.2.3"));
    let status = agent.availability(Some("/usr/bin/codex".into()), None);
    assert_eq!(status.version, None);
}

#[test]
fn unavailable_when_missing() {
    let agent = CodexAgent::new(&config(Some("mycodex")));
    let status = agent.availability(None, None);
    assert!(!status.available);
    assert_eq!(status.reason, "'mycodex' not found in PATH");
    assert_eq!(status.version, None);
}

#[test]
fn launch_arguments() {
    let agent = CodexAgent::new(&config(None));
    assert_eq!(agent.launch_args("do it"), vec!["--full-auto", "-m", "o4-mini", "do it"]);
}

#[test]
fn session_messages() {
    let agent = CodexAgent::new(&config(None));
    let ok = agent.session_result(true, Some(0), "/tmp/relay_handoff.md".into());
    assert_eq!(ok.agent, "codex");
    assert!(ok.success);
    assert_eq!(ok.message, "Codex (o4-mini) session ended");
    assert_eq!(ok.handoff_file.as_deref(), Some("/tmp/relay_handoff.md"));
    let failed = agent.session_result(false, Some(2), "f".into());
    assert_eq!(failed.message, "Codex exited with code Some(2)");
    let negative = agent.session_result(false, Some(-1), "f".into());
    assert_eq!(negative.message, "Codex exited with code Some(-1)");
    let killed = agent.session_result(false, None, "f".into());
    assert_eq!(killed.message, "Codex exited with code None");
    let extreme = agent.session_result(false, Some(i32::MIN), "f".into());
    assert_eq!(extreme.message, format!("Codex exited with code {:?}", Some(i32::MIN)));
}
