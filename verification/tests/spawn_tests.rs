use create_process_w::Command;

fn w(s: &str) -> Vec<u16> {
    s.encode_utf16().collect()
}

#[test]
fn no_env_args_inherits_parent() {
    let request = Command::new(w(r#"cmd.exe /c "if defined PATH (exit 0) else (exit 1)""#))
        .prepare_spawn(vec![(w("PATH"), w("C:\\Windows"))]);
    // No block: the child inherits the environment of the current process.
    assert!(request.environment.is_none());
    assert_eq!(request.creation_flags, 0);
}
