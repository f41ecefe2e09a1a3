use create_process_w::Command;

fn w(s: &str) -> Vec<u16> {
    s.encode_utf16().collect()
}

#[test]
fn default_spawn_does_not_give_inheritable_handles() {
    let request = Command::new(w("cmd.exe /c exit 0")).prepare_spawn(Vec::new());
    assert!(
        !request.inherit_handles,
        "process handle should NOT be inheritable by default"
    );
}

#[test]
fn inherit_handles_true_gives_inheritable_handles() {
    let request = Command::new(w("cmd.exe /c exit 0"))
        .inherit_handles(true)
        .prepare_spawn(Vec::new());
    assert!(
        request.inherit_handles,
        "process handle should be inheritable when inherit_handles(true)"
    );
}
