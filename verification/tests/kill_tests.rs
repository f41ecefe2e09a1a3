use create_process_w::{Child, Command, ProcessInformation};

fn w(s: &str) -> Vec<u16> {
    s.encode_utf16().collect()
}

#[test]
fn kill_terminates_process() {
    let request = Command::new(w(r#"cmd.exe /c ping 127.0.0.1 -n 50 >nul"#))
        .inherit_handles(true)
        .prepare_spawn(Vec::new());
    assert!(request.inherit_handles);
    let info = ProcessInformation { process: 40, thread: 44, process_id: 9, thread_id: 10 };
    let mut child = Child::from_creation(1, info).unwrap();
    // `TerminateProcess` returned TRUE, then the wait saw the process exit.
    assert!(child.kill_succeeded(1));
    assert!(child.wait_signaled(0));
    let _status = child.status_after_wait(1, 1).unwrap();
    assert!(!child.handles_open());
}
