use create_process_w::{Child, ExitStatus, ProcessInformation, TryWait};

const STATUS_PENDING: u32 = 0x103;

fn child() -> Child {
    Child::from_creation(
        1,
        ProcessInformation { process: 40, thread: 44, process_id: 7, thread_id: 8 },
    )
    .expect("CreateProcessW succeeded")
}

#[test]
fn status_try_wait_eventually_returns_some() {
    let mut child = child();
    assert_eq!(child.id(), 7);
    // `GetExitCodeProcess` answers: still running twice, then exited with 0.
    let answers = [(1, STATUS_PENDING), (1, STATUS_PENDING), (1, 0)];
    let mut got = None;
    for (ok, code) in answers.iter() {
        match child.try_wait_outcome(*ok, *code) {
            TryWait::Exited(status) => {
                got = Some(status);
                break;
            }
            TryWait::Running => assert!(child.handles_open()),
            TryWait::Failed => panic!("query failed"),
        }
    }
    let status = got.expect("expected try_wait to eventually return Some(exit_status)");
    assert_eq!(status.code(), 0);
    assert!(!child.handles_open());
    assert_eq!(child.id(), 7);
}

#[test]
fn status_wait_returns_exit_code() {
    let mut child = child();
    assert!(child.wait_signaled(0));
    let status = child.status_after_wait(1, 0).unwrap();
    assert!(status.success());
    assert_eq!(status, ExitStatus(0));
    assert!(!child.handles_open());
}
