use create_process_w::env_block::{ascii_lower_wide, build_env_block, eq_ignore_ascii_case, key_le};
use create_process_w::{Child, Command, ExitStatus, ProcessInformation, ShowWindowCommand, TryWait};

fn w(s: &str) -> Vec<u16> {
    s.encode_utf16().collect()
}

fn set(k: &str, v: &str) -> (Vec<u16>, Option<Vec<u16>>) {
    (w(k), Some(w(v)))
}

fn remove(k: &str) -> (Vec<u16>, Option<Vec<u16>>) {
    (w(k), None)
}

fn var(k: &str, v: &str) -> (Vec<u16>, Vec<u16>) {
    (w(k), w(v))
}

#[test]
fn lowering_touches_only_ascii_capitals() {
    assert_eq!(ascii_lower_wide(&w("Path_Ä9Z[@")), w("path_Ä9z[@"));
    assert_eq!(ascii_lower_wide(&Vec::new()), Vec::<u16>::new());
}

#[test]
fn keys_compare_ignoring_ascii_case() {
    assert!(eq_ignore_ascii_case(&w("MyVar"), &w("MYVAR")));
    assert!(!eq_ignore_ascii_case(&w("MyVar"), &w("MyVa")));
    assert!(!eq_ignore_ascii_case(&w("Ä"), &w("ä")));
}

#[test]
fn key_order_is_lexicographic_on_lowered_keys() {
    assert!(key_le(&w("abc"), &w("ABD")));
    assert!(!key_le(&w("ABD"), &w("abc")));
    assert!(key_le(&w("ab"), &w("AB")));
    assert!(key_le(&w("AB"), &w("abc")));
    assert!(!key_le(&w("abc"), &w("ab")));
    // '_' (0x5F) sorts before 'a' but after 'A'..'Z' once lowered.
    assert!(key_le(&w("A_"), &w("Aa")));
}

#[test]
fn no_block_without_clear_or_change() {
    assert_eq!(build_env_block(false, Vec::new(), vec![var("PATH", "x")]), None);
}

#[test]
fn cleared_empty_environment_is_two_nuls() {
    assert_eq!(build_env_block(true, Vec::new(), vec![var("PATH", "x")]), Some(vec![0, 0]));
}

#[test]
fn block_is_sorted_and_nul_terminated() {
    let block = build_env_block(
        false,
        vec![set("b", "2"), set("A", "1")],
        vec![var("c", "3")],
    )
    .unwrap();
    assert_eq!(block, w("A=1\0b=2\0c=3\0\0"));
}

#[test]
fn equal_lowered_keys_keep_inherited_order() {
    let block = build_env_block(
        false,
        vec![set("z", "0")],
        vec![var("x", "1"), var("X", "2"), var("a", "3")],
    )
    .unwrap();
    assert_eq!(block, w("a=3\0x=1\0X=2\0z=0\0\0"));
}

#[test]
fn law_last_change_wins_on_values() {
    // Set, then set again with other case: one entry, the last.
    let block = build_env_block(
        false,
        vec![set("Key", "old"), remove("other"), set("KEY", "new")],
        vec![var("key", "inherited"), var("OTHER", "gone")],
    )
    .unwrap();
    assert_eq!(block, w("KEY=new\0\0"));
    // Removal as the last change leaves no entry for the key.
    let block = build_env_block(false, vec![set("K", "v"), remove("k")], vec![var("K", "p")]).unwrap();
    assert_eq!(block, vec![0, 0]);
}

#[test]
fn law_unnamed_key_inherited_on_values() {
    let inherited = vec![var("PATH", "p"), var("TEMP", "t")];
    let block = build_env_block(false, vec![set("X", "1")], inherited.clone()).unwrap();
    assert_eq!(block, w("PATH=p\0TEMP=t\0X=1\0\0"));
    let block = build_env_block(true, vec![set("X", "1")], inherited).unwrap();
    assert_eq!(block, w("X=1\0\0"));
}

#[test]
fn exit_status_reports_code_and_success() {
    assert!(ExitStatus(0).success());
    assert!(!ExitStatus(1).success());
    assert_eq!(ExitStatus(42).code(), 42);
    assert_eq!(ExitStatus(0).to_string(), "0");
    assert_eq!(ExitStatus(42).to_string(), "42");
    assert_eq!(ExitStatus(4294967295).to_string(), "4294967295");
}

#[test]
fn show_window_commands_have_their_values() {
    assert_eq!(ShowWindowCommand::SW_HIDE().as_u16(), 0);
    assert_eq!(ShowWindowCommand::SW_SHOWNORMAL().as_u16(), 1);
    assert_eq!(ShowWindowCommand::SW_NORMAL(), ShowWindowCommand::SW_SHOWNORMAL());
    assert_eq!(ShowWindowCommand::SW_SHOWMINIMIZED().as_u16(), 2);
    assert_eq!(ShowWindowCommand::SW_MAXIMIZE(), ShowWindowCommand::SW_SHOWMAXIMIZED());
    assert_eq!(ShowWindowCommand::SW_SHOWMAXIMIZED().as_u16(), 3);
    assert_eq!(ShowWindowCommand::SW_SHOWNOACTIVATE().as_u16(), 4);
    assert_eq!(ShowWindowCommand::SW_SHOW().as_u16(), 5);
    assert_eq!(ShowWindowCommand::SW_MINIMIZE().as_u16(), 6);
    assert_eq!(ShowWindowCommand::SW_SHOWMINNOACTIVE().as_u16(), 7);
    assert_eq!(ShowWindowCommand::SW_SHOWNA().as_u16(), 8);
    assert_eq!(ShowWindowCommand::SW_RESTORE().as_u16(), 9);
    assert_eq!(ShowWindowCommand::SW_SHOWDEFAULT().as_u16(), 10);
    assert_eq!(ShowWindowCommand::SW_FORCEMINIMIZE().as_u16(), 11);
}

#[test]
fn request_strings_are_nul_terminated() {
    let request = Command::new(w("app.exe -x"))
        .current_dir(w("C:\\work"))
        .env(w("A"), w("1"))
        .prepare_spawn(Vec::new());
    assert_eq!(request.command_line, w("app.exe -x\0"));
    assert_eq!(request.current_directory, Some(w("C:\\work\0")));
    assert_eq!(request.creation_flags, 0x400);
    assert_eq!(request.environment, Some(w("A=1\0\0")));
}

#[test]
fn spawning_takes_the_changes_but_keeps_the_clear_flag() {
    let mut command = Command::new(w("x"));
    command.env_clear().env(w("A"), w("1"));
    let first = command.prepare_spawn(vec![var("P", "1")]);
    assert_eq!(first.environment, Some(w("A=1\0\0")));
    let second = command.prepare_spawn(vec![var("P", "1")]);
    assert_eq!(second.environment, Some(vec![0, 0]));
}

#[test]
fn env_clear_drops_earlier_changes() {
    let request = Command::new(w("x"))
        .env(w("A"), w("1"))
        .env_clear()
        .env(w("B"), w("2"))
        .prepare_spawn(vec![var("P", "1")]);
    assert_eq!(request.environment, Some(w("B=2\0\0")));
}

#[test]
fn envs_sets_in_order() {
    let request = Command::new(w("x"))
        .envs(vec![var("A", "1"), var("a", "2"), var("B", "3")])
        .prepare_spawn(Vec::new());
    assert_eq!(request.environment, Some(w("a=2\0B=3\0\0")));
}

#[test]
fn creation_failure_gives_no_child() {
    let info = ProcessInformation { process: 1, thread: 2, process_id: 3, thread_id: 4 };
    assert!(Child::from_creation(0, info).is_none());
    let child = Child::from_creation(1, info).unwrap();
    assert_eq!(child.process_information(), info);
    assert_eq!(child.id(), 3);
    assert!(child.handles_open());
}

#[test]
fn exit_code_decisions() {
    let info = ProcessInformation { process: 1, thread: 2, process_id: 3, thread_id: 4 };
    let mut child = Child::from_creation(1, info).unwrap();
    assert!(!child.kill_succeeded(0));
    assert!(child.kill_succeeded(-1));
    assert!(!child.wait_signaled(0x102));
    assert_eq!(child.status_after_wait(0, 5), None);
    assert!(child.handles_open());
    assert_eq!(child.try_wait_outcome(0, 0), TryWait::Failed);
    assert_eq!(child.try_wait_outcome(1, 0x103), TryWait::Running);
    assert!(child.handles_open());
    assert_eq!(child.try_wait_outcome(1, 3), TryWait::Exited(ExitStatus(3)));
    assert!(!child.handles_open());
    let mut other = Child::from_creation(1, info).unwrap();
    assert_eq!(other.status_after_wait(1, 0x103), Some(ExitStatus(0x103)));
    assert!(!other.handles_open());
}

#[test]
fn show_window_reaches_the_request() {
    let request = Command::new(w("x")).prepare_spawn(Vec::new());
    assert_eq!(request.startup_flags, 0);
    assert_eq!(request.show_window, 0);
    let request = Command::new(w("x"))
        .show_window(ShowWindowCommand::SW_MINIMIZE())
        .prepare_spawn(Vec::new());
    assert_eq!(request.startup_flags, 1);
    assert_eq!(request.show_window, 6);
    let request = Command::new(w("x"))
        .show_window(ShowWindowCommand::SW_HIDE())
        .prepare_spawn(Vec::new());
    assert_eq!(request.startup_flags, 1);
    assert_eq!(request.show_window, 0);
}

#[test]
fn law_reordered_changes_on_values() {
    let inherited = vec![var("PATH", "p"), var("TEMP", "t")];
    let one = build_env_block(
        false,
        vec![set("B", "2"), remove("path"), set("a", "1")],
        inherited.clone(),
    );
    let other = build_env_block(
        false,
        vec![set("a", "1"), set("B", "2"), remove("path")],
        inherited,
    );
    assert_eq!(one, other);
    assert_eq!(one, Some(w("a=1\0B=2\0TEMP=t\0\0")));
}

#[test]
fn law_block_parses_back_on_values() {
    let block = build_env_block(
        true,
        vec![set("K", "v=w"), set("E", "")],
        Vec::new(),
    )
    .unwrap();
    let text = String::from_utf16(&block).unwrap();
    let pairs: Vec<(String, String)> = text
        .split('\0')
        .take_while(|s| !s.is_empty())
        .map(|s| {
            let (k, v) = s.split_once('=').unwrap();
            (k.to_string(), v.to_string())
        })
        .collect();
    assert_eq!(
        pairs,
        vec![("E".to_string(), String::new()), ("K".to_string(), "v=w".to_string())]
    );
}
