use create_process_w::{Command, CreateRequest};

fn w(s: &str) -> Vec<u16> {
    s.encode_utf16().collect()
}

fn parent_env() -> Vec<(Vec<u16>, Vec<u16>)> {
    vec![
        (w("PATH"), w("C:\\Windows\\System32")),
        (w("TEMP"), w("C:\\Temp")),
    ]
}

/// The `KEY=VALUE` strings of the environment block of a request.
fn block_entries(request: &CreateRequest) -> Vec<String> {
    let block = request.environment.as_ref().expect("expected an environment block");
    let mut entries = Vec::new();
    let mut start = 0;
    let mut i = 0;
    while i < block.len() {
        if block[i] == 0 {
            if i == start {
                break;
            }
            entries.push(String::from_utf16(&block[start..i]).unwrap());
            start = i + 1;
        }
        i += 1;
    }
    entries
}

fn has_key(entries: &[String], key: &str) -> bool {
    entries
        .iter()
        .any(|e| e.split('=').next().unwrap().eq_ignore_ascii_case(key))
}

#[test]
fn env_var_is_passed_to_child() {
    let request = Command::new(w(r#"cmd.exe /c "if "%MY_VAR%"=="hello_test" (exit 0) else (exit 1)""#))
        .env(w("MY_VAR"), w("hello_test"))
        .prepare_spawn(parent_env());
    let entries = block_entries(&request);
    assert!(
        entries.contains(&"MY_VAR=hello_test".to_string()),
        "MY_VAR should be 'hello_test'"
    );
}

#[test]
fn env_clear_with_single_var() {
    let request = Command::new(w(
        r#"cmd.exe /c "if defined PATH (exit 1) else (if "%CUSTOM%"=="value" (exit 0) else (exit 2))""#,
    ))
    .env_clear()
    .env(w("CUSTOM"), w("value"))
    .prepare_spawn(parent_env());
    let entries = block_entries(&request);
    assert_eq!(
        entries,
        vec!["CUSTOM=value".to_string()],
        "PATH should be unset and CUSTOM should be 'value'"
    );
    assert!(!has_key(&entries, "PATH"));
}

#[test]
fn env_remove_removes_var() {
    let request = Command::new(w("cmd.exe /c \"if defined PATH (exit 1) else (exit 0)\""))
        .env_remove(w("PATH"))
        .prepare_spawn(parent_env());
    let entries = block_entries(&request);
    assert!(!has_key(&entries, "PATH"));
    assert!(entries.contains(&"TEMP=C:\\Temp".to_string()));
}

#[test]
fn last_duplicate_key_wins() {
    let request = Command::new(w(
        r#"cmd.exe /c "if "%MY_VAR%"=="second" (exit 2) else (if "%MY_VAR%"=="first" (exit 0) else (exit 3))""#,
    ))
    .env(w("MY_VAR"), w("first"))
    .env(w("MY_VAR"), w("second"))
    .prepare_spawn(parent_env());
    let entries = block_entries(&request);
    assert!(
        entries.contains(&"MY_VAR=second".to_string()),
        "duplicate key should keep the last value 'second'"
    );
    assert!(!entries.contains(&"MY_VAR=first".to_string()));
}

#[test]
fn last_duplicate_key_wins_case_insensitive() {
    let request = Command::new(w(
        r#"cmd.exe /c "if "%MYVAR%"=="second" (exit 2) else (if "%MYVAR%"=="first" (exit 0) else (exit 3))""#,
    ))
    .env(w("MyVar"), w("first"))
    .env(w("MYVAR"), w("second"))
    .prepare_spawn(parent_env());
    let entries = block_entries(&request);
    let myvar: Vec<&String> = entries
        .iter()
        .filter(|e| e.to_ascii_lowercase().starts_with("myvar="))
        .collect();
    assert_eq!(
        myvar,
        vec![&"MYVAR=second".to_string()],
        "case-insensitive duplicate key should keep the last value 'second'"
    );
}

#[test]
fn env_overrides_earlier_remove() {
    let request = Command::new(w(
        r#"cmd.exe /c "if "%MY_VAR%"=="hello_override" (exit 0) else (exit 1)""#,
    ))
    .env_remove(w("MY_VAR"))
    .env(w("MY_VAR"), w("hello_override"))
    .prepare_spawn(parent_env());
    let entries = block_entries(&request);
    assert!(
        entries.contains(&"MY_VAR=hello_override".to_string()),
        "env should override earlier env_remove"
    );
}

#[test]
fn remove_overrides_earlier_env() {
    let request = Command::new(w(r#"cmd.exe /c "if defined MY_VAR (exit 1) else (exit 0)""#))
        .env(w("MY_VAR"), w("some_value"))
        .env_remove(w("MY_VAR"))
        .prepare_spawn(parent_env());
    let entries = block_entries(&request);
    assert!(!has_key(&entries, "MY_VAR"), "env_remove should override earlier env");
}
