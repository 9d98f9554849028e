use relish::dispatch::Action;
use relish::dispatch::is_builtin;
use relish::dispatch::step;
use relish::state::ShellState;

#[test]
fn builtins_are_recognized_exactly() {
    assert!(is_builtin("exit"));
    assert!(is_builtin("cd"));
    assert!(is_builtin("pwd"));
    assert!(!is_builtin("ls"));
    assert!(!is_builtin("Exit"));
    assert!(!is_builtin("cdd"));
    assert!(!is_builtin(""));
}

#[test]
fn step_blank_lines_do_nothing() {
    let mut s = ShellState::new(None);
    for line in ["", "   ", "\t", "# a comment", "  # indented comment"] {
        let a = step(&mut s, line, None, Some("/a".to_string()));
        assert!(matches!(a, Action::Nothing));
    }
    assert_eq!(s.oldpwd, None);
}

#[test]
fn step_leading_background_token_is_noop() {
    // an empty name is a no-op, never an attempt to run the empty string
    let mut s = ShellState::new(None);
    let a = step(&mut s, "& ls", None, Some("/a".to_string()));
    assert!(matches!(a, Action::Nothing));
    assert_eq!(s.oldpwd, None);
}

#[test]
fn step_exit_ignores_trailing_tokens() {
    let mut s = ShellState::new(None);
    match step(&mut s, "exit now really", None, None) {
        Action::Exit { farewell } => {
            assert_eq!(farewell, "So long, and thanks for all the fish!")
        }
        _ => panic!("expected Exit"),
    }
}

#[test]
fn step_exit_with_attached_background() {
    let mut s = ShellState::new(None);
    assert!(matches!(step(&mut s, "exit&", None, None), Action::Exit { .. }));
}

#[test]
fn step_cd_resolves_and_snapshots() {
    let mut s = ShellState::new(None);
    match step(&mut s, "cd /tmp", None, Some("/a".to_string())) {
        Action::ChangeDir { target } => assert_eq!(target, "/tmp"),
        _ => panic!("expected ChangeDir"),
    }
    assert_eq!(s.oldpwd, Some("/a".to_string()));
}

#[test]
fn step_cd_dash_round_trip() {
    let mut s = ShellState::new(None);
    match step(&mut s, "cd /b", None, Some("/a".to_string())) {
        Action::ChangeDir { target } => assert_eq!(target, "/b"),
        _ => panic!("expected ChangeDir"),
    }
    match step(&mut s, "cd -", None, Some("/b".to_string())) {
        Action::ChangeDir { target } => assert_eq!(target, "/a"),
        _ => panic!("expected ChangeDir"),
    }
    assert_eq!(s.oldpwd, Some("/b".to_string()));
}

#[test]
fn step_cd_home_fallback_is_dot() {
    let mut s = ShellState::new(None);
    match step(&mut s, "cd", None, Some("/a".to_string())) {
        Action::ChangeDir { target } => assert_eq!(target, "."),
        _ => panic!("expected ChangeDir"),
    }
}

#[test]
fn step_pwd_prints_directory_or_sentinel() {
    let mut s = ShellState::new(None);
    match step(&mut s, "pwd", None, Some("/cur".to_string())) {
        Action::PrintWorkingDir { display } => assert_eq!(display, "/cur"),
        _ => panic!("expected PrintWorkingDir"),
    }
    match step(&mut s, "pwd", None, None) {
        Action::PrintWorkingDir { display } => assert_eq!(display, "???"),
        _ => panic!("expected PrintWorkingDir"),
    }
}

#[test]
fn step_external_command_spawns() {
    let mut s = ShellState::new(None);
    match step(&mut s, "ls -la /tmp", None, None) {
        Action::Spawn { name, args, background } => {
            assert_eq!(name, "ls");
            assert_eq!(args, vec!["-la".to_string(), "/tmp".to_string()]);
            assert!(!background);
        }
        _ => panic!("expected Spawn"),
    }
}

#[test]
fn step_background_command_spawns_detached() {
    let mut s = ShellState::new(None);
    match step(&mut s, "sleep 5 &", None, None) {
        Action::Spawn { name, args, background } => {
            assert_eq!(name, "sleep");
            assert_eq!(args, vec!["5".to_string()]);
            assert!(background);
        }
        _ => panic!("expected Spawn"),
    }
}
