use relish::state::ShellState;
use relish::state::or_unknown;

#[test]
fn new_state_keeps_initial_oldpwd() {
    let s = ShellState::new(Some("/prev".to_string()));
    assert_eq!(s.oldpwd, Some("/prev".to_string()));
    assert_eq!(s.cwd, "???");
}

#[test]
fn observe_cwd_records_display_form() {
    let mut s = ShellState::new(None);
    s.observe_cwd(Some("/work".to_string()));
    assert_eq!(s.cwd, "/work");
    s.observe_cwd(None);
    assert_eq!(s.cwd, "???");
}

#[test]
fn cd_no_args_goes_home() {
    let mut s = ShellState::new(None);
    let t = s.cd_prepare(&vec![], Some("/home/u".to_string()), Some("/a".to_string()));
    assert_eq!(t, "/home/u");
}

#[test]
fn cd_no_args_no_home_goes_dot() {
    let mut s = ShellState::new(None);
    let t = s.cd_prepare(&vec![], None, Some("/a".to_string()));
    assert_eq!(t, ".");
}

#[test]
fn cd_dash_goes_to_oldpwd() {
    let mut s = ShellState::new(Some("/before".to_string()));
    let t = s.cd_prepare(&vec!["-".to_string()], None, Some("/a".to_string()));
    assert_eq!(t, "/before");
}

#[test]
fn cd_dash_without_oldpwd_goes_dot() {
    let mut s = ShellState::new(None);
    let t = s.cd_prepare(&vec!["-".to_string()], None, Some("/a".to_string()));
    assert_eq!(t, ".");
}

#[test]
fn cd_literal_path() {
    let mut s = ShellState::new(None);
    let t = s.cd_prepare(&vec!["/tmp".to_string()], None, Some("/a".to_string()));
    assert_eq!(t, "/tmp");
}

#[test]
fn cd_ignores_extra_args() {
    let mut s = ShellState::new(None);
    let t = s.cd_prepare(
        &vec!["/tmp".to_string(), "/other".to_string()],
        None,
        Some("/a".to_string()),
    );
    assert_eq!(t, "/tmp");
}

#[test]
fn cd_snapshots_current_unconditionally() {
    let mut s = ShellState::new(Some("/before".to_string()));
    s.cd_prepare(&vec!["/nosuchdir".to_string()], None, Some("/a".to_string()));
    assert_eq!(s.oldpwd, Some("/a".to_string()));
}

#[test]
fn cd_snapshot_falls_back_to_dot() {
    let mut s = ShellState::new(None);
    s.cd_prepare(&vec!["/tmp".to_string()], None, None);
    assert_eq!(s.oldpwd, Some(".".to_string()));
}

#[test]
fn cd_dash_round_trip_restores_start() {
    // starting in A, `cd B` then `cd -` restores A, and oldpwd ends at B
    let mut s = ShellState::new(None);
    let t1 = s.cd_prepare(&vec!["/b".to_string()], None, Some("/a".to_string()));
    assert_eq!(t1, "/b");
    assert_eq!(s.oldpwd, Some("/a".to_string()));
    let t2 = s.cd_prepare(&vec!["-".to_string()], None, Some("/b".to_string()));
    assert_eq!(t2, "/a");
    assert_eq!(s.oldpwd, Some("/b".to_string()));
}

#[test]
fn or_unknown_shows_reading_or_sentinel() {
    assert_eq!(or_unknown(Some("/d".to_string())), "/d");
    assert_eq!(or_unknown(None), "???");
}
