use relish::messages::NOT_FOUND_ERRNO;
use relish::messages::diagnostic_line;
use relish::messages::farewell;
use relish::messages::format_prompt;
use relish::messages::spawn_error_message;

#[test]
fn farewell_is_fixed() {
    assert_eq!(farewell(), "So long, and thanks for all the fish!");
}

#[test]
fn diagnostics_carry_the_prefix() {
    assert_eq!(diagnostic_line("boom"), "relish: boom");
}

#[test]
fn spawn_not_found_names_the_command() {
    let m = spawn_error_message("nosuchcmd", Some(NOT_FOUND_ERRNO), "ignored");
    assert_eq!(m, "relish: nosuchcmd: Command not found");
}

#[test]
fn spawn_other_error_keeps_error_text() {
    let m = spawn_error_message("tool", Some(13), "Permission denied (os error 13)");
    assert_eq!(m, "relish: tool: Permission denied (os error 13)");
}

#[test]
fn spawn_error_without_errno_is_bare() {
    let m = spawn_error_message("tool", None, "something odd");
    assert_eq!(m, "relish: something odd");
}

#[test]
fn prompt_has_user_host_cwd() {
    assert_eq!(format_prompt("u", "h", "/d"), "u@h /d $ ");
}
