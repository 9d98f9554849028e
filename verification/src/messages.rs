//! User-visible text: the diagnostic prefix, spawn-failure messages,
//! the prompt, and the farewell printed by `exit`.

use vstd::prelude::*;
use vstd::string::StringExecFns;

verus! {

/// The farewell that `exit` prints, as a sequence of characters.
pub open spec fn farewell_text() -> Seq<char> {
    "So long, and thanks for all the fish!"@
}

/// Returns the farewell message printed exactly once when `exit` runs.
pub fn farewell() -> (r: String)
    ensures
        r@ == farewell_text(),
{
    String::from_str("So long, and thanks for all the fish!")
}

/// Prefixes a message with the interpreter's name, the form every
/// diagnostic line takes.
pub fn diagnostic_line(msg: &str) -> (r: String)
    ensures
        r@ == "relish: "@ + msg@,
{
    let mut r = String::from_str("relish: ");
    r.append(msg);
    r
}

/// The operating-system error number that means the executable was not
/// found (ENOENT).
pub const NOT_FOUND_ERRNO: i32 = 2;

/// Classifies a spawn failure into its diagnostic line: a "command not
/// found" message naming the command where the operating system
/// reported the executable missing, a generic message with the
/// underlying error text for any other error number, and the bare error
/// text where no error number was reported.
pub fn spawn_error_message(name: &str, errno: Option<i32>, err_text: &str) -> (r: String)
    ensures
        errno == Some(NOT_FOUND_ERRNO) ==> r@ == "relish: "@ + name@ + ": Command not found"@,
        (errno matches Some(e) && e != NOT_FOUND_ERRNO) ==> r@ == "relish: "@ + name@ + ": "@
            + err_text@,
        errno is None ==> r@ == "relish: "@ + err_text@,
{
    match errno {
        Some(e) => {
            let mut r = String::from_str("relish: ");
            r.append(name);
            if e == NOT_FOUND_ERRNO {
                r.append(": Command not found");
            } else {
                r.append(": ");
                r.append(err_text);
            }
            r
        },
        None => diagnostic_line(err_text),
    }
}

/// Formats the prompt `"<user>@<host> <cwd> $ "`, shown before each
/// input line.
pub fn format_prompt(user: &str, host: &str, cwd: &str) -> (r: String)
    ensures
        r@ == user@ + "@"@ + host@ + " "@ + cwd@ + " $ "@,
{
    let mut r = String::from_str(user);
    r.append("@");
    r.append(host);
    r.append(" ");
    r.append(cwd);
    r.append(" $ ");
    r
}

} // verus!
