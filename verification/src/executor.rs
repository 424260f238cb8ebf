//! Running the chosen command: which shell, and what is printed around it.
use vstd::prelude::*;
use crate::text::{copy_str, i32_text, signed_decimal};
use crate::ui::color::{Colors, painted};

verus! {

/// The shell that runs commands: `$SHELL` when it is set, else `sh`.
pub fn shell_program(env_shell: Option<String>) -> (r: String)
    ensures
        env_shell matches Some(s) ==> r == s,
        env_shell is None ==> r@ == "sh"@,
{
    match env_shell {
        Some(s) => s,
        None => copy_str("sh"),
    }
}

/// The exit status to report: the process's code, or 1 when it was ended
/// by a signal and has none.
pub fn exit_code_of(code: Option<i32>) -> (r: i32)
    ensures
        r == match code {
            Some(c) => c,
            None => 1,
        },
{
    match code {
        Some(c) => c,
        None => 1,
    }
}

/// The line shown instead of running the command (`--dry`).
pub fn dry_run_line(colors: &Colors, command: &str) -> (r: String)
    ensures
        r@ == "$ "@ + painted(colors.is_enabled(), "\x1b[36m"@, command@),
{
    let mut s = copy_str("$ ");
    let c = colors.cyan(command);
    s.append(c.as_str());
    s
}

/// The line shown before the command runs.
pub fn executing_line(colors: &Colors, command: &str) -> (r: String)
    ensures
        r@ == "→ Executing: "@ + painted(colors.is_enabled(), "\x1b[36m"@, command@),
{
    let mut s = copy_str("→ Executing: ");
    let c = colors.cyan(command);
    s.append(c.as_str());
    s
}

/// The line shown after the command ends with exit status `code`.
pub open spec fn outcome_text(enabled: bool, success: bool, code: int) -> Seq<char> {
    if success {
        painted(enabled, "\x1b[36m"@, "✓"@) + " Done (exit "@ + signed_decimal(code) + ")"@
    } else {
        painted(enabled, "\x1b[31m"@, "✗"@) + " Failed (exit "@ + signed_decimal(code) + ")"@
    }
}

pub fn outcome_line(colors: &Colors, success: bool, code: i32) -> (r: String)
    ensures
        r@ == outcome_text(colors.is_enabled(), success, code as int),
{
    let mut s = if success {
        let mut t = colors.cyan("✓");
        t.append(" Done (exit ");
        t
    } else {
        let mut t = colors.red("✗");
        t.append(" Failed (exit ");
        t
    };
    let n = i32_text(code);
    s.append(n.as_str());
    s.append(")");
    s
}


/// What running a command amounts to.
pub enum RunPlan {
    /// Print `line` and report `exit_code`; no process is started.
    Show { line: String, exit_code: i32 },
    /// Print `banner`, then run the command with `shell -c`.
    Execute { banner: String, shell: String },
}

/// The plan for `command`: a dry run only shows it and reports exit status
/// 0; otherwise it is announced and run by the user's shell.
pub fn plan_run(colors: &Colors, command: &str, dry: bool, env_shell: Option<String>) -> (r: RunPlan)
    ensures
        dry ==> (r matches RunPlan::Show { line, exit_code } && exit_code == 0 && line@ == "$ "@
            + painted(colors.is_enabled(), "\x1b[36m"@, command@)),
        !dry ==> (r matches RunPlan::Execute { banner, shell } && banner@ == "→ Executing: "@
            + painted(colors.is_enabled(), "\x1b[36m"@, command@) && (match env_shell {
            Some(s) => shell == s,
            None => shell@ == "sh"@,
        })),
{
    if dry {
        RunPlan::Show { line: dry_run_line(colors, command), exit_code: 0 }
    } else {
        RunPlan::Execute { banner: executing_line(colors, command), shell: shell_program(env_shell) }
    }
}

} // verus!
