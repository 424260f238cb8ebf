//! What the interactive session does after each choice: which outside work
//! comes next (running, copying, asking the model or the user), what is
//! logged and printed, and how the program ends. The program performs each
//! step and hands its outcome back.
use vstd::prelude::*;
use crate::logger::LoggedAction;
use crate::text::copy_str;
use crate::ui::Action;

verus! {

/// A line for the user: on standard output, or on standard error.
pub enum Note {
    Silent,
    Shown(String),
    Problem(String),
}

/// The next thing the program does.
pub enum Next {
    /// Run the command; then hand its exit code to `after_run`.
    Run,
    /// Copy the command to the clipboard; then hand the outcome to
    /// `after_copy`.
    Copy,
    /// Ask the model to explain the command; then hand the outcome to
    /// `after_explain`.
    Explain,
    /// Ask the user how to change the command; then hand the answer to
    /// `after_instruction`.
    AskInstruction,
    /// Ask the model to rewrite the command as the user asked; then hand
    /// the outcome to `after_rewrite`.
    Rewrite(String),
    /// Show the prompt again.
    Prompt,
    /// Print `note`, log the command as `action` with `exit_code`, and end
    /// the program with `status`.
    Finish { note: Note, action: LoggedAction, exit_code: Option<i32>, status: i32 },
}

/// The command on offer and its explanation, if one was asked for.
pub struct Session {
    pub command: String,
    pub explanation: Option<String>,
}

/// The step that a choice at the prompt leads to.
pub fn step_for(action: Action) -> (r: Next)
    ensures
        action is Execute ==> r is Run,
        action is Copy ==> r is Copy,
        action is Explain ==> r is Explain,
        action is Rewrite ==> r is AskInstruction,
        action is Cancel ==> (r matches Next::Finish { note: Note::Shown(m), action: a, exit_code, status }
            && m@ == "Cancelled."@ && a is Cancelled && exit_code is None && status == 0),
{
    match action {
        Action::Execute => Next::Run,
        Action::Cancel => Next::Finish {
            note: Note::Shown(copy_str("Cancelled.")),
            action: LoggedAction::Cancelled,
            exit_code: None,
            status: 0,
        },
        Action::Copy => Next::Copy,
        Action::Explain => Next::Explain,
        Action::Rewrite => Next::AskInstruction,
    }
}

/// After running: the run is logged with its exit code, which the program
/// ends with.
pub fn after_run(exit_code: i32) -> (r: Next)
    ensures
        r matches Next::Finish { note: Note::Silent, action: a, exit_code: c, status } && a is Executed
            && c == Some(exit_code) && status == exit_code,
{
    Next::Finish {
        note: Note::Silent,
        action: LoggedAction::Executed,
        exit_code: Some(exit_code),
        status: exit_code,
    }
}

/// After copying: success or the error is reported, the copy is logged
/// either way, and the program ends with status 0.
pub fn after_copy(outcome: Result<(), String>) -> (r: Next)
    ensures
        r matches Next::Finish { note, action: a, exit_code, status } && a is Copied && exit_code is None
            && status == 0 && match outcome {
            Ok(()) => note matches Note::Shown(m) && m@ == "✓ Copied to clipboard"@,
            Err(e) => note matches Note::Problem(m) && m@ == "Error: "@ + e@,
        },
{
    let note = match outcome {
        Ok(()) => Note::Shown(copy_str("✓ Copied to clipboard")),
        Err(e) => {
            let mut m = copy_str("Error: ");
            m.append(e.as_str());
            Note::Problem(m)
        },
    };
    Next::Finish { note, action: LoggedAction::Copied, exit_code: None, status: 0 }
}

/// After asking for an explanation: it is kept to be shown with the
/// command, or the error is reported and the old one stays; the prompt
/// comes again.
pub fn after_explain(session: &mut Session, outcome: Result<String, String>) -> (r: Note)
    ensures
        final(session).command == old(session).command,
        match outcome {
            Ok(x) => final(session).explanation == Some(x) && r is Silent,
            Err(e) => final(session).explanation == old(session).explanation && (r matches Note::Problem(
                m,
            ) && m@ == "Error getting explanation: "@ + e@),
        },
{
    match outcome {
        Ok(x) => {
            session.explanation = Some(x);
            Note::Silent
        },
        Err(e) => {
            let mut m = copy_str("Error getting explanation: ");
            m.append(e.as_str());
            Note::Problem(m)
        },
    }
}

/// After asking how to change the command: an empty answer changes
/// nothing and the prompt comes again; otherwise the model is asked.
pub fn after_instruction(instruction: String) -> (r: Next)
    ensures
        instruction@.len() == 0 ==> r is Prompt,
        instruction@.len() > 0 ==> (r matches Next::Rewrite(i) && i == instruction),
{
    if instruction.as_str().is_empty() {
        Next::Prompt
    } else {
        Next::Rewrite(instruction)
    }
}

/// After asking for a rewrite: the new command replaces the old one and
/// its explanation, which no longer fits, is dropped; or the error is
/// reported and nothing changes.
pub fn after_rewrite(session: &mut Session, outcome: Result<String, String>) -> (r: Note)
    ensures
        match outcome {
            Ok(c) => final(session).command == c && final(session).explanation is None && r is Silent,
            Err(e) => final(session).command == old(session).command && final(session).explanation
                == old(session).explanation && (r matches Note::Problem(m) && m@ == "Error: "@ + e@),
        },
{
    match outcome {
        Ok(c) => {
            session.command = c;
            session.explanation = None;
            Note::Silent
        },
        Err(e) => {
            let mut m = copy_str("Error: ");
            m.append(e.as_str());
            Note::Problem(m)
        },
    }
}

} // verus!
