use tiny_ai_shell::logger::LoggedAction;
use tiny_ai_shell::session::{
    after_copy, after_explain, after_instruction, after_rewrite, after_run, step_for, Next, Note,
    Session,
};
use tiny_ai_shell::ui::Action;

fn session() -> Session {
    Session { command: "ls".to_string(), explanation: Some("lists".to_string()) }
}

#[test]
fn choices_lead_to_their_steps() {
    assert!(matches!(step_for(Action::Execute), Next::Run));
    assert!(matches!(step_for(Action::Copy), Next::Copy));
    assert!(matches!(step_for(Action::Explain), Next::Explain));
    assert!(matches!(step_for(Action::Rewrite), Next::AskInstruction));
    match step_for(Action::Cancel) {
        Next::Finish { note: Note::Shown(m), action, exit_code, status } => {
            assert_eq!(m, "Cancelled.");
            assert!(action == LoggedAction::Cancelled);
            assert_eq!(exit_code, None);
            assert_eq!(status, 0);
        }
        _ => panic!("cancel ends the session"),
    }
}

#[test]
fn run_ends_with_its_exit_code() {
    match after_run(3) {
        Next::Finish { note: Note::Silent, action, exit_code, status } => {
            assert!(action == LoggedAction::Executed);
            assert_eq!(exit_code, Some(3));
            assert_eq!(status, 3);
        }
        _ => panic!("a run ends the session"),
    }
}

#[test]
fn copy_is_logged_either_way() {
    match after_copy(Ok(())) {
        Next::Finish { note: Note::Shown(m), action, exit_code: None, status: 0 } => {
            assert_eq!(m, "✓ Copied to clipboard");
            assert!(action == LoggedAction::Copied);
        }
        _ => panic!("unexpected step"),
    }
    match after_copy(Err("No clipboard tool found. Install wl-copy, xclip, or xsel.".to_string())) {
        Next::Finish { note: Note::Problem(m), action, exit_code: None, status: 0 } => {
            assert_eq!(m, "Error: No clipboard tool found. Install wl-copy, xclip, or xsel.");
            assert!(action == LoggedAction::Copied);
        }
        _ => panic!("unexpected step"),
    }
}

#[test]
fn explanation_is_kept_or_error_reported() {
    let mut s = session();
    assert!(matches!(after_explain(&mut s, Ok("shows files".to_string())), Note::Silent));
    assert_eq!(s.explanation.as_deref(), Some("shows files"));
    match after_explain(&mut s, Err("boom".to_string())) {
        Note::Problem(m) => assert_eq!(m, "Error getting explanation: boom"),
        _ => panic!("error expected"),
    }
    assert_eq!(s.explanation.as_deref(), Some("shows files"));
    assert_eq!(s.command, "ls");
}

#[test]
fn rewrite_replaces_command_and_drops_explanation() {
    assert!(matches!(after_instruction(String::new()), Next::Prompt));
    match after_instruction("add -a".to_string()) {
        Next::Rewrite(i) => assert_eq!(i, "add -a"),
        _ => panic!("rewrite expected"),
    }
    let mut s = session();
    match after_rewrite(&mut s, Err("down".to_string())) {
        Note::Problem(m) => assert_eq!(m, "Error: down"),
        _ => panic!("error expected"),
    }
    assert_eq!(s.command, "ls");
    assert_eq!(s.explanation.as_deref(), Some("lists"));
    assert!(matches!(after_rewrite(&mut s, Ok("ls -a".to_string())), Note::Silent));
    assert_eq!(s.command, "ls -a");
    assert!(s.explanation.is_none());
}
