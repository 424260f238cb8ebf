//! The interactive confirmation: what is shown, and what each key does.
pub mod color;

use vstd::prelude::*;
use crate::safety::DangerResult;
use crate::ui::color::{Colors, painted};

verus! {

/// What the user chose to do with the command.
#[derive(PartialEq, Eq, Structural, Clone, Copy, Debug)]
pub enum Action {
    Execute,
    Cancel,
    Copy,
    Explain,
    Rewrite,
}

/// A key press, as far as the prompt cares.
#[derive(Clone, Copy)]
pub enum Key {
    /// A character key, and whether Control was held.
    Char(char, bool),
    Esc,
    Enter,
    /// Any other key.
    Other,
}

/// The action of a menu key: y, n/Esc/q, c, e, r, in either case.
pub open spec fn action_of(c: char) -> Option<Action> {
    if c == 'y' || c == 'Y' {
        Some(Action::Execute)
    } else if c == 'n' || c == 'N' || c == '\x1b' || c == 'q' || c == 'Q' {
        Some(Action::Cancel)
    } else if c == 'c' || c == 'C' {
        Some(Action::Copy)
    } else if c == 'e' || c == 'E' {
        Some(Action::Explain)
    } else if c == 'r' || c == 'R' {
        Some(Action::Rewrite)
    } else {
        None
    }
}

/// The action of a menu key, if it has one.
pub fn action_for_char(c: char) -> (r: Option<Action>)
    ensures
        r == action_of(c),
{
    if c == 'y' || c == 'Y' {
        Some(Action::Execute)
    } else if c == 'n' || c == 'N' || c == '\x1b' || c == 'q' || c == 'Q' {
        Some(Action::Cancel)
    } else if c == 'c' || c == 'C' {
        Some(Action::Copy)
    } else if c == 'e' || c == 'E' {
        Some(Action::Explain)
    } else if c == 'r' || c == 'R' {
        Some(Action::Rewrite)
    } else {
        None
    }
}

/// Ctrl-C.
pub open spec fn is_interrupt(k: Key) -> bool {
    k matches Key::Char(c, ctrl) && c == 'c' && ctrl
}

/// Where the prompt stands.
#[derive(PartialEq, Eq, Structural, Clone, Copy, Debug)]
pub enum Phase {
    /// Waiting for y/N after a danger warning.
    Confirm,
    /// Waiting for a menu key.
    Choose,
}

/// What a key press leads to.
#[derive(PartialEq, Eq, Structural, Clone, Copy, Debug)]
pub enum Step {
    /// Ignore the key and keep waiting.
    Wait,
    /// The danger warning was confirmed: show the menu.
    Proceed,
    /// The prompt ends with this action.
    Finish(Action),
    /// Ctrl-C: leave the program (exit status 130).
    Interrupt,
}

/// The phase the prompt starts in: a dangerous command must first be
/// confirmed.
pub fn first_phase(danger: &DangerResult) -> (r: Phase)
    ensures
        r == (if danger.is_dangerous {
            Phase::Confirm
        } else {
            Phase::Choose
        }),
{
    if danger.is_dangerous {
        Phase::Confirm
    } else {
        Phase::Choose
    }
}

/// The effect of a key in each phase. Confirming takes y/Y; n/N, Esc and
/// Enter decline (cancelling the command). In the menu, Esc cancels and a
/// character key acts by `action_of`. Ctrl-C interrupts in both.
pub open spec fn step_of(phase: Phase, key: Key) -> Step {
    if is_interrupt(key) {
        Step::Interrupt
    } else {
        match phase {
            Phase::Confirm => match key {
                Key::Char(c, _) => if c == 'y' || c == 'Y' {
                    Step::Proceed
                } else if c == 'n' || c == 'N' {
                    Step::Finish(Action::Cancel)
                } else {
                    Step::Wait
                },
                Key::Esc => Step::Finish(Action::Cancel),
                Key::Enter => Step::Finish(Action::Cancel),
                Key::Other => Step::Wait,
            },
            Phase::Choose => match key {
                Key::Char(c, _) => match action_of(c) {
                    Some(a) => Step::Finish(a),
                    None => Step::Wait,
                },
                Key::Esc => Step::Finish(Action::Cancel),
                _ => Step::Wait,
            },
        }
    }
}


/// While a danger warning waits for confirmation, no key runs the command:
/// the most a key can do is lead on to the menu.
pub proof fn law_warning_never_executes(key: Key)
    ensures
        step_of(Phase::Confirm, key) != Step::Finish(Action::Execute),
{
}

/// The menu keys: y/Y executes, n/N, q/Q and Esc cancel, c/C copies,
/// e/E explains, r/R rewrites, and no other character has an action.
pub proof fn law_menu_keys(c: char)
    ensures
        action_of(c) == Some(Action::Execute) <==> (c == 'y' || c == 'Y'),
        action_of(c) == Some(Action::Cancel) <==> (c == 'n' || c == 'N' || c == 'q' || c == 'Q'
            || c == '\x1b'),
        action_of(c) == Some(Action::Copy) <==> (c == 'c' || c == 'C'),
        action_of(c) == Some(Action::Explain) <==> (c == 'e' || c == 'E'),
        action_of(c) == Some(Action::Rewrite) <==> (c == 'r' || c == 'R'),
        action_of(c) is None <==> !(c == 'y' || c == 'Y' || c == 'n' || c == 'N' || c == 'q' || c
            == 'Q' || c == '\x1b' || c == 'c' || c == 'C' || c == 'e' || c == 'E' || c == 'r' || c
            == 'R'),
{
}

/// In the menu a character key, Control held or not (but for Ctrl-C),
/// ends the prompt with the action of that key and is ignored when it has
/// none; Esc cancels, Ctrl-C interrupts, other keys are ignored.
pub proof fn law_menu_steps(c: char, ctrl: bool)
    ensures
        !(c == 'c' && ctrl) ==> step_of(Phase::Choose, Key::Char(c, ctrl)) == match action_of(c) {
            Some(a) => Step::Finish(a),
            None => Step::Wait,
        },
        c == 'c' && ctrl ==> step_of(Phase::Choose, Key::Char(c, ctrl)) == Step::Interrupt,
        step_of(Phase::Choose, Key::Esc) == Step::Finish(Action::Cancel),
        step_of(Phase::Choose, Key::Enter) == Step::Wait,
        step_of(Phase::Choose, Key::Other) == Step::Wait,
{
}

/// While a danger warning waits, only y/Y goes on to the menu; n/N, Esc
/// and Enter decline and cancel the command; Ctrl-C interrupts; every
/// other key is ignored.
pub proof fn law_confirm_keys(c: char, ctrl: bool)
    ensures
        step_of(Phase::Confirm, Key::Char(c, ctrl)) == Step::Proceed <==> (c == 'y' || c == 'Y'),
        step_of(Phase::Confirm, Key::Char(c, ctrl)) == Step::Finish(Action::Cancel) <==> (c == 'n'
            || c == 'N'),
        step_of(Phase::Confirm, Key::Char(c, ctrl)) == Step::Interrupt <==> (c == 'c' && ctrl),
        step_of(Phase::Confirm, Key::Char(c, ctrl)) == Step::Wait <==> !(c == 'y' || c == 'Y' || c
            == 'n' || c == 'N' || (c == 'c' && ctrl)),
        step_of(Phase::Confirm, Key::Esc) == Step::Finish(Action::Cancel),
        step_of(Phase::Confirm, Key::Enter) == Step::Finish(Action::Cancel),
        step_of(Phase::Confirm, Key::Other) == Step::Wait,
{
}

/// What pressing `key` does in `phase`.
pub fn prompt_step(phase: Phase, key: Key) -> (r: Step)
    ensures
        r == step_of(phase, key),
{
    if let Key::Char(c, ctrl) = key {
        if c == 'c' && ctrl {
            return Step::Interrupt;
        }
    }
    match phase {
        Phase::Confirm => match key {
            Key::Char(c, _) => {
                if c == 'y' || c == 'Y' {
                    Step::Proceed
                } else if c == 'n' || c == 'N' {
                    Step::Finish(Action::Cancel)
                } else {
                    Step::Wait
                }
            },
            Key::Esc => Step::Finish(Action::Cancel),
            Key::Enter => Step::Finish(Action::Cancel),
            Key::Other => Step::Wait,
        },
        Phase::Choose => match key {
            Key::Char(c, _) => match action_for_char(c) {
                Some(a) => Step::Finish(a),
                None => Step::Wait,
            },
            Key::Esc => Step::Finish(Action::Cancel),
            _ => Step::Wait,
        },
    }
}

/// The warning printed before a dangerous command, ending in the y/N
/// question.
pub open spec fn warning_text(enabled: bool, message: Seq<char>, command: Seq<char>) -> Seq<char> {
    painted(enabled, "\x1b[31m"@, "⚠"@) + "  Dangerous command detected: "@ + painted(
        enabled,
        "\x1b[31m"@,
        message,
    ) + "\n   "@ + painted(enabled, "\x1b[36m"@, command) + "\n\nContinue anyway? [y/N]: "@
}

/// Without colours, the warning names the rule's message and the command
/// and asks y/N; the menu shows the command, the explanation when there is
/// one, and the five keys.
pub proof fn law_plain_prompt_texts(message: Seq<char>, command: Seq<char>, explanation: Seq<char>)
    ensures
        warning_text(false, message, command) == "⚠"@ + "  Dangerous command detected: "@
            + message + "\n   "@ + command + "\n\nContinue anyway? [y/N]: "@,
        menu_text(false, command, None) == "$ "@ + command + "\n"@
            + "\n[y] Execute  [n] Cancel  [c] Copy  [e] Explain  [r] Rewrite\n> "@,
        menu_text(false, command, Some(explanation)) == "$ "@ + command + "\n"@ + ("  → "@
            + explanation + "\n"@) + "\n[y] Execute  [n] Cancel  [c] Copy  [e] Explain  [r] Rewrite\n> "@,
{
    assert("$ "@ + command + "\n"@ + Seq::<char>::empty() =~= "$ "@ + command + "\n"@);
}

/// The warning shown for a dangerous command.
pub fn danger_warning(colors: &Colors, message: &str, command: &str) -> (r: String)
    ensures
        r@ == warning_text(colors.is_enabled(), message@, command@),
{
    let mut s = colors.red("⚠");
    s.append("  Dangerous command detected: ");
    let m = colors.red(message);
    s.append(m.as_str());
    s.append("\n   ");
    let c = colors.cyan(command);
    s.append(c.as_str());
    s.append("\n\nContinue anyway? [y/N]: ");
    s
}

/// The command, an explanation if there is one, and the menu.
pub open spec fn menu_text(
    enabled: bool,
    command: Seq<char>,
    explanation: Option<Seq<char>>,
) -> Seq<char> {
    "$ "@ + painted(enabled, "\x1b[36m"@, command) + "\n"@ + match explanation {
        Some(e) => "  → "@ + e + "\n"@,
        None => Seq::<char>::empty(),
    } + "\n[y] Execute  [n] Cancel  [c] Copy  [e] Explain  [r] Rewrite\n> "@
}

/// The command panel with the menu of keys.
pub fn command_menu(colors: &Colors, command: &str, explanation: Option<&str>) -> (r: String)
    ensures
        r@ == menu_text(
            colors.is_enabled(),
            command@,
            match explanation {
                Some(e) => Some(e@),
                None => None,
            },
        ),
{
    let mut s = String::new();
    s.append("$ ");
    let c = colors.cyan(command);
    s.append(c.as_str());
    s.append("\n");
    let ghost before = s@;
    match explanation {
        Some(e) => {
            s.append("  → ");
            s.append(e);
            s.append("\n");
            assert(s@ =~= before + ("  → "@ + e@ + "\n"@));
        },
        None => {
            assert(s@ =~= before + Seq::<char>::empty());
        },
    }
    s.append("\n[y] Execute  [n] Cancel  [c] Copy  [e] Explain  [r] Rewrite\n> ");
    s
}

} // verus!
