use tiny_ai_shell::clipboard::{candidates, first_copy_step, next_copy_step, no_tool_message, CopyStep};
use tiny_ai_shell::config::{configured_language, default_config_text, load, resolve_setting, Config};
use tiny_ai_shell::executor::{
    dry_run_line, executing_line, exit_code_of, outcome_line, plan_run, shell_program, RunPlan,
};
use tiny_ai_shell::llm::resolve_language;
use tiny_ai_shell::safety::check;
use tiny_ai_shell::ui::color::Colors;
use tiny_ai_shell::ui::{
    action_for_char, command_menu, danger_warning, first_phase, prompt_step, Action, Key, Phase, Step,
};

#[test]
fn menu_keys() {
    assert_eq!(action_for_char('y'), Some(Action::Execute));
    assert_eq!(action_for_char('Y'), Some(Action::Execute));
    assert_eq!(action_for_char('n'), Some(Action::Cancel));
    assert_eq!(action_for_char('q'), Some(Action::Cancel));
    assert_eq!(action_for_char('\x1b'), Some(Action::Cancel));
    assert_eq!(action_for_char('C'), Some(Action::Copy));
    assert_eq!(action_for_char('e'), Some(Action::Explain));
    assert_eq!(action_for_char('r'), Some(Action::Rewrite));
    assert_eq!(action_for_char('x'), None);
}

#[test]
fn confirmation_defaults_to_no() {
    assert_eq!(prompt_step(Phase::Confirm, Key::Enter), Step::Finish(Action::Cancel));
    assert_eq!(prompt_step(Phase::Confirm, Key::Esc), Step::Finish(Action::Cancel));
    assert_eq!(prompt_step(Phase::Confirm, Key::Char('N', false)), Step::Finish(Action::Cancel));
    assert_eq!(prompt_step(Phase::Confirm, Key::Char('y', false)), Step::Proceed);
    assert_eq!(prompt_step(Phase::Confirm, Key::Char('x', false)), Step::Wait);
    assert_eq!(prompt_step(Phase::Confirm, Key::Char('c', true)), Step::Interrupt);
    assert_eq!(prompt_step(Phase::Choose, Key::Char('c', true)), Step::Interrupt);
    assert_eq!(prompt_step(Phase::Choose, Key::Char('c', false)), Step::Finish(Action::Copy));
    assert_eq!(prompt_step(Phase::Choose, Key::Enter), Step::Wait);
    assert_eq!(prompt_step(Phase::Choose, Key::Esc), Step::Finish(Action::Cancel));
}

#[test]
fn dangerous_commands_are_confirmed_first() {
    assert_eq!(first_phase(&check("rm -rf /")), Phase::Confirm);
    assert_eq!(first_phase(&check("ls -la")), Phase::Choose);
}

#[test]
fn colours_and_no_color() {
    let on = Colors::new(false);
    let off = Colors::new(true);
    assert_eq!(on.cyan("ls"), "\x1b[36mls\x1b[0m");
    assert_eq!(on.red("x"), "\x1b[31mx\x1b[0m");
    assert_eq!(off.cyan("ls"), "ls");
    assert_eq!(off.red("x"), "x");
}

#[test]
fn prompt_texts() {
    let off = Colors::new(true);
    assert_eq!(
        danger_warning(&off, "Recursive force delete", "rm -rf /"),
        "⚠  Dangerous command detected: Recursive force delete\n   rm -rf /\n\nContinue anyway? [y/N]: "
    );
    assert_eq!(
        command_menu(&off, "ls", Some("lists files")),
        "$ ls\n  → lists files\n\n[y] Execute  [n] Cancel  [c] Copy  [e] Explain  [r] Rewrite\n> "
    );
    assert_eq!(
        command_menu(&off, "ls", None),
        "$ ls\n\n[y] Execute  [n] Cancel  [c] Copy  [e] Explain  [r] Rewrite\n> "
    );
}

#[test]
fn executor_lines() {
    let off = Colors::new(true);
    assert_eq!(dry_run_line(&off, "ls"), "$ ls");
    assert_eq!(executing_line(&off, "ls"), "→ Executing: ls");
    assert_eq!(outcome_line(&off, true, 0), "✓ Done (exit 0)");
    assert_eq!(outcome_line(&off, false, 127), "✗ Failed (exit 127)");
    assert_eq!(outcome_line(&off, false, -3), "✗ Failed (exit -3)");
    assert_eq!(exit_code_of(Some(2)), 2);
    assert_eq!(exit_code_of(None), 1);
    assert_eq!(shell_program(None), "sh");
    assert_eq!(shell_program(Some("/bin/zsh".to_string())), "/bin/zsh");
}

#[test]
fn clipboard_order() {
    let w = candidates(true);
    assert_eq!(w.len(), 3);
    assert_eq!(w[0].program, "wl-copy");
    assert!(w[0].args.is_empty());
    assert_eq!(w[1].program, "xclip");
    assert_eq!(w[1].args, vec!["-selection".to_string(), "clipboard".to_string()]);
    assert_eq!(w[2].program, "xsel");
    let x = candidates(false);
    assert_eq!(x.len(), 2);
    assert_eq!(x[0].program, "xclip");
    assert_eq!(no_tool_message(), "No clipboard tool found. Install wl-copy, xclip, or xsel.");
}

#[test]
fn config_defaults() {
    let c = Config::default();
    assert_eq!(c.model, "mistral");
    assert_eq!(c.ollama_url, "http://localhost:11434");
    assert_eq!(c.language, "en");
    let c = load(None);
    assert_eq!(c.model, "mistral");
}

#[test]
fn config_file_values() {
    let text = "# settings\nmodel = \"llama3\"\n\nlanguage = \"ja\"   # language for explanations\nother = \"x\"\n";
    let c = load(Some(text.to_string()));
    assert_eq!(c.model, "llama3");
    assert_eq!(c.ollama_url, "http://localhost:11434");
    assert_eq!(c.language, "ja");
    let c = load(Some("ollama_url=\"http://h:1\"".to_string()));
    assert_eq!(c.ollama_url, "http://h:1");
}

#[test]
fn config_unusable_file_gives_defaults() {
    let c = load(Some("model = llama3\n".to_string()));
    assert_eq!(c.model, "mistral");
    let c = load(Some("model = \"a\"\nmodel = \"b\"\n".to_string()));
    assert_eq!(c.model, "mistral");
    let c = load(Some("model = 5\nlanguage = \"ja\"\n".to_string()));
    assert_eq!(c.model, "mistral");
    assert_eq!(c.language, "en");
    let c = load(Some("model.name = \"x\"\n".to_string()));
    assert_eq!(c.model, "mistral");
    let c = load(Some("model = \"\"\"x\n".to_string()));
    assert_eq!(c.model, "mistral");
}

#[test]
fn config_toml_forms() {
    let c = load(Some("model = 'x'\n".to_string()));
    assert_eq!(c.model, "x");
    let c = load(Some("model = \"a\\tb\\u0041\\\"\"\n".to_string()));
    assert_eq!(c.model, "a\tbA\"");
    let c = load(Some("\"model\" = \"q\"  # quoted key\r\n".to_string()));
    assert_eq!(c.model, "q");
    let c = load(Some("  model   =   'C:\\path'  \n".to_string()));
    assert_eq!(c.model, "C:\\path");
}

#[test]
fn config_other_keys_are_ignored() {
    let text = "timeout = 30\nverbose = true\na.b = [1, 2]\nmodel = \"m\"\n[server]\nmodel = \"y\"\nport = 8080\n";
    let c = load(Some(text.to_string()));
    assert_eq!(c.model, "m");
    assert_eq!(c.ollama_url, "http://localhost:11434");
    let c = load(Some("language = \"ja\"\n[section]\n".to_string()));
    assert_eq!(c.language, "ja");
    let c = load(Some("[[servers]]\nlanguage = \"fr\"\n".to_string()));
    assert_eq!(c.language, "en");
}

#[test]
fn configured_language_of_file() {
    assert_eq!(configured_language(None), None);
    assert_eq!(configured_language(Some("model = \"m\"\n".to_string())), None);
    assert_eq!(configured_language(Some("language = \"ja\"\n".to_string())), Some("ja".to_string()));
    assert_eq!(configured_language(Some("language = 1\n".to_string())), None);
}

#[test]
fn explanation_language_choice() {
    assert_eq!(resolve_language(Some("ja"), "en_US.UTF-8"), "Japanese");
    assert_eq!(resolve_language(Some("en"), "ja_JP.UTF-8"), "English");
    assert_eq!(resolve_language(Some("French"), ""), "French");
    assert_eq!(resolve_language(None, "ja_JP.UTF-8"), "Japanese");
    assert_eq!(resolve_language(None, "C"), "English");
    assert_eq!(resolve_language(None, ""), "English");
}

#[test]
fn dry_run_starts_nothing() {
    let off = Colors::new(true);
    match plan_run(&off, "ls", true, Some("/bin/zsh".to_string())) {
        RunPlan::Show { line, exit_code } => {
            assert_eq!(line, "$ ls");
            assert_eq!(exit_code, 0);
        }
        RunPlan::Execute { .. } => panic!("a dry run executes nothing"),
    }
    match plan_run(&off, "ls", false, None) {
        RunPlan::Execute { banner, shell } => {
            assert_eq!(banner, "→ Executing: ls");
            assert_eq!(shell, "sh");
        }
        RunPlan::Show { .. } => panic!("expected execution"),
    }
    let on = Colors::new(false);
    match plan_run(&on, "ls", true, None) {
        RunPlan::Show { line, .. } => assert_eq!(line, "$ \x1b[36mls\x1b[0m"),
        RunPlan::Execute { .. } => panic!("a dry run executes nothing"),
    }
}

fn copy_with(outcomes: &[bool]) -> (Vec<usize>, Result<(), String>) {
    let mut tried = Vec::new();
    let mut step = first_copy_step(outcomes.len());
    loop {
        match step {
            CopyStep::Done => return (tried, Ok(())),
            CopyStep::Failed(m) => return (tried, Err(m)),
            CopyStep::Try(i) => {
                tried.push(i);
                step = next_copy_step(outcomes.len(), i, outcomes[i]);
            }
        }
    }
}

#[test]
fn copy_stops_at_first_working_tool() {
    assert_eq!(copy_with(&[true, true, true]), (vec![0], Ok(())));
    assert_eq!(copy_with(&[false, true, true]), (vec![0, 1], Ok(())));
    assert_eq!(copy_with(&[false, false, true]), (vec![0, 1, 2], Ok(())));
    let msg = no_tool_message();
    assert_eq!(copy_with(&[false, false, false]), (vec![0, 1, 2], Err(msg.clone())));
    assert_eq!(copy_with(&[false, false]), (vec![0, 1], Err(msg.clone())));
    assert_eq!(copy_with(&[]), (vec![], Err(msg)));
}

#[test]
fn setting_priority() {
    let cli = Some("cli".to_string());
    let env = Some("env".to_string());
    assert_eq!(resolve_setting(cli.clone(), env.clone(), "file".to_string()), "cli");
    assert_eq!(resolve_setting(None, env, "file".to_string()), "env");
    assert_eq!(resolve_setting(None, None, "file".to_string()), "file");
}

#[test]
fn config_multiline_strings_of_other_keys() {
    let text = "notes = \"\"\"\nmodel = \"z\"\n[x]\n\"\"\"\nmodel = \"m\"\n";
    assert_eq!(load(Some(text.to_string())).model, "m");
    let text = "notes = '''\n[t]\nlanguage = \"fr\"\n'''\nlanguage = \"ja\"\n";
    assert_eq!(load(Some(text.to_string())).language, "ja");
    let text = "notes = \"\"\"a \\\"\"\"\nmodel = \"z\"\n\"\"\" # end\nmodel = \"m\"\n";
    assert_eq!(load(Some(text.to_string())).model, "m");
    let text = "notes = \"\"\"one line\"\"\"\nmodel = \"m\"\n";
    assert_eq!(load(Some(text.to_string())).model, "m");
    let text = "notes = { text = \"\"\"\nmodel = \"evil\"\n\"\"\" }\n";
    assert_eq!(load(Some(text.to_string())).model, "mistral");
    let text = "notes = { text = '''\n[x]\n''' }\nmodel = \"m\"\n";
    assert_eq!(load(Some(text.to_string())).model, "m");
}

#[test]
fn config_triple_quoted_settings_on_one_line() {
    assert_eq!(load(Some("model = \"\"\"x\"\"\"\n".to_string())).model, "x");
    assert_eq!(load(Some("model = '''m'''\n".to_string())).model, "m");
    assert_eq!(load(Some("model = '''it's'''\n".to_string())).model, "it's");
    assert_eq!(load(Some("model = \"\"\"a\"b\"\"c\"\"\"\n".to_string())).model, "a\"b\"\"c");
    assert_eq!(load(Some("model = \"\"\"x\"\"\"\"\n".to_string())).model, "x\"");
    assert_eq!(load(Some("model = \"\"\"a\\tb\"\"\" # c\n".to_string())).model, "a\tb");
}

#[test]
fn config_arrays_of_other_keys() {
    let text = "tags = [\n  \"a\",\n  [1],\n  [[2]],\n  \"]\",  # ] in a comment\n  '''\n[x]\n''',\n  \"\"\"\nmodel = \"q\"\n\"\"\",\n]\nmodel = \"m\"\n";
    assert_eq!(load(Some(text.to_string())).model, "m");
    let text = "matrix = [[1, 2],\n[3, 4]]\nlanguage = \"ja\"\n";
    assert_eq!(load(Some(text.to_string())).language, "ja");
    let text = "a = [1, [2]]\nmodel = \"m\"\n";
    assert_eq!(load(Some(text.to_string())).model, "m");
    let text = "a = [ # comment [\n  \"x\\\"]\" ]\nmodel = \"m\"\n";
    assert_eq!(load(Some(text.to_string())).model, "m");
    let text = "a = [\n  1,\nmodel = \"m\"\n";
    assert_eq!(load(Some(text.to_string())).model, "mistral");
}

#[test]
fn config_setting_as_table_is_unusable() {
    let c = load(Some("language = \"ja\"\n[model]\nname = \"x\"\n".to_string()));
    assert_eq!(c.language, "en");
    let c = load(Some("language = \"ja\"\n[[ollama_url]]\n".to_string()));
    assert_eq!(c.language, "en");
    let c = load(Some("language = \"ja\"\n[server.model]\nname = \"x\"\n".to_string()));
    assert_eq!(c.language, "ja");
}

#[test]
fn written_settings_read_back() {
    let text = "model = \"llama3:8b\"\nollama_url = \"http://gpu:11434\"\nlanguage = \"ja\"\n";
    let c = load(Some(text.to_string()));
    assert_eq!(c.model, "llama3:8b");
    assert_eq!(c.ollama_url, "http://gpu:11434");
    assert_eq!(c.language, "ja");
    let c = load(Some("ollama_url = \"http://h:1\"\n".to_string()));
    assert_eq!(c.model, "mistral");
    assert_eq!(c.ollama_url, "http://h:1");
    assert_eq!(c.language, "en");
    let c = load(Some(String::new()));
    assert_eq!(c.model, "mistral");
}

#[test]
fn config_settings_over_several_lines() {
    let c = load(Some("model = \"\"\"\nllama3\"\"\"\n".to_string()));
    assert_eq!(c.model, "llama3");
    let c = load(Some("model = '''\nllama3'''\n".to_string()));
    assert_eq!(c.model, "llama3");
    let c = load(Some("model = \"\"\"\na\nb\"\"\"\nlanguage = \"ja\"\n".to_string()));
    assert_eq!(c.model, "a\nb");
    assert_eq!(c.language, "ja");
    let c = load(Some("model = \"\"\"abc\ndef\"\"\"  # c\n".to_string()));
    assert_eq!(c.model, "abc\ndef");
    let c = load(Some("model = \"\"\"\\\n   llama3 \\\n\n  :8b\"\"\"\n".to_string()));
    assert_eq!(c.model, "llama3 :8b");
    let c = load(Some("model = \"\"\"\r\nx\r\ny\"\"\"\r\n".to_string()));
    assert_eq!(c.model, "x\ny");
    let c = load(Some("model = \"\"\"\na\\tb\"\"\"\n".to_string()));
    assert_eq!(c.model, "a\tb");
    let c = load(Some("model = '''\na\\tb\n'''\n".to_string()));
    assert_eq!(c.model, "a\\tb\n");
    let c = load(Some("model = \"\"\"\nx\"\"\"\"\n".to_string()));
    assert_eq!(c.model, "x\"");
}

#[test]
fn config_settings_over_lines_that_are_unusable() {
    let c = load(Some("model = \"\"\"\nabc\nlanguage = \"ja\"\n".to_string()));
    assert_eq!(c.model, "mistral");
    assert_eq!(c.language, "en");
    let c = load(Some("model = \"\"\"\nabc\"\"\" x\n".to_string()));
    assert_eq!(c.model, "mistral");
    let c = load(Some("model = \"\"\"\na\\qb\"\"\"\n".to_string()));
    assert_eq!(c.model, "mistral");
    let c = load(Some("model = \"x\"\nmodel = \"\"\"\ny\"\"\"\n".to_string()));
    assert_eq!(c.model, "mistral");
    let c = load(Some("language = \"ja\"\ntags = [\n  1,\n".to_string()));
    assert_eq!(c.language, "en");
}

#[test]
fn default_file_reads_as_defaults() {
    let text = default_config_text();
    assert_eq!(text, "model = \"mistral\"\nollama_url = \"http://localhost:11434\"\n");
    let c = load(Some(text.clone()));
    assert_eq!(c.model, "mistral");
    assert_eq!(c.ollama_url, "http://localhost:11434");
    assert_eq!(c.language, "en");
    assert_eq!(configured_language(Some(text)), None);
}
