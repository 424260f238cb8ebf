use tiny_ai_shell::context::ContextInfo;
use tiny_ai_shell::llm::ollama::{
    classify_status, clean_command, not_found_error, resolve_base_url, send_error, ChunkStep,
    LlmError, StatusClass, StreamChunk, StreamDecoder,
};
use tiny_ai_shell::llm::LlmClient;

fn make_client() -> LlmClient {
    LlmClient::new("mistral".to_string(), "http://localhost:11434".to_string())
}

#[test]
fn test_prompt_contains_os_and_pwd() {
    let client = make_client();
    let ctx = ContextInfo {
        os: "linux".to_string(),
        pwd: "/home/user/project".to_string(),
        ..Default::default()
    };
    let prompt = client.build_generate_prompt("list files", &ctx);
    assert!(prompt.contains("linux"));
    assert!(prompt.contains("/home/user/project"));
    assert!(prompt.contains("list files"));
}

#[test]
fn test_prompt_contains_rules() {
    let client = make_client();
    let ctx = ContextInfo::default();
    let prompt = client.build_generate_prompt("test", &ctx);
    assert!(prompt.contains("ONE shell command"));
    assert!(prompt.contains("no markdown"));
    assert!(prompt.contains("no code blocks"));
}

#[test]
fn generate_prompt_exact_text() {
    let client = make_client();
    let ctx = ContextInfo {
        os: "linux".to_string(),
        pwd: "/tmp".to_string(),
        ..Default::default()
    };
    let prompt = client.build_generate_prompt("list files", &ctx);
    assert_eq!(
        prompt,
        "System:\nYou are a CLI assistant.\nRules:\n- Output exactly ONE shell command\n- No explanation, no markdown, no code blocks\n- Avoid dangerous commands\n- Prefer safe flags\n- Consider the OS: linux\n- Current directory: /tmp\n\nUser:\nlist files"
    );
}

#[test]
fn explain_and_rewrite_prompts() {
    let client = make_client();
    let e = client.build_explain_prompt("ls -la", "en");
    assert!(e.starts_with("Explain this shell command concisely in en:\nls -la\n\nRules:"));
    let r = client.build_rewrite_prompt("list files", "ls -a", "no hidden files");
    assert!(r.starts_with(
        "Original request: list files\nGenerated command: ls -a\nUser feedback: no hidden files\n\n"
    ));
    assert!(r.ends_with("Output exactly ONE shell command, no explanation."));
}

#[test]
fn generate_url_appends_endpoint() {
    assert_eq!(make_client().generate_url(), "http://localhost:11434/api/generate");
}

#[test]
fn test_clean_command_plain() {
    assert_eq!(clean_command("ls -la"), "ls -la");
}

#[test]
fn test_clean_command_inline_backticks() {
    assert_eq!(clean_command("`ls -la`"), "ls -la");
}

#[test]
fn test_clean_command_code_block_with_lang() {
    assert_eq!(clean_command("```bash\nls -la\n```"), "ls -la");
}

#[test]
fn test_clean_command_code_block_no_lang() {
    assert_eq!(clean_command("```\nls -la\n```"), "ls -la");
}

#[test]
fn test_clean_command_trims_whitespace() {
    assert_eq!(clean_command("  ls -la  \n"), "ls -la");
}

#[test]
fn clean_command_fence_without_newline_and_empty() {
    assert_eq!(clean_command("```ls```"), "ls");
    assert_eq!(clean_command(""), "");
    assert_eq!(clean_command("   "), "");
    assert_eq!(clean_command("```"), "");
}

fn feed_all(dec: &mut StreamDecoder, body: &str) -> Result<(), LlmError> {
    dec.feed(body.as_bytes());
    while let Some(line) = dec.next_line() {
        let parsed: Option<StreamChunk> = serde_json::from_str::<serde_json::Value>(&line)
            .ok()
            .map(|v| StreamChunk {
                response: v.get("response").and_then(|r| r.as_str()).map(|s| s.to_string()),
                done: v.get("done").and_then(|d| d.as_bool()),
                error: v.get("error").and_then(|e| e.as_str()).map(|s| s.to_string()),
            });
        match dec.accept(parsed) {
            ChunkStep::Continue => {}
            ChunkStep::Finished => return Ok(()),
            ChunkStep::Failed(e) => return Err(e),
        }
    }
    Ok(())
}

#[test]
fn stream_success_concatenates_responses() {
    let body = "{\"model\":\"mistral\",\"response\":\"ls\",\"done\":false}\n\
                {\"model\":\"mistral\",\"response\":\" -la\",\"done\":false}\n\
                {\"model\":\"mistral\",\"response\":\"\",\"done\":true}\n";
    let mut dec = StreamDecoder::new("mistral".to_string());
    assert!(feed_all(&mut dec, body).is_ok());
    assert_eq!(dec.finish(), "ls -la");
}

#[test]
fn stream_strips_inline_backticks() {
    let body = "{\"model\":\"mistral\",\"response\":\"`ls -la`\",\"done\":true}\n";
    let mut dec = StreamDecoder::new("mistral".to_string());
    assert!(feed_all(&mut dec, body).is_ok());
    assert_eq!(dec.finish(), "ls -la");
}

#[test]
fn stream_error_names_missing_model() {
    let body = "{\"error\":\"model 'x' not found\"}\n";
    let mut dec = StreamDecoder::new("x".to_string());
    let err = feed_all(&mut dec, body).unwrap_err();
    let msg = err.message();
    assert!(msg.contains("not found"));
    assert_eq!(msg, "Model 'x' not found. Pull with: ollama pull x");
}

#[test]
fn stream_other_error_is_reported() {
    let body = "{\"error\":\"out of memory\"}\n";
    let mut dec = StreamDecoder::new("x".to_string());
    let err = feed_all(&mut dec, body).unwrap_err();
    assert_eq!(err.message(), "Ollama error: out of memory");
}

#[test]
fn stream_lines_split_across_chunks() {
    let mut dec = StreamDecoder::new("m".to_string());
    dec.feed(b"{\"response\":\"ec");
    assert!(dec.next_line().is_none());
    dec.feed(b"ho\"}\n\n  \n{\"respo");
    assert_eq!(dec.next_line().as_deref(), Some("{\"response\":\"echo\"}"));
    assert!(dec.next_line().is_none());
    dec.feed(b"nse\":\" hi\",\"done\":true}\n");
    assert_eq!(dec.next_line().as_deref(), Some("{\"response\":\" hi\",\"done\":true}"));
}

#[test]
fn stream_skips_unparsed_lines() {
    let mut dec = StreamDecoder::new("m".to_string());
    assert!(matches!(dec.accept(None), ChunkStep::Continue));
    let step = dec.accept(Some(StreamChunk {
        response: Some("pwd".to_string()),
        done: None,
        error: None,
    }));
    assert!(matches!(step, ChunkStep::Continue));
    assert_eq!(dec.finish(), "pwd");
}

#[test]
fn not_found_reply_with_model_message() {
    let e = not_found_error("bad-model", "404 Not Found", "model 'bad-model' not found, try pulling it first");
    let msg = e.message();
    assert!(msg.contains("not found"));
    assert!(msg.contains("ollama pull"));
    let e = not_found_error("m", "404 Not Found", "");
    assert_eq!(e.message(), "Ollama API error (404 Not Found)");
}

#[test]
fn connection_refused_means_not_running() {
    let e = send_error(true, false, "connection refused");
    assert!(e.message().contains("Ollama is not running"));
    assert_eq!(send_error(false, true, "x").message(), "Ollama is not running. Start with: ollama serve");
    assert_eq!(send_error(false, false, "bad").message(), "Failed to connect to Ollama: bad");
}

#[test]
fn status_classes() {
    assert!(matches!(classify_status(200), StatusClass::Success));
    assert!(matches!(classify_status(404), StatusClass::NotFound));
    assert!(matches!(classify_status(500), StatusClass::Failure));
    assert!(matches!(classify_status(302), StatusClass::Failure));
}

#[test]
fn error_messages() {
    assert_eq!(LlmError::StreamRead.message(), "Failed to read response stream");
    assert_eq!(
        LlmError::ApiStatusBody("500 Internal Server Error".to_string(), "boom".to_string()).message(),
        "Ollama API error (500 Internal Server Error): boom"
    );
    assert_eq!(LlmError::ClientBuild.message(), "Failed to build HTTP client");
}

#[test]
fn base_url_prefers_environment() {
    assert_eq!(resolve_base_url(Some("http://h:1".to_string()), "http://c:2"), "http://h:1");
    assert_eq!(resolve_base_url(None, "http://c:2"), "http://c:2");
}

#[test]
fn invalid_utf8_is_replaced() {
    let mut dec = StreamDecoder::new("m".to_string());
    dec.feed(b"ab\xffcd\n");
    assert_eq!(dec.next_line().as_deref(), Some("ab\u{FFFD}cd"));
}

#[test]
fn cleaned_commands_have_no_surrounding_whitespace() {
    for raw in ["` ls `", "```sh\n  pwd  \n```", "\t`  echo hi`\n", "``` x"] {
        let c = clean_command(raw);
        assert_eq!(c.trim(), c, "input {:?}", raw);
    }
}

#[test]
fn wrapping_is_undone() {
    for c in ["ls -la", "grep -r \"x y\" .", "a", ""] {
        assert_eq!(clean_command(&format!("`{}`", c)), c);
        assert_eq!(clean_command(&format!("```\n{}\n```", c)), c);
        assert_eq!(clean_command(&format!("```bash\n{}\n```", c)), c);
        assert_eq!(clean_command(&format!("```sh -x\n{}\n```", c)), c);
    }
}
