//! Talking to the local model: the client settings and the prompts.
pub mod ollama;

use vstd::prelude::*;
use crate::context::ContextInfo;
use crate::text::{contains_seq, copy_str, has_prefix, occurs_at, same_text, starts_with_text};

verus! {

/// The system part of the generation prompt, up to the operating system.
pub const GENERATE_PREAMBLE: &'static str = "System:\nYou are a CLI assistant.\nRules:\n- Output exactly ONE shell command\n- No explanation, no markdown, no code blocks\n- Avoid dangerous commands\n- Prefer safe flags\n- Consider the OS: ";

/// The rules that close the explanation prompt.
pub const EXPLAIN_RULES: &'static str = "\n\nRules:\n- One or two sentences maximum\n- Focus on what it does, not how flags work in detail\n- Use plain language";

/// The request that closes the rewrite prompt.
pub const REWRITE_REQUEST: &'static str = "\n\nGenerate an improved command based on the feedback.\nOutput exactly ONE shell command, no explanation.";


/// The name of a language code used in the explanation prompt: `ja` is
/// Japanese, `en` English; any other value is used as it is.
pub open spec fn language_name(code: Seq<char>) -> Seq<char> {
    if code == "ja"@ {
        "Japanese"@
    } else if code == "en"@ {
        "English"@
    } else {
        code
    }
}

/// The language of explanations: the one the configuration file sets, else
/// Japanese when the locale (`LC_ALL`, or `LANG` when that is unset) is a
/// Japanese one, else English.
pub open spec fn explanation_language(configured: Option<Seq<char>>, locale: Seq<char>) -> Seq<
    char,
> {
    match configured {
        Some(c) => language_name(c),
        None => if has_prefix(locale, "ja"@) {
            "Japanese"@
        } else {
            "English"@
        },
    }
}

/// The configured `ja` and `en` explain in Japanese and English, any other
/// configured language is used by its own name; without one, a locale
/// that starts with `ja` gives Japanese and any other English.
pub proof fn law_explanation_language(configured: Option<Seq<char>>, locale: Seq<char>)
    ensures
        configured == Some("ja"@) ==> explanation_language(configured, locale) == "Japanese"@,
        configured == Some("en"@) ==> explanation_language(configured, locale) == "English"@,
        forall|c: Seq<char>|
            configured == Some(c) && c != "ja"@ && c != "en"@ ==> explanation_language(
                configured,
                locale,
            ) == c,
        configured is None && locale.len() >= 2 && locale[0] == 'j' && locale[1] == 'a'
            ==> explanation_language(configured, locale) == "Japanese"@,
        configured is None && !(locale.len() >= 2 && locale[0] == 'j' && locale[1] == 'a')
            ==> explanation_language(configured, locale) == "English"@,
{
    reveal_strlit("ja");
    reveal_strlit("en");
    assert("en"@[0] != "ja"@[0]);
    if locale.len() >= 2 {
        let p = locale.subrange(0, 2);
        assert(p[0] == locale[0] && p[1] == locale[1]);
        if locale[0] == 'j' && locale[1] == 'a' {
            assert(p =~= "ja"@);
        }
    }
}

/// The language in which commands are explained.
pub fn resolve_language(configured: Option<&str>, locale: &str) -> (r: String)
    ensures
        r@ == explanation_language(
            match configured {
                Some(c) => Some(c@),
                None => None,
            },
            locale@,
        ),
{
    match configured {
        Some(c) => {
            if same_text(c, "ja") {
                copy_str("Japanese")
            } else if same_text(c, "en") {
                copy_str("English")
            } else {
                copy_str(c)
            }
        },
        None => {
            if starts_with_text(locale, "ja") {
                copy_str("Japanese")
            } else {
                copy_str("English")
            }
        },
    }
}

/// Which model to ask and where the Ollama server listens.
pub struct LlmClient {
    pub model: String,
    pub base_url: String,
}

/// The prompt asking for one shell command.
pub open spec fn generate_prompt(os: Seq<char>, pwd: Seq<char>, input: Seq<char>) -> Seq<char> {
    GENERATE_PREAMBLE@
        + os + "\n- Current directory: "@ + pwd + "\n\nUser:\n"@ + input
}

/// The prompt asking for an explanation of a command.
pub open spec fn explain_prompt(command: Seq<char>, language: Seq<char>) -> Seq<char> {
    "Explain this shell command concisely in "@ + language + ":\n"@ + command
        + EXPLAIN_RULES@
}

/// The prompt asking for a command revised after user feedback.
pub open spec fn rewrite_prompt(
    original_input: Seq<char>,
    command: Seq<char>,
    instruction: Seq<char>,
) -> Seq<char> {
    "Original request: "@ + original_input + "\nGenerated command: "@ + command
        + "\nUser feedback: "@ + instruction
        + REWRITE_REQUEST@
}


/// The generation prompt mentions the operating system, the working
/// directory and the user's request.
pub proof fn law_prompt_mentions_context(os: Seq<char>, pwd: Seq<char>, input: Seq<char>)
    ensures
        contains_seq(generate_prompt(os, pwd, input), os),
        contains_seq(generate_prompt(os, pwd, input), pwd),
        contains_seq(generate_prompt(os, pwd, input), input),
{
    let a = GENERATE_PREAMBLE@;
    let b = "\n- Current directory: "@;
    let c = "\n\nUser:\n"@;
    let p = generate_prompt(os, pwd, input);
    assert(p == a + os + b + pwd + c + input);
    let i0 = a.len() as int;
    let i1 = i0 + os.len() + b.len();
    let i2 = i1 + pwd.len() + c.len();
    assert(p.subrange(i0, i0 + os.len()) =~= os);
    assert(p.subrange(i1, i1 + pwd.len()) =~= pwd);
    assert(p.subrange(i2, i2 + input.len()) =~= input);
    assert(occurs_at(p, os, i0));
    assert(occurs_at(p, pwd, i1));
    assert(occurs_at(p, input, i2));
}

impl LlmClient {
    pub fn new(model: String, base_url: String) -> (r: Self)
        ensures
            r.model == model,
            r.base_url == base_url,
    {
        LlmClient { model, base_url }
    }

    /// The prompt for turning `input` into a command in `context`.
    pub fn build_generate_prompt(&self, input: &str, context: &ContextInfo) -> (r: String)
        ensures
            r@ == generate_prompt(context.os@, context.pwd@, input@),
    {
        let mut s = String::new();
        s.append(
            GENERATE_PREAMBLE,
        );
        s.append(context.os.as_str());
        s.append("\n- Current directory: ");
        s.append(context.pwd.as_str());
        s.append("\n\nUser:\n");
        s.append(input);
        s
    }

    /// The prompt for explaining `command` in `language`.
    pub fn build_explain_prompt(&self, command: &str, language: &str) -> (r: String)
        ensures
            r@ == explain_prompt(command@, language@),
    {
        let mut s = String::new();
        s.append("Explain this shell command concisely in ");
        s.append(language);
        s.append(":\n");
        s.append(command);
        s.append(
            EXPLAIN_RULES,
        );
        s
    }

    /// The prompt for revising `command` according to `instruction`.
    pub fn build_rewrite_prompt(
        &self,
        original_input: &str,
        command: &str,
        instruction: &str,
    ) -> (r: String)
        ensures
            r@ == rewrite_prompt(original_input@, command@, instruction@),
    {
        let mut s = String::new();
        s.append("Original request: ");
        s.append(original_input);
        s.append("\nGenerated command: ");
        s.append(command);
        s.append("\nUser feedback: ");
        s.append(instruction);
        s.append(
            REWRITE_REQUEST,
        );
        s
    }

    /// The endpoint that generates completions.
    pub fn generate_url(&self) -> (r: String)
        ensures
            r@ == self.base_url@ + "/api/generate"@,
    {
        let mut s = copy_str(self.base_url.as_str());
        s.append("/api/generate");
        s
    }
}

} // verus!
