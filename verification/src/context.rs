//! What the model is told about where the command will run.
use vstd::prelude::*;
use crate::llm::ollama::{lemma_trim_newline_after, lemma_trimmed_ends};
use crate::text::{
    CharClass, chars_of, has_prefix, lemma_trim_by_untouched, matches_at, string_from_range, trim,
    trimmed,
};

verus! {

/// The working environment passed to the model.
pub struct ContextInfo {
    pub os: String,
    pub pwd: String,
    pub files: Vec<String>,
    pub branch: Option<String>,
}

impl Default for ContextInfo {
    /// An all-empty context.
    fn default() -> (r: Self)
        ensures
            r.os@.len() == 0,
            r.pwd@.len() == 0,
            r.files@.len() == 0,
            r.branch is None,
    {
        ContextInfo { os: String::new(), pwd: String::new(), files: Vec::new(), branch: None }
    }
}

/// At most this many directory entries are reported.
pub const MAX_FILES: usize = 20;

/// The head of a branch reference in `.git/HEAD`.
pub open spec fn ref_prefix() -> Seq<char> {
    "ref: refs/heads/"@
}

/// The branch that a `.git/HEAD` file names: the rest of its trimmed text
/// after `ref: refs/heads/`; none for a detached head.
pub open spec fn head_branch(content: Seq<char>) -> Option<Seq<char>> {
    let t = trim(content);
    if has_prefix(t, ref_prefix()) {
        Some(t.subrange(ref_prefix().len() as int, t.len() as int))
    } else {
        None
    }
}

/// A `.git/HEAD` that reads `ref: refs/heads/` and a branch name (with or
/// without its final newline) names that branch.
pub proof fn law_head_names_branch(b: Seq<char>)
    requires
        b.len() > 0,
        trim(b) == b,
    ensures
        head_branch("ref: refs/heads/"@ + b) == Some(b),
        head_branch("ref: refs/heads/"@ + b + seq!['\n']) == Some(b),
{
    reveal_strlit("ref: refs/heads/");
    let x = "ref: refs/heads/"@ + b;
    lemma_trimmed_ends(b);
    assert(x[0] == 'r');
    assert(x.last() == b.last());
    lemma_trim_by_untouched(x, CharClass::Space);
    lemma_trim_newline_after(x);
    assert(x.subrange(0, 16) =~= "ref: refs/heads/"@);
    assert(x.subrange(16, x.len() as int) =~= b);
}

/// The branch named by the contents of `.git/HEAD`.
pub fn branch_from_head(content: &str) -> (r: Option<String>)
    ensures
        r matches Some(b) ==> head_branch(content@) == Some(b@),
        r is None ==> head_branch(content@) is None,
{
    let t = trimmed(content);
    let v = chars_of(t.as_str());
    let p = chars_of("ref: refs/heads/");
    if matches_at(&v, &p, 0) {
        assert(v@.subrange(0, p@.len() as int) == p@);
        Some(string_from_range(&v, p.len(), v.len()))
    } else {
        None
    }
}

/// The context reported when none is gathered: Linux, nothing else.
pub fn default_context() -> (r: ContextInfo)
    ensures
        r.os@ == "linux"@,
        r.pwd@.len() == 0,
        r.files@.len() == 0,
        r.branch is None,
{
    ContextInfo { os: copy_linux(), pwd: String::new(), files: Vec::new(), branch: None }
}

fn copy_linux() -> (r: String)
    ensures
        r@ == "linux"@,
{
    let mut s = String::new();
    s.append("linux");
    s
}

/// The context of the directory `pwd`, given its entry names in listing
/// order and, when it holds a `.git` directory, the text of `.git/HEAD`
/// (`None` outside a repository or when the file cannot be read).
pub fn gather(pwd: String, entries: Vec<String>, git_head: Option<String>) -> (r: ContextInfo)
    ensures
        r.os@ == "linux"@,
        r.pwd == pwd,
        r.files@ == entries@.take(
            if entries@.len() < MAX_FILES {
                entries@.len() as int
            } else {
                MAX_FILES as int
            },
        ),
        r.files@.len() <= MAX_FILES,
        git_head is None ==> r.branch is None,
        git_head matches Some(h) ==> (match r.branch {
            Some(b) => head_branch(h@) == Some(b@),
            None => head_branch(h@) is None,
        }),
{
    let mut files = entries;
    files.truncate(MAX_FILES);
    let branch = match git_head {
        Some(h) => branch_from_head(h.as_str()),
        None => None,
    };
    ContextInfo { os: copy_linux(), pwd, files, branch }
}

} // verus!
