//! Compiled danger rules. A `CompiledRule` can only be made by
//! `compile_rule`, which keeps the compiled expression together with the
//! pattern it was compiled from.
use vstd::prelude::*;

verus! {

/// `regex::Regex`, a compiled regular expression, opaque to proofs.
#[verifier::external_type_specification]
#[verifier::external_body]
pub struct ExRegex(regex::Regex);

/// `regex::Error`, why a pattern was refused, opaque to proofs.
#[verifier::external_type_specification]
#[verifier::external_body]
pub struct ExRegexError(regex::Error);

/// Whether `regex::Regex::new` accepts `pattern` (it is valid syntax and
/// compiles within the crate's default size limits).
pub uninterp spec fn regex_compiles(pattern: Seq<char>) -> bool;

/// Whether the expression compiled from `pattern` matches somewhere in
/// `haystack` (`regex::Regex::is_match`).
pub uninterp spec fn regex_finds(pattern: Seq<char>, haystack: Seq<char>) -> bool;

/// The pattern holds no assertion on the text around a match: no `$`, no
/// `^` but the one that negates a class right after an unescaped `[`, no
/// escape among `\b`, `\B`, `\A`, `\z`, `\<`, `\>` (word boundaries and
/// text anchors, in every form), and no flag group `(?`. Whether such an
/// expression matches a stretch of text does not depend on what stands
/// before or after it. The test is cautious: it refuses some patterns that
/// have no such assertion.
pub open spec fn context_free(p: Seq<char>) -> bool {
    forall|i: int|
        0 <= i < p.len() ==> {
            &&& #[trigger] p[i] != '$'
            &&& p[i] == '^' ==> (i >= 1 && p[i - 1] == '[' && (i < 2 || p[i - 2] != '\\'))
            &&& (p[i] == '\\' && i + 1 < p.len()) ==> (p[i + 1] != 'b' && p[i + 1] != 'B'
                && p[i + 1] != 'A' && p[i + 1] != 'z' && p[i + 1] != '<' && p[i + 1] != '>')
            &&& (p[i] == '(' && i + 1 < p.len()) ==> p[i + 1] != '?'
        }
}

/// A regular expression together with the pattern it was compiled from.
pub struct CompiledRule {
    re: regex::Regex,
    source: String,
}

impl CompiledRule {
    /// The pattern this rule was compiled from.
    pub closed spec fn pattern(&self) -> Seq<char> {
        self.source@
    }
}

/// Compiles `pattern` with `regex::Regex::new`. The crate returns `Ok`
/// exactly for the patterns it accepts, which is what `regex_compiles`
/// names; the rule keeps `pattern` beside the compiled expression.
#[verifier::external_body]
pub(crate) fn compile_rule(pattern: &str) -> (r: Result<CompiledRule, regex::Error>)
    ensures
        r is Ok <==> regex_compiles(pattern@),
        r matches Ok(c) ==> c.pattern() == pattern@,
{
    match regex::Regex::new(pattern) {
        Ok(re) => Ok(CompiledRule { re, source: pattern.to_string() }),
        Err(e) => Err(e),
    }
}

/// `regex::Regex::is_match` on the rule's expression: whether it matches
/// anywhere in `haystack`, named by `regex_finds` over the rule's pattern.
/// That the expression is the one compiled from that pattern rests on
/// `compile_rule` being the only way to make a `CompiledRule`. Since a
/// match may stand anywhere in the text, a match of an expression without
/// assertions on its surroundings (`context_free`) is also a match in any
/// text that holds `haystack`: the contract says so too.
#[verifier::external_body]
pub(crate) fn rule_is_match(rule: &CompiledRule, haystack: &str) -> (b: bool)
    ensures
        b == regex_finds(rule.pattern(), haystack@),
        b && context_free(rule.pattern()) ==> forall|before: Seq<char>, after: Seq<char>|
            #[trigger] regex_finds(rule.pattern(), before + haystack@ + after),
{
    rule.re.is_match(haystack)
}

} // verus!
