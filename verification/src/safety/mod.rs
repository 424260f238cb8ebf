//! Recognising dangerous shell commands before they are run.
pub mod rule;

use vstd::prelude::*;
use crate::safety::rule::{compile_rule, context_free, regex_compiles, regex_finds, rule_is_match};
use crate::text::copy_str;

verus! {

/// The verdict on one command.
pub struct DangerResult {
    pub is_dangerous: bool,
    pub message: Option<String>,
}

/// Number of danger rules.
pub const RULE_COUNT: usize = 15;

/// The pattern of rule `i`, in the order in which rules are tried.
pub open spec fn rule_pattern(i: int) -> Seq<char> {
    if i == 0 {
        r"rm\s+(-[^\s]*f[^\s]*r|-[^\s]*r[^\s]*f|--recursive|--force)"@
    } else if i == 1 {
        r">\s*/etc/"@
    } else if i == 2 {
        r">\s*/dev/sd"@
    } else if i == 3 {
        r"sudo\s+"@
    } else if i == 4 {
        r"chmod\s+(777|[+]s|u[+]s|g[+]s)"@
    } else if i == 5 {
        r"curl[^|]*\|\s*(ba)?sh"@
    } else if i == 6 {
        r"wget[^|]*\|\s*(ba)?sh"@
    } else if i == 7 {
        r"base64\s*(-d|--decode)[^|]*\|[^|]*(ba)?sh"@
    } else if i == 8 {
        r"openssl\s+enc[^|]*\|[^|]*(ba)?sh"@
    } else if i == 9 {
        r"bash\s+-i\s*>&\s*/dev/tcp"@
    } else if i == 10 {
        r"nc(at)?\s+.*(--exec|-e)\s+"@
    } else if i == 11 {
        r"/dev/tcp/"@
    } else if i == 12 {
        r"mkfs"@
    } else if i == 13 {
        r"dd\s+if="@
    } else {
        r":\(\)\{.*\}"@
    }
}

/// The warning shown when rule `i` fires.
pub open spec fn rule_message(i: int) -> Seq<char> {
    if i == 0 {
        "Recursive force delete"@
    } else if i == 1 {
        "Overwriting system configuration file"@
    } else if i == 2 {
        "Writing to block device"@
    } else if i == 3 {
        "Elevated privileges required"@
    } else if i == 4 {
        "Insecure file permissions or SUID bit"@
    } else if i == 5 {
        "Piping curl to shell"@
    } else if i == 6 {
        "Piping wget to shell"@
    } else if i == 7 {
        "Executing base64-decoded payload"@
    } else if i == 8 {
        "Executing decoded payload"@
    } else if i == 9 {
        "Bash reverse shell detected"@
    } else if i == 10 {
        "Netcat reverse shell detected"@
    } else if i == 11 {
        "TCP device redirection (possible reverse shell)"@
    } else if i == 12 {
        "Filesystem formatting"@
    } else if i == 13 {
        "Low-level disk operation"@
    } else {
        "Fork bomb detected"@
    }
}

/// The danger rules, in the order in which they are tried: each pattern
/// with the warning it gives. What each pattern means is the regular
/// expression syntax of the `regex` crate.
pub proof fn law_rule_table()
    ensures
        RULE_COUNT == 15,
        rule_pattern(0) == r"rm\s+(-[^\s]*f[^\s]*r|-[^\s]*r[^\s]*f|--recursive|--force)"@ && rule_message(0) == "Recursive force delete"@,
        rule_pattern(1) == r">\s*/etc/"@ && rule_message(1) == "Overwriting system configuration file"@,
        rule_pattern(2) == r">\s*/dev/sd"@ && rule_message(2) == "Writing to block device"@,
        rule_pattern(3) == r"sudo\s+"@ && rule_message(3) == "Elevated privileges required"@,
        rule_pattern(4) == r"chmod\s+(777|[+]s|u[+]s|g[+]s)"@ && rule_message(4) == "Insecure file permissions or SUID bit"@,
        rule_pattern(5) == r"curl[^|]*\|\s*(ba)?sh"@ && rule_message(5) == "Piping curl to shell"@,
        rule_pattern(6) == r"wget[^|]*\|\s*(ba)?sh"@ && rule_message(6) == "Piping wget to shell"@,
        rule_pattern(7) == r"base64\s*(-d|--decode)[^|]*\|[^|]*(ba)?sh"@ && rule_message(7) == "Executing base64-decoded payload"@,
        rule_pattern(8) == r"openssl\s+enc[^|]*\|[^|]*(ba)?sh"@ && rule_message(8) == "Executing decoded payload"@,
        rule_pattern(9) == r"bash\s+-i\s*>&\s*/dev/tcp"@ && rule_message(9) == "Bash reverse shell detected"@,
        rule_pattern(10) == r"nc(at)?\s+.*(--exec|-e)\s+"@ && rule_message(10) == "Netcat reverse shell detected"@,
        rule_pattern(11) == r"/dev/tcp/"@ && rule_message(11) == "TCP device redirection (possible reverse shell)"@,
        rule_pattern(12) == r"mkfs"@ && rule_message(12) == "Filesystem formatting"@,
        rule_pattern(13) == r"dd\s+if="@ && rule_message(13) == "Low-level disk operation"@,
        rule_pattern(14) == r":\(\)\{.*\}"@ && rule_message(14) == "Fork bomb detected"@,
{
}

/// Pattern and message of rule `i`.
pub fn rule(i: usize) -> (r: (&'static str, &'static str))
    requires
        i < RULE_COUNT,
    ensures
        r.0@ == rule_pattern(i as int),
        r.1@ == rule_message(i as int),
{
    if i == 0 {
        (r"rm\s+(-[^\s]*f[^\s]*r|-[^\s]*r[^\s]*f|--recursive|--force)", "Recursive force delete")
    } else if i == 1 {
        (r">\s*/etc/", "Overwriting system configuration file")
    } else if i == 2 {
        (r">\s*/dev/sd", "Writing to block device")
    } else if i == 3 {
        (r"sudo\s+", "Elevated privileges required")
    } else if i == 4 {
        (r"chmod\s+(777|[+]s|u[+]s|g[+]s)", "Insecure file permissions or SUID bit")
    } else if i == 5 {
        (r"curl[^|]*\|\s*(ba)?sh", "Piping curl to shell")
    } else if i == 6 {
        (r"wget[^|]*\|\s*(ba)?sh", "Piping wget to shell")
    } else if i == 7 {
        (r"base64\s*(-d|--decode)[^|]*\|[^|]*(ba)?sh", "Executing base64-decoded payload")
    } else if i == 8 {
        (r"openssl\s+enc[^|]*\|[^|]*(ba)?sh", "Executing decoded payload")
    } else if i == 9 {
        (r"bash\s+-i\s*>&\s*/dev/tcp", "Bash reverse shell detected")
    } else if i == 10 {
        (r"nc(at)?\s+.*(--exec|-e)\s+", "Netcat reverse shell detected")
    } else if i == 11 {
        (r"/dev/tcp/", "TCP device redirection (possible reverse shell)")
    } else if i == 12 {
        (r"mkfs", "Filesystem formatting")
    } else if i == 13 {
        (r"dd\s+if=", "Low-level disk operation")
    } else {
        (r":\(\)\{.*\}", "Fork bomb detected")
    }
}

/// No rule pattern holds an assertion on the text around a match.
#[verifier::rlimit(40)]
proof fn lemma_rules_context_free(i: int)
    requires
        0 <= i < RULE_COUNT,
    ensures
        context_free(rule_pattern(i)),
{
    if i == 0 {
        reveal_strlit(r"rm\s+(-[^\s]*f[^\s]*r|-[^\s]*r[^\s]*f|--recursive|--force)");
    } else if i == 1 {
        reveal_strlit(r">\s*/etc/");
    } else if i == 2 {
        reveal_strlit(r">\s*/dev/sd");
    } else if i == 3 {
        reveal_strlit(r"sudo\s+");
    } else if i == 4 {
        reveal_strlit(r"chmod\s+(777|[+]s|u[+]s|g[+]s)");
    } else if i == 5 {
        reveal_strlit(r"curl[^|]*\|\s*(ba)?sh");
    } else if i == 6 {
        reveal_strlit(r"wget[^|]*\|\s*(ba)?sh");
    } else if i == 7 {
        reveal_strlit(r"base64\s*(-d|--decode)[^|]*\|[^|]*(ba)?sh");
    } else if i == 8 {
        reveal_strlit(r"openssl\s+enc[^|]*\|[^|]*(ba)?sh");
    } else if i == 9 {
        reveal_strlit(r"bash\s+-i\s*>&\s*/dev/tcp");
    } else if i == 10 {
        reveal_strlit(r"nc(at)?\s+.*(--exec|-e)\s+");
    } else if i == 11 {
        reveal_strlit(r"/dev/tcp/");
    } else if i == 12 {
        reveal_strlit(r"mkfs");
    } else if i == 13 {
        reveal_strlit(r"dd\s+if=");
    } else if i == 14 {
        reveal_strlit(r":\(\)\{.*\}");
    }
}

/// Rule `i` flags `command`: its pattern matches the command, or the
/// pattern cannot be compiled (a rule that cannot be checked counts as a
/// hit, so that nothing passes unchecked).
pub open spec fn rule_fires(i: int, command: Seq<char>) -> bool {
    !regex_compiles(rule_pattern(i)) || regex_finds(rule_pattern(i), command)
}

/// The first position of `true` in `s`, if any.
pub open spec fn first_true(s: Seq<bool>) -> Option<int> {
    if exists|i: int| 0 <= i < s.len() && s[i] {
        Some(choose|i: int| 0 <= i < s.len() && s[i] && forall|j: int| 0 <= j < i ==> !s[j])
    } else {
        None
    }
}

/// Some rule flags `command`.
pub open spec fn flagged(command: Seq<char>) -> bool {
    exists|i: int| 0 <= i < RULE_COUNT && rule_fires(i, command)
}

/// Which rules flag `command`, in rule order.
pub open spec fn firings(command: Seq<char>) -> Seq<bool> {
    Seq::new(RULE_COUNT as nat, |i: int| rule_fires(i, command))
}

/// The verdict carries the message of the first rule that fired, and is
/// safe (no message) when none did.
pub open spec fn verdict_matches(r: DangerResult, fired: Seq<bool>) -> bool {
    match first_true(fired) {
        Some(i) => r.is_dangerous && (r.message matches Some(m) && m@ == rule_message(i)),
        None => !r.is_dangerous && r.message is None,
    }
}

/// A verdict is dangerous exactly when some rule fired, and then it
/// carries the warning of the earliest rule that fired.
pub proof fn law_verdict_names_first_rule(r: DangerResult, fired: Seq<bool>)
    requires
        verdict_matches(r, fired),
    ensures
        r.is_dangerous <==> exists|i: int| 0 <= i < fired.len() && fired[i],
        r.is_dangerous ==> exists|i: int|
            0 <= i < fired.len() && fired[i] && (forall|j: int| 0 <= j < i ==> !fired[j]) && (
            r.message matches Some(m) && m@ == rule_message(i)),
        !r.is_dangerous ==> r.message is None,
{
    if exists|i: int| 0 <= i < fired.len() && fired[i] {
        let k = choose|i: int|
            0 <= i < fired.len() && fired[i] && forall|j: int| 0 <= j < i ==> !fired[j];
        lemma_least_true(fired, 0);
        assert(0 <= k < fired.len() && fired[k] && forall|j: int| 0 <= j < k ==> !fired[j]);
    }
}

proof fn lemma_least_true(s: Seq<bool>, k: int)
    requires
        0 <= k <= s.len(),
        exists|i: int| 0 <= i < s.len() && s[i],
        forall|j: int| 0 <= j < k ==> !s[j],
    ensures
        exists|x: int| 0 <= x < s.len() && s[x] && forall|j: int| 0 <= j < x ==> !s[j],
    decreases s.len() - k,
{
    if k < s.len() {
        if s[k] {
            assert(0 <= k < s.len() && s[k] && forall|j: int| 0 <= j < k ==> !s[j]);
        } else {
            lemma_least_true(s, k + 1);
        }
    } else {
        let i = choose|i: int| 0 <= i < s.len() && s[i];
        assert(!s[i]);
    }
}

/// The verdict given which rules fired (`fired[i]` for rule `i`).
pub fn assess(fired: &Vec<bool>) -> (r: DangerResult)
    requires
        fired.len() <= RULE_COUNT,
    ensures
        verdict_matches(r, fired@),
        r.is_dangerous <==> r.message is Some,
{
    let mut i: usize = 0;
    while i < fired.len()
        invariant
            i <= fired.len() <= RULE_COUNT,
            forall|j: int| 0 <= j < i ==> !fired@[j],
        decreases fired.len() - i,
    {
        if fired[i] {
            let (_, msg) = rule(i);
            proof {
                let s = fired@;
                let k = i as int;
                assert(0 <= k < s.len() && s[k] && forall|j: int| 0 <= j < k ==> !s[j]);
                let x = choose|x: int| 0 <= x < s.len() && s[x] && forall|j: int| 0 <= j < x ==> !s[j];
                if x < k {
                    assert(!s[x]);
                }
                if x > k {
                    assert(!s[k]);
                }
            }
            return DangerResult { is_dangerous: true, message: Some(copy_str(msg)) };
        }
        i = i + 1;
    }
    DangerResult { is_dangerous: false, message: None }
}

/// Checks `command` against every danger rule; the verdict names the first
/// rule, in rule order, that flags it. A dangerous command stays dangerous
/// inside any longer text: no rule looks at what surrounds a match.
pub fn check(command: &str) -> (r: DangerResult)
    ensures
        verdict_matches(r, firings(command@)),
        r.is_dangerous <==> r.message is Some,
        r.is_dangerous == flagged(command@),
        r.is_dangerous ==> forall|before: Seq<char>, after: Seq<char>|
            #[trigger] flagged(before + command@ + after),
{
    let mut fired: Vec<bool> = Vec::new();
    let mut i: usize = 0;
    while i < RULE_COUNT
        invariant
            i <= RULE_COUNT,
            fired@.len() == i,
            forall|j: int| 0 <= j < i ==> fired@[j] == rule_fires(j, command@),
            forall|j: int, before: Seq<char>, after: Seq<char>|
                0 <= j < i && fired@[j] ==> #[trigger] rule_fires(j, before + command@ + after),
        decreases RULE_COUNT - i,
    {
        let (pattern, _) = rule(i);
        proof {
            lemma_rules_context_free(i as int);
        }
        let hit = match compile_rule(pattern) {
            Ok(compiled) => rule_is_match(&compiled, command),
            Err(_) => true,
        };
        fired.push(hit);
        i = i + 1;
    }
    assert(fired@ =~= firings(command@));
    let r = assess(&fired);
    proof {
        let s = fired@;
        if r.is_dangerous {
            let k = first_true(s).unwrap();
            assert(s[k]);
            assert forall|before: Seq<char>, after: Seq<char>|
                #[trigger] flagged(before + command@ + after) by {
                assert(rule_fires(k, before + command@ + after));
            }
        } else {
            assert forall|k: int| 0 <= k < RULE_COUNT implies !rule_fires(k, command@) by {
                assert(!s[k]);
            }
        }
    }
    r
}

} // verus!
