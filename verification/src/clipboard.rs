//! Which clipboard programs are tried, in which order.
use vstd::prelude::*;
use crate::text::copy_str;

verus! {

/// A program that reads text on its standard input into the clipboard.
pub struct ClipboardTool {
    pub program: String,
    pub args: Vec<String>,
}

/// The tool has this program name and these arguments.
pub open spec fn tool_is(t: ClipboardTool, program: Seq<char>, args: Seq<Seq<char>>) -> bool {
    t.program@ == program && t.args@.len() == args.len() && forall|i: int|
        0 <= i < args.len() ==> #[trigger] t.args@[i]@ == args[i]
}

fn tool(program: &str, args: &[&str]) -> (r: ClipboardTool)
    ensures
        r.program@ == program@,
        r.args@.len() == args@.len(),
        forall|i: int| 0 <= i < args@.len() ==> #[trigger] r.args@[i]@ == args@[i]@,
{
    let mut v: Vec<String> = Vec::new();
    let mut i: usize = 0;
    while i < args.len()
        invariant
            i <= args@.len(),
            v@.len() == i,
            forall|j: int| 0 <= j < i ==> #[trigger] v@[j]@ == args@[j]@,
        decreases args.len() - i,
    {
        v.push(copy_str(args[i]));
        i = i + 1;
    }
    ClipboardTool { program: copy_str(program), args: v }
}

/// The tools to try in order: `wl-copy` first under Wayland, then
/// `xclip -selection clipboard`, then `xsel --clipboard --input`.
pub fn candidates(wayland: bool) -> (r: Vec<ClipboardTool>)
    ensures
        r@.len() == if wayland {
            3int
        } else {
            2int
        },
        wayland ==> tool_is(r@[0], "wl-copy"@, seq![]),
        tool_is(r@[r@.len() - 2], "xclip"@, seq!["-selection"@, "clipboard"@]),
        tool_is(r@[r@.len() - 1], "xsel"@, seq!["--clipboard"@, "--input"@]),
{
    let mut r: Vec<ClipboardTool> = Vec::new();
    if wayland {
        let empty: [&str; 0] = [];
        r.push(tool("wl-copy", &empty));
    }
    let xclip_args = ["-selection", "clipboard"];
    r.push(tool("xclip", &xclip_args));
    let xsel_args = ["--clipboard", "--input"];
    r.push(tool("xsel", &xsel_args));
    r
}

/// The error when no tool could copy.
pub fn no_tool_message() -> (r: String)
    ensures
        r@ == "No clipboard tool found. Install wl-copy, xclip, or xsel."@,
{
    copy_str("No clipboard tool found. Install wl-copy, xclip, or xsel.")
}


/// What to do next while copying.
pub enum CopyStep {
    /// The text is on the clipboard; try no further tool.
    Done,
    /// Run the tool at this position of the candidate list.
    Try(usize),
    /// No tool could copy; the error to report.
    Failed(String),
}

/// The step a copy starts with, given the number of candidate tools.
pub fn first_copy_step(tools: usize) -> (r: CopyStep)
    ensures
        tools > 0 ==> (r matches CopyStep::Try(i) && i == 0),
        tools == 0 ==> (r matches CopyStep::Failed(m) && m@
            == "No clipboard tool found. Install wl-copy, xclip, or xsel."@),
{
    if tools > 0 {
        CopyStep::Try(0)
    } else {
        CopyStep::Failed(no_tool_message())
    }
}

/// The step after the tool at `index` ran, `succeeded` telling whether it
/// took the text and exited successfully: stop at the first success, else
/// go on to the next tool, and fail only after the last one.
pub fn next_copy_step(tools: usize, index: usize, succeeded: bool) -> (r: CopyStep)
    requires
        index < tools,
    ensures
        succeeded ==> r is Done,
        !succeeded && index + 1 < tools ==> (r matches CopyStep::Try(i) && i == index + 1),
        !succeeded && index + 1 == tools ==> (r matches CopyStep::Failed(m) && m@
            == "No clipboard tool found. Install wl-copy, xclip, or xsel."@),
{
    if succeeded {
        CopyStep::Done
    } else if index + 1 < tools {
        CopyStep::Try(index + 1)
    } else {
        CopyStep::Failed(no_tool_message())
    }
}

/// Which tools a copy runs, given how each would fare (`outcomes[i]` for the
/// tool at position `i`): all up to and including the first that succeeds,
/// or all of them when none does; and whether the copy succeeded.
pub open spec fn copy_run(outcomes: Seq<bool>) -> (nat, bool)
    decreases outcomes.len(),
{
    if outcomes.len() == 0 {
        (0, false)
    } else if outcomes[0] {
        (1, true)
    } else {
        let rest = copy_run(outcomes.drop_first());
        ((rest.0 + 1) as nat, rest.1)
    }
}

/// The tools run by a copy are exactly those before the first success and
/// that success itself: no tool after a successful one is run, and the copy
/// fails only when every tool failed.
pub proof fn law_copy_stops_at_first_success(outcomes: Seq<bool>)
    ensures
        copy_run(outcomes).1 <==> exists|i: int| 0 <= i < outcomes.len() && outcomes[i],
        copy_run(outcomes).0 <= outcomes.len(),
        copy_run(outcomes).1 ==> outcomes[copy_run(outcomes).0 - 1] && forall|j: int|
            0 <= j < copy_run(outcomes).0 - 1 ==> !outcomes[j],
        !copy_run(outcomes).1 ==> copy_run(outcomes).0 == outcomes.len(),
    decreases outcomes.len(),
{
    if outcomes.len() > 0 && !outcomes[0] {
        let rest = outcomes.drop_first();
        law_copy_stops_at_first_success(rest);
        if exists|i: int| 0 <= i < outcomes.len() && outcomes[i] {
            let i = choose|i: int| 0 <= i < outcomes.len() && outcomes[i];
            assert(rest[i - 1]);
        }
        if copy_run(rest).1 {
            let k = copy_run(rest).0;
            assert forall|j: int| 0 <= j < k implies !outcomes[j] by {
                if j > 0 {
                    assert(outcomes[j] == rest[j - 1]);
                }
            }
        }
    }
}

/// After `k` tools have failed, the rest of the copy is the copy over the
/// remaining tools: this is the step `next_copy_step` takes on a failure.
pub proof fn law_steps_follow_copy_run(outcomes: Seq<bool>, k: nat)
    requires
        k < outcomes.len(),
        forall|j: int| 0 <= j < k ==> !outcomes[j],
    ensures
        copy_run(outcomes.skip(k as int)).0 + k == copy_run(outcomes).0,
        copy_run(outcomes.skip(k as int)).1 == copy_run(outcomes).1,
    decreases k,
{
    if k > 0 {
        law_steps_follow_copy_run(outcomes.drop_first(), (k - 1) as nat);
        assert(outcomes.drop_first().skip(k - 1) =~= outcomes.skip(k as int));
    } else {
        assert(outcomes.skip(0) =~= outcomes);
    }
}

} // verus!
