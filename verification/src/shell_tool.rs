//! The shell policy: an allowlist of safe commands, and confirmation for
//! everything else.
use vstd::prelude::*;
use crate::text::{
    chars_of, chars_start_with, is_whitespace, is_ws, starts_with, trim, trim_chars, trim_end,
    trim_start,
};
use crate::tool_error::ToolError;

verus! {

/// A character by which a shell chains, substitutes or redirects commands.
pub open spec fn is_shell_operator(c: char) -> bool {
    c == ';' || c == '&' || c == '|' || c == '\n' || c == '\r' || c == '`' || c == '$' || c == '<'
        || c == '>'
}

/// `t` is the safe command `safe`, alone or followed by arguments after
/// white space.
pub open spec fn invokes(t: Seq<char>, safe: Seq<char>) -> bool {
    starts_with(t, safe) && (t.len() == safe.len() || is_ws(t[safe.len() as int]))
}

/// `command`, once trimmed, is one of the safe commands, alone or with
/// arguments, and holds no operator that would run another command.
pub open spec fn allowlisted(command: Seq<char>) -> bool {
    let t = trim(command);
    &&& {
        ||| invokes(t, "git status"@)
        ||| invokes(t, "git diff"@)
        ||| invokes(t, "cargo test"@)
        ||| invokes(t, "cargo fmt"@)
        ||| invokes(t, "pytest"@)
        ||| invokes(t, "npm test"@)
    }
    &&& forall|i: int| 0 <= i < t.len() ==> !is_shell_operator(#[trigger] t[i])
}

fn invokes_chars(t: &Vec<char>, safe: &str) -> (b: bool)
    ensures
        b == invokes(t@, safe@),
{
    let s = chars_of(safe);
    if !chars_start_with(t, &s) {
        return false;
    }
    s.len() == t.len() || is_whitespace(t[s.len()])
}

fn has_no_operator(t: &Vec<char>) -> (b: bool)
    ensures
        b == (forall|i: int| 0 <= i < t@.len() ==> !is_shell_operator(#[trigger] t@[i])),
{
    let mut i: usize = 0;
    while i < t.len()
        invariant
            i <= t.len(),
            forall|j: int| 0 <= j < i ==> !is_shell_operator(#[trigger] t@[j]),
        decreases t.len() - i,
    {
        let c = t[i];
        if c == ';' || c == '&' || c == '|' || c == '\n' || c == '\r' || c == '`' || c == '$'
            || c == '<' || c == '>' {
            assert(is_shell_operator(t@[i as int]));
            return false;
        }
        i += 1;
    }
    true
}

/// What the policy says of a command.
#[derive(Debug, Clone, Copy, PartialEq, Eq, Structural)]
pub enum ShellPolicyDecision {
    Allowed,
    RequiresConfirmation,
}

/// Whether `command`, trimmed, is a command of the allowlist, alone or
/// with arguments, chaining no other command.
pub fn is_allowed(command: &str) -> (b: bool)
    ensures
        b == allowlisted(command@),
{
    let t = trim_chars(&chars_of(command));
    let safe = invokes_chars(&t, "git status") || invokes_chars(&t, "git diff") || invokes_chars(
        &t,
        "cargo test",
    ) || invokes_chars(&t, "cargo fmt") || invokes_chars(&t, "pytest") || invokes_chars(
        &t,
        "npm test",
    );
    safe && has_no_operator(&t)
}

/// Allowlisted commands are allowed; all others need confirmation.
pub fn classify_command(command: &str) -> (d: ShellPolicyDecision)
    ensures
        d == (if allowlisted(command@) {
            ShellPolicyDecision::Allowed
        } else {
            ShellPolicyDecision::RequiresConfirmation
        }),
{
    if is_allowed(command) {
        ShellPolicyDecision::Allowed
    } else {
        ShellPolicyDecision::RequiresConfirmation
    }
}

/// Accepts `command` when it is allowlisted or `confirmed`.
pub fn validate_command(command: &str, confirmed: bool) -> (r: Result<(), ToolError>)
    ensures
        (allowlisted(command@) || confirmed) ==> r is Ok,
        !(allowlisted(command@) || confirmed) ==> r matches Err(ToolError::ConfirmationRequired),
{
    match classify_command(command) {
        ShellPolicyDecision::Allowed => Ok(()),
        ShellPolicyDecision::RequiresConfirmation => {
            if confirmed {
                Ok(())
            } else {
                Err(ToolError::ConfirmationRequired)
            }
        },
    }
}

/// Arguments that may follow a safe command: nothing, or white space and
/// then text that ends in no white space and holds no shell operator.
pub open spec fn plain_arguments(args: Seq<char>) -> bool {
    &&& args.len() == 0 || (is_ws(args[0]) && !is_ws(args.last()))
    &&& forall|i: int| 0 <= i < args.len() ==> !is_shell_operator(#[trigger] args[i])
}

proof fn lemma_command_with_arguments(safe: Seq<char>, args: Seq<char>)
    requires
        safe.len() > 0,
        !is_ws(safe[0]),
        !is_ws(safe.last()),
        forall|i: int| 0 <= i < safe.len() ==> !is_shell_operator(#[trigger] safe[i]),
        plain_arguments(args),
    ensures
        trim(safe + args) == safe + args,
        invokes(safe + args, safe),
        forall|i: int| 0 <= i < (safe + args).len() ==> !is_shell_operator(#[trigger] (safe + args)[i]),
{
    let t = safe + args;
    assert(t[0] == safe[0]);
    assert(trim_start(t) == t);
    assert(t.last() == if args.len() == 0 { safe.last() } else { args.last() });
    assert(trim_end(t) == t);
    assert(t.subrange(0, safe.len() as int) =~= safe);
    if args.len() > 0 {
        assert(t[safe.len() as int] == args[0]);
    }
    assert forall|i: int| 0 <= i < t.len() implies !is_shell_operator(#[trigger] t[i]) by {
        if i < safe.len() {
            assert(t[i] == safe[i]);
        } else {
            assert(t[i] == args[i - safe.len()]);
        }
    }
}

/// Every command of the allowlist (`git status`, `git diff`, `cargo test`,
/// `cargo fmt`, `pytest`, `npm test`) runs without confirmation, alone or
/// followed by plain arguments, wherever white space surrounds it.
pub proof fn lemma_safe_commands_allowed(args: Seq<char>, before: Seq<char>, after: Seq<char>)
    requires
        plain_arguments(args),
        forall|i: int| 0 <= i < before.len() ==> is_ws(#[trigger] before[i]),
        forall|i: int| 0 <= i < after.len() ==> is_ws(#[trigger] after[i]),
    ensures
        allowlisted(before + "git status"@ + args + after),
        allowlisted(before + "git diff"@ + args + after),
        allowlisted(before + "cargo test"@ + args + after),
        allowlisted(before + "cargo fmt"@ + args + after),
        allowlisted(before + "pytest"@ + args + after),
        allowlisted(before + "npm test"@ + args + after),
{
    reveal_strlit("git status");
    reveal_strlit("git diff");
    reveal_strlit("cargo test");
    reveal_strlit("cargo fmt");
    reveal_strlit("pytest");
    reveal_strlit("npm test");
    lemma_command_with_arguments("git status"@, args);
    lemma_command_with_arguments("git diff"@, args);
    lemma_command_with_arguments("cargo test"@, args);
    lemma_command_with_arguments("cargo fmt"@, args);
    lemma_command_with_arguments("pytest"@, args);
    lemma_command_with_arguments("npm test"@, args);
    lemma_surrounding_white_space(before, "git status"@ + args, after);
    assert(before + "git status"@ + args + after =~= before + ("git status"@ + args) + after);
    lemma_surrounding_white_space(before, "git diff"@ + args, after);
    assert(before + "git diff"@ + args + after =~= before + ("git diff"@ + args) + after);
    lemma_surrounding_white_space(before, "cargo test"@ + args, after);
    assert(before + "cargo test"@ + args + after =~= before + ("cargo test"@ + args) + after);
    lemma_surrounding_white_space(before, "cargo fmt"@ + args, after);
    assert(before + "cargo fmt"@ + args + after =~= before + ("cargo fmt"@ + args) + after);
    lemma_surrounding_white_space(before, "pytest"@ + args, after);
    assert(before + "pytest"@ + args + after =~= before + ("pytest"@ + args) + after);
    lemma_surrounding_white_space(before, "npm test"@ + args, after);
    assert(before + "npm test"@ + args + after =~= before + ("npm test"@ + args) + after);
}

proof fn lemma_surrounding_white_space(before: Seq<char>, t: Seq<char>, after: Seq<char>)
    requires
        trim(t) == t,
        t.len() > 0,
        forall|i: int| 0 <= i < before.len() ==> is_ws(#[trigger] before[i]),
        forall|i: int| 0 <= i < after.len() ==> is_ws(#[trigger] after[i]),
    ensures
        trim(before + t + after) == t,
{
    crate::text::lemma_trim(t, ' ');
    assert((t + after)[0] == t[0]);
    lemma_trim_start_drops(before, t + after);
    assert(before + t + after == before + (t + after));
    lemma_trim_end_drops(t, after);
}

proof fn lemma_trim_start_drops(before: Seq<char>, rest: Seq<char>)
    requires
        forall|i: int| 0 <= i < before.len() ==> is_ws(#[trigger] before[i]),
        rest.len() > 0,
        !is_ws(rest[0]),
    ensures
        trim_start(before + rest) == rest,
    decreases before.len(),
{
    if before.len() == 0 {
        assert(before + rest =~= rest);
    } else {
        let s = before + rest;
        assert(s[0] == before[0]);
        assert(s.drop_first() =~= before.drop_first() + rest);
        assert forall|i: int| 0 <= i < before.drop_first().len() implies is_ws(
            #[trigger] before.drop_first()[i],
        ) by {
            assert(before.drop_first()[i] == before[i + 1]);
        }
        lemma_trim_start_drops(before.drop_first(), rest);
    }
}

proof fn lemma_trim_end_drops(t: Seq<char>, after: Seq<char>)
    requires
        forall|i: int| 0 <= i < after.len() ==> is_ws(#[trigger] after[i]),
        t.len() > 0,
        trim(t) == t,
    ensures
        trim_end(t + after) == t,
    decreases after.len(),
{
    if after.len() == 0 {
        assert(t + after =~= t);
        assert(t[0] == t[0]);
        lemma_trim_fixed(t);
    } else {
        let s = t + after;
        assert(s.last() == after.last());
        assert(s.drop_last() =~= t + after.drop_last());
        assert forall|i: int| 0 <= i < after.drop_last().len() implies is_ws(
            #[trigger] after.drop_last()[i],
        ) by {
            assert(after.drop_last()[i] == after[i]);
        }
        lemma_trim_end_drops(t, after.drop_last());
    }
}

proof fn lemma_trim_fixed(t: Seq<char>)
    requires
        t.len() > 0,
        trim(t) == t,
    ensures
        trim_end(t) == t,
{
    crate::text::lemma_trim(t, ' ');
    crate::text::lemma_trim_end(t);
}

/// Nothing else runs without confirmation: an allowed command, trimmed, is
/// one of the allowlist's commands followed by plain white-space-led
/// arguments that hold no shell operator.
pub proof fn lemma_allowed_commands_are_safe(command: Seq<char>)
    requires
        allowlisted(command),
    ensures
        ({
            let t = trim(command);
            &&& forall|i: int| 0 <= i < t.len() ==> !is_shell_operator(#[trigger] t[i])
            &&& exists|safe: Seq<char>, args: Seq<char>|
                #![trigger safe + args]
                t == safe + args && (args.len() == 0 || is_ws(args[0])) && (safe == "git status"@
                    || safe == "git diff"@ || safe == "cargo test"@ || safe == "cargo fmt"@ || safe
                    == "pytest"@ || safe == "npm test"@)
        }),
{
    let t = trim(command);
    if invokes(t, "git status"@) {
        lemma_split_invocation(t, "git status"@);
    } else if invokes(t, "git diff"@) {
        lemma_split_invocation(t, "git diff"@);
    } else if invokes(t, "cargo test"@) {
        lemma_split_invocation(t, "cargo test"@);
    } else if invokes(t, "cargo fmt"@) {
        lemma_split_invocation(t, "cargo fmt"@);
    } else if invokes(t, "pytest"@) {
        lemma_split_invocation(t, "pytest"@);
    } else {
        lemma_split_invocation(t, "npm test"@);
    }
}

proof fn lemma_split_invocation(t: Seq<char>, safe: Seq<char>)
    requires
        invokes(t, safe),
    ensures
        ({
            let args = t.subrange(safe.len() as int, t.len() as int);
            t == safe + args && (args.len() == 0 || is_ws(args[0]))
        }),
{
    let args = t.subrange(safe.len() as int, t.len() as int);
    assert(t =~= t.subrange(0, safe.len() as int) + args);
    if args.len() > 0 {
        assert(args[0] == t[safe.len() as int]);
    }
}

} // verus!
