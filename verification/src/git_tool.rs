//! What the git and search tools make of a finished process, and the name
//! of a backup branch.
use vstd::prelude::*;
use vstd::string::StringExecFns;
use crate::text::{
    decimal, decimal_string, from_utf8_lossy, lines, lines_strings, string_views, trim, trim_str,
    utf8_lossy,
};
use crate::tool_error::ToolError;

verus! {

/// The result of a `git` run: its trimmed output on success, otherwise a
/// refusal carrying its error output.
pub fn git_output(success: bool, stdout: &[u8], stderr: &[u8]) -> (r: Result<String, ToolError>)
    ensures
        success ==> (r matches Ok(out) && out@ == trim(utf8_lossy(stdout@))),
        !success ==> (r matches Err(ToolError::GitFailed { stderr: e }) && e@ == utf8_lossy(
            stderr@,
        )),
{
    if !success {
        return Err(ToolError::GitFailed { stderr: from_utf8_lossy(stderr) });
    }
    let out = from_utf8_lossy(stdout);
    Ok(trim_str(out.as_str()))
}

/// The name of the backup branch made at `secs` seconds after the epoch:
/// `prefix/secs`.
pub fn backup_branch_name(prefix: &str, secs: u64) -> (r: String)
    ensures
        r@ == prefix@ + seq!['/'] + decimal(secs as nat),
{
    let mut name = String::from_str(prefix);
    name.append("/");
    proof {
        reveal_strlit("/");
    }
    let digits = decimal_string(secs);
    name.append(digits.as_str());
    name
}

/// The result of an `rg` run: the lines of its output on success; no lines
/// when it ended with status 1 (no match); otherwise a refusal carrying its
/// error output.
pub fn ripgrep_lines(success: bool, exit_code: Option<i32>, stdout: &[u8], stderr: &[u8]) -> (r:
    Result<Vec<String>, ToolError>)
    ensures
        success ==> (r matches Ok(ls) && string_views(ls@) == lines(utf8_lossy(stdout@))),
        !success && exit_code == Some(1i32) ==> (r matches Ok(ls) && ls@.len() == 0),
        !success && exit_code != Some(1i32) ==> (r matches Err(ToolError::RipgrepFailed { stderr: e })
            && e@ == utf8_lossy(stderr@)),
{
    if !success {
        if exit_code == Some(1i32) {
            return Ok(Vec::new());
        }
        return Err(ToolError::RipgrepFailed { stderr: from_utf8_lossy(stderr) });
    }
    let out = from_utf8_lossy(stdout);
    Ok(lines_strings(out.as_str()))
}

/// One full-text search hit as the search tool prints it: `path: snippet`.
pub fn fts_row_text(path: &str, snippet: &str) -> (r: String)
    ensures
        r@ == path@ + ": "@ + snippet@,
{
    let mut r = String::from_str(path);
    r.append(": ");
    r.append(snippet);
    r
}

/// The outcome of applying a diff with `git apply`: a success notice, or
/// the failure with git's error output.
pub fn diff_apply_outcome(success: bool, stderr: &[u8]) -> (r: Result<String, String>)
    ensures
        success ==> (r matches Ok(m) && m@ == "diff aplicado com sucesso"@),
        !success ==> (r matches Err(m) && m@ == "falha ao aplicar diff: "@ + utf8_lossy(stderr@)),
{
    if success {
        Ok(String::from_str("diff aplicado com sucesso"))
    } else {
        let mut m = String::from_str("falha ao aplicar diff: ");
        let err = from_utf8_lossy(stderr);
        m.append(err.as_str());
        Err(m)
    }
}

} // verus!
