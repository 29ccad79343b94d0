//! The ways in which the workspace tools refuse a request.
use vstd::prelude::*;
use vstd::string::StringExecFns;

verus! {

/// Why a tool refused what it was asked.
#[derive(Debug, Clone)]
pub enum ToolError {
    /// The workspace root could not be resolved to a canonical path.
    CanonicalizeFailed { root: String },
    /// The path lies outside the workspace.
    OutsideWorkspace,
    /// The path is a sensitive one outside the workspace.
    SensitivePath,
    /// Creating a file needs explicit approval.
    NewFileNeedsApproval,
    /// Saving a patch needs explicit approval.
    PatchNeedsApproval,
    /// The file to create exists already.
    FileExists,
    /// The patch lacks its `--- ` or `+++ ` header.
    IncompleteDiff,
    /// The diff is empty or white space alone.
    EmptyDiff,
    /// The command is not on the allowlist and was not confirmed.
    ConfirmationRequired,
    /// `git` ended with a failure status; its standard error output.
    GitFailed { stderr: String },
    /// `rg` ended with a failure other than "no match"; its standard error output.
    RipgrepFailed { stderr: String },
}

/// The text of each refusal.
pub open spec fn tool_error_message(e: ToolError) -> Seq<char> {
    match e {
        ToolError::CanonicalizeFailed { root } => "falha ao canonicalizar workspace: "@ + root@,
        ToolError::OutsideWorkspace => "acesso fora do workspace bloqueado"@,
        ToolError::SensitivePath => "caminho sensível bloqueado fora do workspace"@,
        ToolError::NewFileNeedsApproval => "diff-first: write_new_file exige aprovação explícita"@,
        ToolError::PatchNeedsApproval => "diff-first: apply_patch exige aprovação explícita"@,
        ToolError::FileExists => "write_new_file só permite criar arquivos novos"@,
        ToolError::IncompleteDiff => "patch inválido: unified diff incompleto"@,
        ToolError::EmptyDiff => "diff vazio"@,
        ToolError::ConfirmationRequired => "comando fora da allowlist exige confirmação"@,
        ToolError::GitFailed { stderr } => "git retornou erro: "@ + stderr@,
        ToolError::RipgrepFailed { stderr } => "ripgrep retornou erro: "@ + stderr@,
    }
}

impl ToolError {
    /// The text of this refusal.
    pub fn message(&self) -> (r: String)
        ensures
            r@ == tool_error_message(*self),
    {
        match self {
            ToolError::CanonicalizeFailed { root } => String::from_str(
                "falha ao canonicalizar workspace: ",
            ).concat(root.as_str()),
            ToolError::OutsideWorkspace => String::from_str("acesso fora do workspace bloqueado"),
            ToolError::SensitivePath => String::from_str(
                "caminho sensível bloqueado fora do workspace",
            ),
            ToolError::NewFileNeedsApproval => String::from_str(
                "diff-first: write_new_file exige aprovação explícita",
            ),
            ToolError::PatchNeedsApproval => String::from_str(
                "diff-first: apply_patch exige aprovação explícita",
            ),
            ToolError::FileExists => String::from_str(
                "write_new_file só permite criar arquivos novos",
            ),
            ToolError::IncompleteDiff => String::from_str(
                "patch inválido: unified diff incompleto",
            ),
            ToolError::EmptyDiff => String::from_str("diff vazio"),
            ToolError::ConfirmationRequired => String::from_str(
                "comando fora da allowlist exige confirmação",
            ),
            ToolError::GitFailed { stderr } => String::from_str("git retornou erro: ").concat(
                stderr.as_str(),
            ),
            ToolError::RipgrepFailed { stderr } => String::from_str(
                "ripgrep retornou erro: ",
            ).concat(stderr.as_str()),
        }
    }
}

} // verus!
