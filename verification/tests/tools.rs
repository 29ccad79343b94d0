use codexu::file_tool::{is_sensitive_outside_workspace, parse_unified_diff, PatchProposal, WorkspaceGuard};
use codexu::git_tool::{backup_branch_name, diff_apply_outcome, fts_row_text, git_output, ripgrep_lines};
use codexu::shell_tool::{classify_command, is_allowed, validate_command, ShellPolicyDecision};
use codexu::tool_error::ToolError;

const ROOT: &str = "/tmp/codexu-tools-test";

fn guard() -> WorkspaceGuard {
    WorkspaceGuard::new(ROOT.to_string())
}

#[test]
fn blocks_outside_workspace() {
    let guard = guard();
    assert!(guard.ensure_in_workspace(Some(ROOT), "/tmp/outside.txt").is_err());
}

#[test]
fn requires_approval_for_patch() {
    let guard = guard();
    let proposal = PatchProposal {
        relative_path: "src/lib.rs".to_string(),
        diff: "--- a/src/lib.rs\n+++ b/src/lib.rs\n@@\n".to_string(),
    };
    assert!(guard.apply_patch(&proposal, false, Some(ROOT)).is_err());
    assert!(guard.apply_patch(&proposal, true, Some(ROOT)).is_ok());
}

#[test]
fn allowlisted_command_passes_without_confirmation() {
    assert!(validate_command("git status", false).is_ok());
}

#[test]
fn non_allowlisted_requires_confirmation() {
    assert!(validate_command("rm -rf .", false).is_err());
    assert!(validate_command("rm -rf .", true).is_ok());
}

#[test]
fn relative_paths_inside_workspace_are_accepted() {
    let guard = guard();
    assert!(guard.ensure_in_workspace(Some(ROOT), "src/lib.rs").is_ok());
    assert!(guard.ensure_in_workspace(Some(ROOT), "./src/./main.rs").is_ok());
    assert!(guard.ensure_in_workspace(Some(ROOT), "src/../Cargo.toml").is_ok());
    assert!(guard.ensure_in_workspace(Some(ROOT), "/tmp/codexu-tools-test/a/b").is_ok());
}

#[test]
fn escaping_paths_are_refused() {
    let guard = guard();
    let e = guard.ensure_in_workspace(Some(ROOT), "src/../../etc/passwd").unwrap_err();
    assert!(matches!(e, ToolError::OutsideWorkspace));
    assert_eq!(e.message(), "acesso fora do workspace bloqueado");
    let e = guard.ensure_in_workspace(Some(ROOT), "/tmp/codexu-tools-testx/a").unwrap_err();
    assert!(matches!(e, ToolError::OutsideWorkspace));
    let e = guard.ensure_in_workspace(Some(ROOT), "/home/user/.ssh/id_rsa").unwrap_err();
    assert!(matches!(e, ToolError::OutsideWorkspace));
}

#[test]
fn uncanonical_root_is_reported() {
    let guard = guard();
    let e = guard.ensure_in_workspace(None, "src/lib.rs").unwrap_err();
    assert_eq!(e.message(), "falha ao canonicalizar workspace: /tmp/codexu-tools-test");
}

#[test]
fn sensitive_paths_are_recognised() {
    assert!(is_sensitive_outside_workspace("/home/user/.ssh/id_rsa", ROOT));
    assert!(is_sensitive_outside_workspace("/Users/u/Library/Keychains/login", ROOT));
    assert!(is_sensitive_outside_workspace("/srv/app/.env", ROOT));
    assert!(!is_sensitive_outside_workspace("/tmp/codexu-tools-test/.env", ROOT));
    assert!(!is_sensitive_outside_workspace("/srv/app/readme.md", ROOT));
}

#[test]
fn read_file_gives_the_target_path() {
    let guard = guard();
    assert_eq!(guard.read_file("src/lib.rs", Some(ROOT)).unwrap(), "/tmp/codexu-tools-test/src/lib.rs");
    assert!(guard.read_file("../x", Some(ROOT)).is_err());
}

#[test]
fn write_new_file_rules() {
    let guard = guard();
    let e = guard.write_new_file("a.txt", "x", false, Some(ROOT), false).unwrap_err();
    assert_eq!(e.message(), "diff-first: write_new_file exige aprovação explícita");
    let e = guard.write_new_file("a.txt", "x", true, Some(ROOT), true).unwrap_err();
    assert!(matches!(e, ToolError::FileExists));
    assert_eq!(e.message(), "write_new_file só permite criar arquivos novos");
    let w = guard.write_new_file("docs/a.txt", "hello", true, Some(ROOT), false).unwrap();
    assert_eq!(w.path, "/tmp/codexu-tools-test/docs/a.txt");
    assert_eq!(w.content, "hello");
    assert_eq!(guard.target_path("docs/a.txt"), w.path);
}

#[test]
fn apply_patch_rules() {
    let guard = guard();
    let proposal = PatchProposal {
        relative_path: "src/lib.rs".to_string(),
        diff: "--- a/src/lib.rs\n+++ b/src/lib.rs\n@@\n".to_string(),
    };
    let e = guard.apply_patch(&proposal, false, Some(ROOT)).unwrap_err();
    assert_eq!(e.message(), "diff-first: apply_patch exige aprovação explícita");
    let w = guard.apply_patch(&proposal, true, Some(ROOT)).unwrap();
    assert_eq!(w.target, "/tmp/codexu-tools-test/src/lib.rs");
    assert_eq!(w.pending_path, "/tmp/codexu-tools-test/src/lib.patch.pending");
    assert_eq!(w.diff, proposal.diff);
    let incomplete = PatchProposal { relative_path: "src/lib.rs".to_string(), diff: "+++ b\n".to_string() };
    let e = guard.apply_patch(&incomplete, true, Some(ROOT)).unwrap_err();
    assert!(matches!(e, ToolError::IncompleteDiff));
    assert_eq!(e.message(), "patch inválido: unified diff incompleto");
    let outside = PatchProposal { relative_path: "../x.rs".to_string(), diff: proposal.diff.clone() };
    assert!(matches!(guard.apply_patch(&outside, true, Some(ROOT)), Err(ToolError::OutsideWorkspace)));
}

#[test]
fn unified_diff_parsing() {
    let e = parse_unified_diff("a.rs".to_string(), " \n\t ").unwrap_err();
    assert!(matches!(e, ToolError::EmptyDiff));
    assert_eq!(e.message(), "diff vazio");
    let p = parse_unified_diff("a.rs".to_string(), "--- a\n+++ b\n").unwrap();
    assert_eq!(p.relative_path, "a.rs");
    assert_eq!(p.diff, "--- a\n+++ b\n");
}

#[test]
fn shell_policy() {
    assert!(is_allowed("  cargo test --workspace"));
    assert!(is_allowed("npm test"));
    assert!(!is_allowed("cargo build"));
    assert_eq!(classify_command("pytest -q"), ShellPolicyDecision::Allowed);
    assert_eq!(classify_command("curl x"), ShellPolicyDecision::RequiresConfirmation);
    let e = validate_command("curl x", false).unwrap_err();
    assert_eq!(e.message(), "comando fora da allowlist exige confirmação");
}

#[test]
fn git_output_handling() {
    assert_eq!(git_output(true, b"  M src/lib.rs\n", b"").unwrap(), "M src/lib.rs");
    let e = git_output(false, b"", b"fatal: not a git repository").unwrap_err();
    assert_eq!(e.message(), "git retornou erro: fatal: not a git repository");
    assert_eq!(backup_branch_name("codexu", 1700000000), "codexu/1700000000");
    assert_eq!(backup_branch_name("codexu", 0), "codexu/0");
}

#[test]
fn ripgrep_output_handling() {
    assert_eq!(ripgrep_lines(true, Some(0), b"a.rs:1:x\nb.rs:2:y\n", b"").unwrap(), vec!["a.rs:1:x", "b.rs:2:y"]);
    assert!(ripgrep_lines(false, Some(1), b"", b"").unwrap().is_empty());
    let e = ripgrep_lines(false, Some(2), b"", b"regex parse error").unwrap_err();
    assert_eq!(e.message(), "ripgrep retornou erro: regex parse error");
    assert_eq!(fts_row_text("src/a.rs", "[fn] main"), "src/a.rs: [fn] main");
}

#[test]
fn refusal_texts() {
    assert_eq!(ToolError::SensitivePath.message(), "caminho sensível bloqueado fora do workspace");
    assert_eq!(ToolError::ConfirmationRequired.message(), "comando fora da allowlist exige confirmação");
}

#[test]
fn chained_commands_need_confirmation() {
    assert!(validate_command("cargo test && rm -rf ~", false).is_err());
    assert!(validate_command("cargo test && rm -rf ~", true).is_ok());
    for c in ["cargo test; rm x", "npm test | sh", "pytest `whoami`", "cargo test $(id)", "cargo test > out", "cargo test\nrm x"] {
        assert_eq!(classify_command(c), ShellPolicyDecision::RequiresConfirmation, "{c:?}");
    }
    assert_eq!(classify_command("git statusx"), ShellPolicyDecision::RequiresConfirmation);
    assert_eq!(classify_command("git status"), ShellPolicyDecision::Allowed);
    assert_eq!(classify_command("cargo test --workspace"), ShellPolicyDecision::Allowed);
    assert_eq!(classify_command("cargo test\t-q"), ShellPolicyDecision::Allowed);
}

#[test]
fn diff_apply_outcomes() {
    assert_eq!(diff_apply_outcome(true, b"").unwrap(), "diff aplicado com sucesso");
    assert_eq!(
        diff_apply_outcome(false, b"error: patch failed").unwrap_err(),
        "falha ao aplicar diff: error: patch failed"
    );
}
