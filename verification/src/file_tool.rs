//! The workspace guard: which paths file tools may touch, and the
//! diff-first rules for writing.
use vstd::prelude::*;
use crate::paths::{
    PathComponent, body_components, components, is_absolute, join_path, join_paths,
    lemma_body_names, lemma_canonical_root, lemma_components_of_render, lemma_fold_extends,
    lemma_fold_normals, lemma_join_relative, lemma_normal_names, lemma_relative_body, norm_fold,
    normalize, normalize_path, normals, path_has_prefix, path_starts_with, path_with_extension,
    with_extension,
};
use crate::text::{contains, ends_with, is_blank, opt_view, str_contains, str_ends_with, trim};
use crate::tool_error::ToolError;

verus! {

/// The reason a path is refused.
pub enum Refusal {
    Canonicalize,
    Outside,
    Sensitive,
}

/// The path that `candidate` names, relative to the canonical workspace
/// root, in lexical normal form.
pub open spec fn guarded_path(canonical_root: Seq<char>, candidate: Seq<char>) -> Seq<char> {
    normalize(join_path(canonical_root, candidate))
}

/// `candidate` lies outside `root` and looks like secrets: an SSH
/// directory, a keychain, or an environment file.
pub open spec fn is_sensitive_outside(candidate: Seq<char>, root: Seq<char>) -> bool {
    &&& !path_starts_with(candidate, root)
    &&& {
        ||| contains(candidate, "/.ssh"@)
        ||| contains(candidate, "/Library/Keychains"@)
        ||| ends_with(candidate, ".env"@)
    }
}

/// Why the guard refuses `candidate`, if it does; `canonical_root` is the
/// canonical form of the workspace root, where it could be had.
pub open spec fn workspace_refusal(canonical_root: Option<Seq<char>>, candidate: Seq<char>) -> Option<
    Refusal,
> {
    match canonical_root {
        None => Some(Refusal::Canonicalize),
        Some(root) => {
            let n = guarded_path(root, candidate);
            if !path_starts_with(n, root) {
                Some(Refusal::Outside)
            } else if is_sensitive_outside(n, root) {
                Some(Refusal::Sensitive)
            } else {
                None
            }
        },
    }
}

/// `e` reports the refusal `f` for a workspace whose root is `root`.
pub open spec fn refused_with(e: ToolError, f: Refusal, root: Seq<char>) -> bool {
    match f {
        Refusal::Canonicalize => e matches ToolError::CanonicalizeFailed { root: r } && r@ == root,
        Refusal::Outside => e matches ToolError::OutsideWorkspace,
        Refusal::Sensitive => e matches ToolError::SensitivePath,
    }
}

/// The file tools' sandbox: a workspace root outside of which no path is
/// touched.
#[derive(Debug, Clone)]
pub struct WorkspaceGuard {
    root: String,
}

impl View for WorkspaceGuard {
    type V = Seq<char>;

    closed spec fn view(&self) -> Seq<char> {
        self.root@
    }
}

/// A proposed change: a file of the workspace and a unified diff for it.
#[derive(Debug, Clone)]
pub struct PatchProposal {
    pub relative_path: String,
    pub diff: String,
}

/// A file to create, and what to put in it.
#[derive(Debug, Clone)]
pub struct FileWrite {
    pub path: String,
    pub content: String,
}

/// A patch kept pending until it is applied: the file it is for, the file to save
/// it in, and the diff.
#[derive(Debug, Clone)]
pub struct PatchWrite {
    pub target: String,
    pub pending_path: String,
    pub diff: String,
}

/// `candidate` is sensitive and lies outside `workspace_root` (a path under
/// an SSH directory or a keychain, or an environment file).
pub fn is_sensitive_outside_workspace(candidate: &str, workspace_root: &str) -> (b: bool)
    ensures
        b == is_sensitive_outside(candidate@, workspace_root@),
{
    if path_has_prefix(candidate, workspace_root) {
        return false;
    }
    str_contains(candidate, "/.ssh") || str_contains(candidate, "/Library/Keychains")
        || str_ends_with(candidate, ".env")
}

impl WorkspaceGuard {
    /// A guard for the workspace rooted at `root`.
    pub fn new(root: String) -> (g: WorkspaceGuard)
        ensures
            g@ == root@,
    {
        WorkspaceGuard { root }
    }

    /// The workspace root as given.
    pub fn root(&self) -> (r: &str)
        ensures
            r@ == self@,
    {
        self.root.as_str()
    }

    /// The path of `relative_path` under the workspace root as given.
    pub fn target_path(&self, relative_path: &str) -> (r: String)
        ensures
            r@ == join_path(self@, relative_path@),
    {
        join_paths(self.root.as_str(), relative_path)
    }

    /// Accepts `candidate` when, joined to the canonical workspace root and
    /// normalized, it lies under that root; `canonical_root` is `None` when
    /// the root could not be canonicalized.
    pub fn ensure_in_workspace(&self, canonical_root: Option<&str>, candidate: &str) -> (r: Result<
        (),
        ToolError,
    >)
        ensures
            match workspace_refusal(opt_view(canonical_root), candidate@) {
                None => r is Ok,
                Some(f) => r matches Err(e) && refused_with(e, f, self@),
            },
            !(r matches Err(ToolError::SensitivePath)),
    {
        match canonical_root {
            None => Err(ToolError::CanonicalizeFailed { root: self.root.clone() }),
            Some(root) => {
                let joined = join_paths(root, candidate);
                let normalized = normalize_path(joined.as_str());
                if !path_has_prefix(normalized.as_str(), root) {
                    return Err(ToolError::OutsideWorkspace);
                }
                if is_sensitive_outside_workspace(normalized.as_str(), root) {
                    return Err(ToolError::SensitivePath);
                }
                Ok(())
            },
        }
    }

    /// Checks `relative_path` against the workspace and gives the path of the
    /// file to read.
    pub fn read_file(&self, relative_path: &str, canonical_root: Option<&str>) -> (r: Result<
        String,
        ToolError,
    >)
        ensures
            match workspace_refusal(opt_view(canonical_root), relative_path@) {
                None => r matches Ok(p) && p@ == join_path(self@, relative_path@),
                Some(f) => r matches Err(e) && refused_with(e, f, self@),
            },
    {
        self.ensure_in_workspace(canonical_root, relative_path)?;
        Ok(self.target_path(relative_path))
    }

    /// Decides whether `content` may be written to the new file
    /// `relative_path`: only with approval, inside the workspace, and where no
    /// file is (`target_exists` tells whether `target_path` names one). Gives
    /// the write to perform.
    pub fn write_new_file(
        &self,
        relative_path: &str,
        content: &str,
        approved: bool,
        canonical_root: Option<&str>,
        target_exists: bool,
    ) -> (r: Result<FileWrite, ToolError>)
        ensures
            !approved ==> r matches Err(ToolError::NewFileNeedsApproval),
            approved ==> match workspace_refusal(opt_view(canonical_root), relative_path@) {
                Some(f) => r matches Err(e) && refused_with(e, f, self@),
                None => if target_exists {
                    r matches Err(ToolError::FileExists)
                } else {
                    r matches Ok(w) && w.path@ == join_path(self@, relative_path@) && w.content@
                        == content@
                },
            },
    {
        if !approved {
            return Err(ToolError::NewFileNeedsApproval);
        }
        self.ensure_in_workspace(canonical_root, relative_path)?;
        if target_exists {
            return Err(ToolError::FileExists);
        }
        Ok(FileWrite { path: self.target_path(relative_path), content: content.to_owned() })
    }

    /// Decides whether `proposal` may be saved for later application: only
    /// with approval, inside the workspace, and with both unified-diff
    /// headers. Gives the file to save it in: the target's path with the
    /// extension `patch.pending`.
    pub fn apply_patch(
        &self,
        proposal: &PatchProposal,
        approved: bool,
        canonical_root: Option<&str>,
    ) -> (r: Result<PatchWrite, ToolError>)
        ensures
            !approved ==> r matches Err(ToolError::PatchNeedsApproval),
            approved ==> match workspace_refusal(
                opt_view(canonical_root),
                proposal.relative_path@,
            ) {
                Some(f) => r matches Err(e) && refused_with(e, f, self@),
                None => if !(contains(proposal.diff@, "--- "@) && contains(
                    proposal.diff@,
                    "+++ "@,
                )) {
                    r matches Err(ToolError::IncompleteDiff)
                } else {
                    r matches Ok(w) && w.target@ == join_path(self@, proposal.relative_path@)
                        && w.pending_path@ == with_extension(w.target@, "patch.pending"@)
                        && w.diff@ == proposal.diff@
                },
            },
    {
        if !approved {
            return Err(ToolError::PatchNeedsApproval);
        }
        self.ensure_in_workspace(canonical_root, proposal.relative_path.as_str())?;
        if !str_contains(proposal.diff.as_str(), "--- ") || !str_contains(
            proposal.diff.as_str(),
            "+++ ",
        ) {
            return Err(ToolError::IncompleteDiff);
        }
        let target = self.target_path(proposal.relative_path.as_str());
        proof {
            reveal_strlit("patch.pending");
        }
        let pending_path = path_with_extension(target.as_str(), "patch.pending");
        Ok(PatchWrite { target, pending_path, diff: proposal.diff.clone() })
    }
}

/// A proposal for `relative_path` made of `diff`, refused when the diff is
/// empty or white space alone.
pub fn parse_unified_diff(relative_path: String, diff: &str) -> (r: Result<PatchProposal, ToolError>)
    ensures
        trim(diff@).len() == 0 ==> r matches Err(ToolError::EmptyDiff),
        trim(diff@).len() != 0 ==> (r matches Ok(p) && p.relative_path@ == relative_path@
            && p.diff@ == diff@),
{
    if is_blank(diff) {
        return Err(ToolError::EmptyDiff);
    }
    Ok(PatchProposal { relative_path, diff: diff.to_owned() })
}

/// A relative path without a `..` component always stays inside the
/// workspace: with a canonical root (absolute and in normal form), the
/// guard accepts it.
pub proof fn lemma_relative_paths_stay_inside(root: Seq<char>, candidate: Seq<char>)
    requires
        is_absolute(root),
        normalize(root) == root,
        !is_absolute(candidate),
        forall|i: int| 0 <= i < components(candidate).len() ==> !(#[trigger] components(candidate)[i] is Parent),
    ensures
        workspace_refusal(Some(root), candidate) is None,
{
    let joined = join_path(root, candidate);
    let cs1 = components(root);
    let cs2 = body_components(candidate);
    lemma_join_relative(root, candidate);
    lemma_relative_body(candidate);
    lemma_body_names(candidate);
    assert forall|i: int| 0 <= i < cs2.len() implies !(#[trigger] cs2[i] is Parent) && !(
    cs2[i] is Root) by {
        if components(candidate) != cs2 {
            assert(components(candidate)[i + 1] == cs2[i]);
        }
    }
    lemma_canonical_root(root);
    let rs = norm_fold(cs1).1;
    lemma_fold_normals(seq![PathComponent::Root], rs);
    assert(norm_fold(seq![PathComponent::Root]) == (true, Seq::<Seq<char>>::empty())) by {
        assert(seq![PathComponent::Root].drop_last() =~= Seq::<PathComponent>::empty());
    }
    assert(Seq::<Seq<char>>::empty() + rs =~= rs);
    lemma_fold_extends(cs1, cs2);
    let st = norm_fold(cs1 + cs2);
    assert(st.0);
    lemma_normal_names(joined);
    lemma_components_of_render(true, st.1);
    let n = normalize(joined);
    assert(components(n) == seq![PathComponent::Root] + normals(st.1));
    assert(components(n).subrange(0, cs1.len() as int) =~= cs1) by {
        assert forall|i: int| 0 <= i < cs1.len() implies components(n)[i] == cs1[i] by {
            if i > 0 {
                assert(st.1[i - 1] == rs[i - 1]);
            }
        }
    }
    assert(path_starts_with(n, root));
}

} // verus!
