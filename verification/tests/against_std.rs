use codexu::desktop::persisted_workspace;
use codexu::file_tool::{PatchProposal, WorkspaceGuard};
use codexu::git_tool::ripgrep_lines;
use codexu::llm_provider::{preferred_auth_mode, request_timeout_secs, sanitize_model_output, AuthMode};
use codexu::paths::{join_paths, normalize_path, path_has_prefix, path_with_extension};
use std::path::{Component, Path, PathBuf};

const PATHS: &[&str] = &[
    "", "/", ".", "..", "./", "../", "a", "a/", "/a", "a/./b", "//a//b//", "/./a", "a/..", "../..",
    "/..", "./..", "a/b/../../..", ".hidden/x", "...", "a/.../b", "/a/b/.", "./.", "a/./", "/a/../b/./c/",
    "x/../../y", "/tmp/ws/src/../lib.rs", "/tmp/wsx", "/tmp/ws", "tmp/ws", "/tmp//ws/", "a b/c",
];

fn std_normalize(path: &Path) -> PathBuf {
    let mut normalized = PathBuf::new();
    for component in path.components() {
        match component {
            Component::CurDir => {}
            Component::ParentDir => {
                normalized.pop();
            }
            other => normalized.push(other.as_os_str()),
        }
    }
    normalized
}

#[test]
fn normalization_matches_std_path() {
    for p in PATHS {
        assert_eq!(normalize_path(p), std_normalize(Path::new(p)).to_string_lossy(), "{p:?}");
    }
}

#[test]
fn joins_and_prefixes_match_std_path() {
    for a in PATHS {
        for b in PATHS {
            assert_eq!(join_paths(a, b), Path::new(a).join(b).to_string_lossy(), "{a:?} {b:?}");
            assert_eq!(path_has_prefix(a, b), Path::new(a).starts_with(b), "{a:?} {b:?}");
        }
    }
}

fn std_guard(root: &str, candidate: &str) -> bool {
    let root = PathBuf::from(root);
    let candidate = Path::new(candidate);
    let abs = if candidate.is_absolute() { candidate.to_path_buf() } else { root.join(candidate) };
    std_normalize(&abs).starts_with(&root)
}

#[test]
fn guard_matches_the_std_path_algorithm() {
    let root = "/tmp/ws";
    let guard = WorkspaceGuard::new(root.to_string());
    for c in PATHS {
        assert_eq!(guard.ensure_in_workspace(Some(root), c).is_ok(), std_guard(root, c), "{c:?}");
    }
}

#[test]
fn pending_patch_path_matches_std_with_extension() {
    let guard = WorkspaceGuard::new("/tmp/ws".to_string());
    for rel in ["a.rs", "a.b.c", ".bashrc", "dir/", "noext", "x/y.tar.gz"] {
        let proposal = PatchProposal { relative_path: rel.to_string(), diff: "--- a\n+++ b\n".to_string() };
        let w = guard.apply_patch(&proposal, true, Some("/tmp/ws")).unwrap();
        let expected = Path::new("/tmp/ws").join(rel).with_extension("patch.pending");
        assert_eq!(w.pending_path, expected.to_string_lossy(), "{rel:?}");
    }
}

const TEXTS: &[&str] = &[
    "", "a", "a\n", "\n", "a\r\nb", "a\rb\r", "a\n\nb\n\n", "\r\n", "x\r", " \u{a0}a\u{2003} ", "\u{3000}",
    "line one\r\nline two\n\u{85}three\u{85}",
];

#[test]
fn lines_match_std_lines() {
    for t in TEXTS {
        let ours = ripgrep_lines(true, Some(0), t.as_bytes(), b"").unwrap();
        let std: Vec<String> = t.lines().map(str::to_string).collect();
        assert_eq!(ours, std, "{t:?}");
    }
}

#[test]
fn trimming_matches_std_trim() {
    for t in TEXTS {
        let expected = if t.trim().is_empty() { None } else { Some(t.trim().to_string()) };
        assert_eq!(persisted_workspace(t), expected, "{t:?}");
    }
}

fn std_sanitize(raw: &str) -> String {
    let markers = ["<|im_start|>", "<|im_end|>", "<|end|>", "_end|>"];
    raw.lines()
        .map(str::trim)
        .filter(|line| !line.is_empty())
        .map(|line| markers.iter().fold(line.to_string(), |acc, marker| acc.replace(marker, "")))
        .map(|line| line.trim().to_string())
        .filter(|line| !line.is_empty())
        .collect::<Vec<_>>()
        .join("\n")
}

#[test]
fn sanitizing_matches_the_iterator_pipeline() {
    let samples = [
        "<|im_start|>assistant\nHello<|im_end|>\n",
        "<|im_<|end|>end|> x",
        "__end|>end|>",
        "  a  \n\n b<|end|>c \r\n<|im_start|><|im_end|>",
        "<|im_start|>",
        "plain",
    ];
    for s in samples.iter().chain(TEXTS.iter()) {
        assert_eq!(sanitize_model_output(s), std_sanitize(s), "{s:?}");
    }
}

#[test]
fn timeouts_match_std_parse() {
    for v in ["30", "+45", "-45", "", " 60 ", "0x10", "1_000", "18446744073709551616", "٣٠", "100"] {
        let expected = v.trim().parse::<u64>().ok().filter(|n| *n >= 30).unwrap_or(180);
        assert_eq!(request_timeout_secs(Some(v)), expected, "{v:?}");
    }
}

#[test]
fn auth_mode_names_ignore_ascii_case_only() {
    for (v, expected) in [
        ("Api-Key", AuthMode::ApiKey),
        ("BEARER", AuthMode::Bearer),
        ("bearer ", AuthMode::Auto),
        ("beareR", AuthMode::Bearer),
        ("bearér", AuthMode::Auto),
    ] {
        assert_eq!(preferred_auth_mode(Some(v)), expected, "{v:?}");
        assert_eq!(v.eq_ignore_ascii_case("api-key") || v.eq_ignore_ascii_case("bearer"), expected != AuthMode::Auto);
    }
}

#[test]
fn with_extension_matches_std() {
    let paths = [
        "", ".", "..", "/", "a", "a.rs", "a.b.c", ".bashrc", ".bashrc.x", "a/.", "a/..", "x/y/", "a.b/.", "a.rs/",
        "/tmp/ws/a.rs", "dir//", "x/.hidden", "a..", "a.", "..a", "x/y.tar.gz", "/..", "x/..a", "..a/", "a/..bc/.",
        "...", "..a.b", "..", "./a", ".a.", "a/./", "a.bc//",
    ];
    for p in paths {
        for ext in ["patch.pending", "", "rs"] {
            let expected = Path::new(p).with_extension(ext);
            assert_eq!(path_with_extension(p, ext), expected.to_string_lossy(), "{p:?} {ext:?}");
        }
    }
}
