//! Paths, patterns, findings and single decisions.

use worktree_permissions::findings::{
    Canonical, Findings, LinkedWorktreeGitDirs, Question, ReadAccess,
};
use worktree_permissions::glob::anchor_directory;
use worktree_permissions::path::AbsolutePath;
use worktree_permissions::permissions::{
    FileSystemAccessMode, FileSystemPath, FileSystemSandboxEntry, FileSystemSandboxPolicy,
    FileSystemSpecialPath, PathUri,
};
use worktree_permissions::worktree::{canonicalize_existing_prefix, worktree_grants};

fn path(text: &str) -> AbsolutePath {
    let names = text
        .split('/')
        .filter(|name| !name.is_empty())
        .map(|name| name.as_bytes().to_vec())
        .collect();
    AbsolutePath::new(b"/".to_vec(), names)
}

fn is(found: &Option<AbsolutePath>, expected: Option<&str>) -> bool {
    match (found, expected) {
        (Some(found), Some(expected)) => found.equals(&path(expected)),
        (None, None) => true,
        _ => false,
    }
}

#[test]
fn paths_compare_name_by_name() {
    assert!(path("/a/b").starts_with(&path("/a")));
    assert!(path("/a/b").starts_with(&path("/a/b")));
    assert!(path("/a").starts_with(&path("/")));
    assert!(!path("/ab").starts_with(&path("/a")));
    assert!(!path("/a").starts_with(&path("/a/b")));
    let other_root = AbsolutePath::new(b"C:\\".to_vec(), vec![b"a".to_vec()]);
    assert!(!other_root.starts_with(&path("/")));
    assert!(!other_root.equals(&path("/a")));
    assert!(other_root.equals(&other_root.copy()));
}

#[test]
fn parents_and_names() {
    assert!(is(&path("/a/b").parent(), Some("/a")));
    assert!(is(&path("/a").parent(), Some("/")));
    assert!(is(&path("/").parent(), None));
    assert_eq!(path("/a/.git").file_name(), Some(&b".git".to_vec()));
    assert_eq!(path("/").file_name(), None);
    assert!(path("/x").join_below(&path("/a/b/c"), 1).equals(&path("/x/b/c")));
    assert!(path("/x").join_below(&path("/a"), 1).equals(&path("/x")));
    assert!(path("/a/b/c").ancestor(2).equals(&path("/a/b")));
}

#[test]
fn patterns_are_anchored_above_their_literal_path() {
    for (pattern, expected) in [
        ("/a/b/id_*", Some("/a/b")),
        ("/a/b/**", Some("/a")),
        ("/a/b/**/c", Some("/a")),
        ("/a/b", Some("/a")),
        ("/a?", Some("/")),
        ("/*", None),
        ("/", None),
        ("/a/.*", Some("/")),
        ("/.[x]", None),
        ("/a/..{x}", Some("/a")),
        ("/a/b]c/d", Some("/a")),
        ("/a/b}c", Some("/a")),
    ] {
        assert!(is(&anchor_directory(&path(pattern)), expected), "{pattern}");
    }
    let verbatim = AbsolutePath::new(b"\\\\?\\C:\\".to_vec(), vec![b"a".to_vec(), b"b*".to_vec()]);
    assert!(anchor_directory(&verbatim).is_none());
}

#[test]
fn the_deepest_existing_ancestor_is_resolved() {
    let mut findings = Findings::new();
    findings.record_canonical(path("/a/b/c"), Canonical::Missing);
    findings.record_canonical(path("/a/b"), Canonical::Missing);
    findings.record_canonical(path("/a"), Canonical::Resolved(path("/real")));
    findings.record_canonical(path("/"), Canonical::Resolved(path("/")));
    let resolved = canonicalize_existing_prefix(&path("/a/b/c"), &findings).unwrap();
    assert!(is(&resolved, Some("/real/b/c")));
    findings.record_canonical(path("/a"), Canonical::NotAbsolute);
    let resolved = canonicalize_existing_prefix(&path("/a/b/c"), &findings).unwrap();
    assert!(is(&resolved, None));
    findings.record_canonical(path("/a"), Canonical::Missing);
    findings.record_canonical(path("/"), Canonical::Missing);
    let resolved = canonicalize_existing_prefix(&path("/a/b/c"), &findings).unwrap();
    assert!(is(&resolved, None));
}

#[test]
fn resolution_asks_from_the_path_upwards() {
    let mut findings = Findings::new();
    for expected in ["/a/b", "/a", "/"] {
        match canonicalize_existing_prefix(&path("/a/b"), &findings) {
            Err(Question::Canonicalize { path: asked }) => {
                assert!(asked.equals(&path(expected)));
                findings.record_canonical(asked, Canonical::Missing);
            }
            other => panic!("{other:?}"),
        }
    }
    assert!(is(
        &canonicalize_existing_prefix(&path("/a/b"), &findings).unwrap(),
        None
    ));
}

#[test]
fn a_later_answer_replaces_an_earlier_one() {
    let mut findings = Findings::new();
    let policy = FileSystemSandboxPolicy::restricted(vec![]);
    findings.record_can_write(policy.copy(), path("/a"), false);
    findings.record_can_write(policy.copy(), path("/b"), false);
    findings.record_can_write(policy.copy(), path("/a"), true);
    assert!(findings.ask_can_write(&policy, &path("/a")).unwrap());
    assert!(!findings.ask_can_write(&policy, &path("/b")).unwrap());
    assert!(matches!(
        findings.ask_can_write(&policy, &path("/c")),
        Err(Question::CanWrite { .. })
    ));
}

#[test]
fn grants_ask_in_the_order_of_the_decision() {
    let policy = FileSystemSandboxPolicy::restricted(vec![FileSystemSandboxEntry::at(
        path("/checkout/.git"),
        FileSystemAccessMode::Write,
    )]);
    let dot_git = path("/checkout/.git");
    let mut findings = Findings::new();
    assert!(matches!(
        worktree_grants(&policy, &dot_git, &findings),
        Err(Question::ReadAccess { .. })
    ));
    findings.record_read_access(policy.copy(), dot_git.copy(), ReadAccess::Allowed);
    match worktree_grants(&policy, &dot_git, &findings) {
        Err(Question::LinkedWorktreeGitDirs { checkout }) => {
            assert!(checkout.equals(&path("/checkout")));
        }
        other => panic!("{other:?}"),
    }
    findings.record_git_dirs(
        path("/checkout"),
        Some(LinkedWorktreeGitDirs {
            git_dir: path("/repo/.git/worktrees/w"),
            common_dir: path("/repo/.git"),
        }),
    );
    assert!(matches!(
        worktree_grants(&policy, &dot_git, &findings),
        Err(Question::Canonicalize { .. })
    ));
    findings.record_canonical(dot_git.copy(), Canonical::Resolved(dot_git.copy()));
    assert!(matches!(
        worktree_grants(&policy, &dot_git, &findings),
        Err(Question::UnreadableGlobs { .. })
    ));
    findings.record_globs(policy.copy(), vec![]);
    let granted = worktree_grants(&policy, &dot_git, &findings)
        .unwrap()
        .unwrap();
    assert_eq!(granted.len(), 2);
    assert!(granted[0].equals(&FileSystemSandboxEntry::at(
        path("/repo/.git/worktrees/w"),
        FileSystemAccessMode::Write
    )));
    assert!(granted[1].equals(&FileSystemSandboxEntry::at(
        path("/repo/.git"),
        FileSystemAccessMode::Write
    )));
    findings.record_read_access(policy.copy(), dot_git.copy(), ReadAccess::Denied);
    assert!(worktree_grants(&policy, &dot_git, &findings)
        .unwrap()
        .is_none());
}

#[test]
fn a_bare_root_is_no_dot_git() {
    let policy = FileSystemSandboxPolicy::restricted(vec![]);
    let mut findings = Findings::new();
    findings.record_read_access(policy.copy(), path("/"), ReadAccess::Allowed);
    assert!(worktree_grants(&policy, &path("/"), &findings)
        .unwrap()
        .is_none());
}

#[test]
fn rules_differ_by_place_access_and_kind() {
    let plain = FileSystemSandboxEntry::at(path("/a"), FileSystemAccessMode::Read);
    assert!(plain.equals(&plain.copy()));
    assert!(!plain.equals(&FileSystemSandboxEntry::at(
        path("/a"),
        FileSystemAccessMode::Deny
    )));
    let mut skippable = plain.copy();
    skippable.skips_missing_path = true;
    assert!(!plain.equals(&skippable));
    let places = [
        FileSystemPath::Path {
            path: PathUri::Native(path("/a")),
        },
        FileSystemPath::Path {
            path: PathUri::Foreign(b"/a".to_vec()),
        },
        FileSystemPath::GlobPattern {
            pattern: b"/a".to_vec(),
        },
        FileSystemPath::Special {
            value: FileSystemSpecialPath::Root,
        },
        FileSystemPath::Special {
            value: FileSystemSpecialPath::Minimal,
        },
        FileSystemPath::Special {
            value: FileSystemSpecialPath::Unmaterialized {
                name: b"/a".to_vec(),
            },
        },
    ];
    for i in 0..places.len() {
        for j in 0..places.len() {
            assert_eq!(places[i].equals(&places[j].copy()), i == j);
        }
    }
    assert!(FileSystemAccessMode::Write.can_write());
    assert!(!FileSystemAccessMode::Read.can_write());
    assert!(!FileSystemAccessMode::Deny.can_write());
}

#[test]
fn a_resolved_place_resolves_to_itself() {
    let mut findings = Findings::new();
    findings.record_canonical(path("/link/new/file"), Canonical::Missing);
    findings.record_canonical(path("/link/new"), Canonical::Missing);
    findings.record_canonical(path("/link"), Canonical::Resolved(path("/real/dir")));
    findings.record_canonical(path("/real/dir/new/file"), Canonical::Missing);
    findings.record_canonical(path("/real/dir/new"), Canonical::Missing);
    findings.record_canonical(path("/real/dir"), Canonical::Resolved(path("/real/dir")));
    let place = canonicalize_existing_prefix(&path("/link/new/file"), &findings)
        .unwrap()
        .unwrap();
    assert!(place.equals(&path("/real/dir/new/file")));
    let again = canonicalize_existing_prefix(&place, &findings).unwrap();
    assert!(is(&again, Some("/real/dir/new/file")));
}

#[test]
fn aliases_resolve_alike_with_a_suffix() {
    let mut findings = Findings::new();
    for base in ["/real/dir", "/link"] {
        findings.record_canonical(path(base), Canonical::Resolved(path("/real/dir")));
        findings.record_canonical(
            path(&format!("{base}/sub")),
            Canonical::Resolved(path("/elsewhere")),
        );
        findings.record_canonical(path(&format!("{base}/sub/new")), Canonical::Missing);
        findings.record_canonical(path(&format!("{base}/gone")), Canonical::Missing);
        let below = canonicalize_existing_prefix(&path(&format!("{base}/sub/new")), &findings);
        assert!(is(&below.unwrap(), Some("/elsewhere/new")));
        let gone = canonicalize_existing_prefix(&path(&format!("{base}/gone")), &findings);
        assert!(is(&gone.unwrap(), Some("/real/dir/gone")));
    }
}

#[test]
fn a_default_rule_on_dot_git_gives_way_wherever_it_stands_and_a_firm_one_does_not() {
    let dot_git = path("/checkout/.git");
    for position in 0..3 {
        for skippable in [true, false] {
            let mut entries = vec![
                FileSystemSandboxEntry::at(dot_git.copy(), FileSystemAccessMode::Write),
                FileSystemSandboxEntry::at(
                    path("/checkout/.git/hooks"),
                    FileSystemAccessMode::Read,
                ),
            ];
            let mut default =
                FileSystemSandboxEntry::at(path("/alias"), FileSystemAccessMode::Read);
            default.skips_missing_path = skippable;
            entries.insert(position, default);
            let policy = FileSystemSandboxPolicy::restricted(entries);
            let mut findings = Findings::new();
            findings.record_read_access(policy.copy(), dot_git.copy(), ReadAccess::Allowed);
            findings.record_git_dirs(
                path("/checkout"),
                Some(LinkedWorktreeGitDirs {
                    git_dir: path("/repo/.git/worktrees/w"),
                    common_dir: path("/repo/.git"),
                }),
            );
            findings.record_globs(policy.copy(), vec![]);
            for place in ["/checkout/.git", "/alias"] {
                findings.record_canonical(path(place), Canonical::Resolved(dot_git.copy()));
            }
            findings.record_canonical(path("/checkout/.git/hooks"), Canonical::Missing);
            let granted = worktree_grants(&policy, &dot_git, &findings).unwrap();
            match granted {
                Some(granted) => {
                    assert!(skippable);
                    assert_eq!(granted.len(), 4);
                    assert!(granted[3].equals(&FileSystemSandboxEntry::at(
                        path("/repo/.git/hooks"),
                        FileSystemAccessMode::Read
                    )));
                }
                None => assert!(!skippable),
            }
        }
    }
}
