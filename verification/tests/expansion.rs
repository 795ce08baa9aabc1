//! Expansions against a small simulated host.

use worktree_permissions::findings::{
    Canonical, Findings, LinkedWorktreeGitDirs, Question, ReadAccess,
};
use worktree_permissions::path::AbsolutePath;
use worktree_permissions::permissions::{
    FileSystemAccessMode, FileSystemPath, FileSystemSandboxEntry, FileSystemSandboxKind,
    FileSystemSandboxPolicy, FileSystemSpecialPath, PathUri, PermissionProfile,
};
use worktree_permissions::worktree::{with_worktree_git_write_permissions, Expansion};

#[derive(Debug, Clone, Copy, PartialEq, Eq)]
enum Enforcement {
    Managed,
}

#[derive(Debug, Clone, Copy, PartialEq, Eq)]
enum Network {
    Restricted,
}

type Profile = PermissionProfile<Enforcement, Network>;

const CHECKOUT: &str = "/work/linked with spaces";
const COMMON: &str = "/work/primary/.git";
const ADMIN: &str = "/work/primary/.git/worktrees/linked";

fn path(text: &str) -> AbsolutePath {
    let names = text
        .split('/')
        .filter(|name| !name.is_empty() && *name != ".")
        .map(|name| name.as_bytes().to_vec())
        .collect();
    AbsolutePath::new(b"/".to_vec(), names)
}

fn text(path: &AbsolutePath) -> String {
    let names: Vec<String> = path
        .names
        .iter()
        .map(|name| String::from_utf8(name.clone()).unwrap())
        .collect();
    format!("/{}", names.join("/"))
}

fn rule(place: &str, access: FileSystemAccessMode) -> FileSystemSandboxEntry {
    FileSystemSandboxEntry::new(native(place), access)
}

fn native(place: &str) -> FileSystemPath {
    FileSystemPath::Path {
        path: PathUri::Native(path(place)),
    }
}

fn glob(pattern: &str) -> FileSystemPath {
    FileSystemPath::GlobPattern {
        pattern: pattern.as_bytes().to_vec(),
    }
}

fn everything() -> FileSystemPath {
    FileSystemPath::Special {
        value: FileSystemSpecialPath::Root,
    }
}

fn profile(entries: Vec<FileSystemSandboxEntry>) -> Profile {
    PermissionProfile {
        enforcement: Enforcement::Managed,
        file_system: FileSystemSandboxPolicy::restricted(entries),
        network: Network::Restricted,
    }
}

fn copy(profile: &Profile) -> Profile {
    PermissionProfile {
        enforcement: profile.enforcement,
        file_system: profile.file_system.copy(),
        network: profile.network,
    }
}

fn same(a: &Profile, b: &Profile) -> bool {
    a.enforcement == b.enforcement
        && a.network == b.network
        && a.file_system.equals(&b.file_system)
}

/// The access of the most specific rule; among equals, a denial wins over a grant, and a grant
/// over a mere read rule.
fn effective(policy: &FileSystemSandboxPolicy, target: &AbsolutePath) -> FileSystemAccessMode {
    let weight = |access: FileSystemAccessMode| match access {
        FileSystemAccessMode::Read => 0,
        FileSystemAccessMode::Write => 1,
        FileSystemAccessMode::Deny => 2,
    };
    let mut best: Option<(usize, i32, FileSystemAccessMode)> = None;
    for entry in &policy.entries {
        let depth: usize = match &entry.path {
            FileSystemPath::Path {
                path: PathUri::Native(place),
            } if target.starts_with(place) => place.names.len() + 1,
            FileSystemPath::Special {
                value: FileSystemSpecialPath::Root,
            } => 0,
            _ => continue,
        };
        let rank = (depth, weight(entry.access), entry.access);
        if best.is_none() || (rank.0, rank.1) > (best.unwrap().0, best.unwrap().1) {
            best = Some(rank);
        }
    }
    best.map(|(_, _, access)| access)
        .unwrap_or(FileSystemAccessMode::Deny)
}

struct Host {
    cwd: String,
    existing: Vec<String>,
    symlinks: Vec<(String, String)>,
    relative: Vec<String>,
    worktrees: Vec<(String, String, String)>,
    unreadable_rules: bool,
    asked: Vec<String>,
}

impl Host {
    fn new() -> Host {
        let existing = [
            "/",
            "/work",
            CHECKOUT,
            "/work/linked with spaces/.git",
            "/work/linked with spaces/nested",
            "/work/linked with spaces/private",
            "/work/primary",
            COMMON,
            "/work/primary/.git/worktrees",
            ADMIN,
        ];
        Host {
            cwd: CHECKOUT.to_string(),
            existing: existing.iter().map(|place| place.to_string()).collect(),
            symlinks: vec![],
            relative: vec![],
            worktrees: vec![(CHECKOUT.to_string(), ADMIN.to_string(), COMMON.to_string())],
            unreadable_rules: false,
            asked: vec![],
        }
    }

    fn canonical(&self, place: &AbsolutePath) -> Canonical {
        let place = text(place);
        if self.relative.contains(&place) {
            return Canonical::NotAbsolute;
        }
        for (link, target) in &self.symlinks {
            if *link == place {
                return Canonical::Resolved(path(target));
            }
        }
        if self.existing.contains(&place) {
            Canonical::Resolved(path(&place))
        } else {
            Canonical::Missing
        }
    }

    fn answer(&mut self, question: Question, findings: &mut Findings) {
        self.asked.push(format!("{question:?}"));
        match question {
            Question::CanWrite { policy, path } => {
                let writable = effective(&policy, &path) == FileSystemAccessMode::Write;
                findings.record_can_write(policy, path, writable);
            }
            Question::ReadAccess { policy, path } => {
                let access = if self.unreadable_rules {
                    ReadAccess::Unknown
                } else if effective(&policy, &path) == FileSystemAccessMode::Deny {
                    ReadAccess::Denied
                } else {
                    ReadAccess::Allowed
                };
                findings.record_read_access(policy, path, access);
            }
            Question::LinkedWorktreeGitDirs { checkout } => {
                let mut dirs = None;
                for (root, git_dir, common_dir) in &self.worktrees {
                    if checkout.starts_with(&path(root)) {
                        dirs = Some(LinkedWorktreeGitDirs {
                            git_dir: path(git_dir),
                            common_dir: path(common_dir),
                        });
                    }
                }
                findings.record_git_dirs(checkout, dirs);
            }
            Question::UnreadableGlobs { policy } => {
                let mut patterns = vec![];
                for entry in &policy.entries {
                    if let FileSystemPath::GlobPattern { pattern } = &entry.path {
                        let pattern = String::from_utf8(pattern.clone()).unwrap();
                        if pattern.starts_with('/') {
                            patterns.push(path(&pattern));
                        } else {
                            patterns.push(path(&format!("{}/{}", self.cwd, pattern)));
                        }
                    }
                }
                findings.record_globs(policy, patterns);
            }
            Question::Canonicalize { path } => {
                let canonical = self.canonical(&path);
                findings.record_canonical(path, canonical);
            }
        }
    }

    fn expand(&mut self, permissions: Profile) -> Profile {
        let mut findings = Findings::new();
        let mut permissions = permissions;
        loop {
            match with_worktree_git_write_permissions(permissions, &findings) {
                Expansion::Done { permissions } => return permissions,
                Expansion::Ask {
                    permissions: unchanged,
                    question,
                } => {
                    self.answer(question, &mut findings);
                    permissions = unchanged;
                }
            }
        }
    }
}

struct Fixture {
    host: Host,
    profile: Profile,
}

impl Fixture {
    fn new() -> Fixture {
        Fixture {
            host: Host::new(),
            profile: profile(vec![
                FileSystemSandboxEntry::new(everything(), FileSystemAccessMode::Read),
                rule(CHECKOUT, FileSystemAccessMode::Write),
                rule(
                    "/work/linked with spaces/.git",
                    FileSystemAccessMode::Write,
                ),
            ]),
        }
    }

    fn restricted(&self, place: FileSystemPath, access: FileSystemAccessMode) -> Profile {
        let mut restricted = copy(&self.profile);
        restricted
            .file_system
            .entries
            .push(FileSystemSandboxEntry::new(place, access));
        restricted
    }

    fn writable(&self, profile: &Profile) -> Vec<bool> {
        [
            "/work/primary/.git/worktrees/linked/index.lock",
            "/work/primary/.git/objects/new",
            "/work/primary/.git/refs/heads/new",
            "/work/primary/source.txt",
        ]
        .iter()
        .map(|place| {
            effective(&profile.file_system, &path(place)) == FileSystemAccessMode::Write
        })
        .collect()
    }

    fn stays(&mut self, profile: &Profile) {
        let expanded = self.host.expand(copy(profile));
        assert!(same(&expanded, profile), "{expanded:?}");
    }
}

#[test]
fn explicit_grant_expands_from_nested_cwd_without_authorizing_source_checkout() {
    let mut f = Fixture::new();
    assert_eq!(f.writable(&f.profile), vec![false; 4]);
    f.host.cwd = format!("{CHECKOUT}/nested");
    let expanded = f.host.expand(copy(&f.profile));
    assert_eq!(f.writable(&expanded), vec![true, true, true, false]);
    f.host.cwd = CHECKOUT.to_string();
    f.stays(&expanded);
    let mut revoked = copy(&f.profile);
    let granted = native("/work/linked with spaces/.git");
    revoked
        .file_system
        .entries
        .retain(|entry| !entry.path.equals(&granted));
    assert_eq!(revoked.file_system.entries.len(), 2);
    let expanded = f.host.expand(revoked);
    assert_eq!(f.writable(&expanded), vec![false; 4]);
}

#[test]
fn restrictions_on_logical_and_concrete_git_paths_survive_expansion() {
    let mut f = Fixture::new();
    for (place, access, expected) in [
        (
            "/work/linked with spaces/.git/index.lock",
            FileSystemAccessMode::Read,
            vec![false, true, true, false],
        ),
        (
            "/work/linked with spaces/.git/objects",
            FileSystemAccessMode::Deny,
            vec![true, false, true, false],
        ),
        (
            "/work/primary/.git/refs",
            FileSystemAccessMode::Read,
            vec![true, true, false, false],
        ),
    ] {
        let profile = f.restricted(native(place), access);
        let expanded = f.host.expand(profile);
        assert_eq!(f.writable(&expanded), expected);
        if access == FileSystemAccessMode::Deny {
            let object = path("/work/primary/.git/objects/new");
            assert_eq!(
                effective(&expanded.file_system, &object),
                FileSystemAccessMode::Deny
            );
        }
    }
}

#[test]
fn destination_ancestor_restrictions_and_ambiguous_projections_prevent_expansion() {
    let mut f = Fixture::new();
    for place in [
        COMMON,
        ADMIN,
        "/work/primary",
        "/work/linked with spaces/.git/worktrees",
    ] {
        for access in [FileSystemAccessMode::Read, FileSystemAccessMode::Deny] {
            let profile = f.restricted(native(place), access);
            f.stays(&profile);
        }
    }
    let denied = f.restricted(
        native("/work/linked with spaces/.git"),
        FileSystemAccessMode::Deny,
    );
    f.stays(&denied);
}

#[test]
fn overlapping_globs_prevent_expansion_and_unrelated_globs_allow_it() {
    let mut f = Fixture::new();
    for pattern in [format!("{CHECKOUT}/.git/objects/**"), "**/secret".into()] {
        let profile = f.restricted(glob(&pattern), FileSystemAccessMode::Deny);
        f.stays(&profile);
    }
    let profile = f.restricted(
        glob(&format!("{CHECKOUT}/private/id_*")),
        FileSystemAccessMode::Deny,
    );
    let expanded = f.host.expand(profile);
    assert_eq!(f.writable(&expanded), vec![true, true, true, false]);
}

#[test]
fn resolution_revalidates_metadata_on_every_launch() {
    let mut f = Fixture::new();
    let expanded = f.host.expand(copy(&f.profile));
    assert_eq!(f.writable(&expanded), vec![true, true, true, false]);
    f.host.worktrees.clear();
    let profile = copy(&f.profile);
    f.stays(&profile);
}

#[test]
fn an_accepted_grant_adds_exactly_the_two_directories() {
    let mut f = Fixture::new();
    let expanded = f.host.expand(copy(&f.profile));
    let mut expected = copy(&f.profile);
    expected
        .file_system
        .entries
        .push(rule(ADMIN, FileSystemAccessMode::Write));
    expected
        .file_system
        .entries
        .push(rule(COMMON, FileSystemAccessMode::Write));
    assert!(same(&expanded, &expected), "{expanded:?}");
}

#[test]
fn a_restriction_in_dot_git_is_carried_to_both_directories_in_order() {
    let mut f = Fixture::new();
    let profile = f.restricted(
        native("/work/linked with spaces/.git/hooks/pre-commit"),
        FileSystemAccessMode::Deny,
    );
    let expanded = f.host.expand(copy(&profile));
    let mut expected = copy(&profile);
    for entry in [
        rule(ADMIN, FileSystemAccessMode::Write),
        rule(COMMON, FileSystemAccessMode::Write),
        rule(
            "/work/primary/.git/worktrees/linked/hooks/pre-commit",
            FileSystemAccessMode::Deny,
        ),
        rule(
            "/work/primary/.git/hooks/pre-commit",
            FileSystemAccessMode::Deny,
        ),
    ] {
        expected.file_system.entries.push(entry);
    }
    assert!(same(&expanded, &expected), "{expanded:?}");
}

#[test]
fn rules_that_stand_already_are_not_added_again() {
    let mut f = Fixture::new();
    let profile = f.restricted(native(COMMON), FileSystemAccessMode::Write);
    let expanded = f.host.expand(copy(&profile));
    assert_eq!(expanded.file_system.entries.len(), 5);
    assert!(expanded.file_system.entries[4].equals(&rule(ADMIN, FileSystemAccessMode::Write)));
}

#[test]
fn an_unconfined_profile_stays_and_nothing_is_asked() {
    let mut f = Fixture::new();
    let mut open = copy(&f.profile);
    open.file_system.kind = FileSystemSandboxKind::Unrestricted;
    f.stays(&open);
    assert!(f.host.asked.is_empty());
}

#[test]
fn without_an_explicit_grant_nothing_is_asked() {
    let mut f = Fixture::new();
    let profile = profile(vec![
        rule(CHECKOUT, FileSystemAccessMode::Write),
        rule("/work/linked with spaces/.git", FileSystemAccessMode::Read),
        rule("/work/linked with spaces/.github", FileSystemAccessMode::Write),
        rule("/", FileSystemAccessMode::Write),
        FileSystemSandboxEntry::new(
            FileSystemPath::Path {
                path: PathUri::Foreign(b"file://elsewhere/.git".to_vec()),
            },
            FileSystemAccessMode::Write,
        ),
        FileSystemSandboxEntry::new(glob("/work/*/.git"), FileSystemAccessMode::Write),
    ]);
    f.stays(&profile);
    assert!(f.host.asked.is_empty());
}

#[test]
fn no_question_is_put_twice() {
    let mut f = Fixture::new();
    let profile = f.restricted(
        native("/work/linked with spaces/.git/hooks"),
        FileSystemAccessMode::Read,
    );
    f.host.expand(profile);
    let mut distinct = f.host.asked.clone();
    distinct.sort();
    distinct.dedup();
    assert!(distinct.len() > 5);
    assert_eq!(distinct.len(), f.host.asked.len());
}

#[test]
fn an_ineffective_grant_brings_nothing() {
    let f = Fixture::new();
    let mut findings = Findings::new();
    let policy = f.profile.file_system.copy();
    findings.record_can_write(policy, path("/work/linked with spaces/.git"), false);
    match with_worktree_git_write_permissions(copy(&f.profile), &findings) {
        Expansion::Done { permissions } => assert!(same(&permissions, &f.profile)),
        Expansion::Ask { question, .. } => panic!("{question:?}"),
    }
}

#[test]
fn rules_that_cannot_be_evaluated_prevent_expansion() {
    let mut f = Fixture::new();
    f.host.unreadable_rules = true;
    let profile = copy(&f.profile);
    f.stays(&profile);
}

#[test]
fn an_unresolvable_dot_git_prevents_expansion() {
    let mut f = Fixture::new();
    f.host
        .existing
        .retain(|place| place != "/work/linked with spaces/.git");
    let profile = copy(&f.profile);
    f.stays(&profile);
}

#[test]
fn a_role_without_a_path_prevents_expansion_and_general_roles_do_not() {
    let mut f = Fixture::new();
    let unmaterialized = f.restricted(
        FileSystemPath::Special {
            value: FileSystemSpecialPath::Unmaterialized {
                name: b"tmpdir".to_vec(),
            },
        },
        FileSystemAccessMode::Read,
    );
    f.stays(&unmaterialized);
    let minimal = f.restricted(
        FileSystemPath::Special {
            value: FileSystemSpecialPath::Minimal,
        },
        FileSystemAccessMode::Read,
    );
    let expanded = f.host.expand(minimal);
    assert_eq!(expanded.file_system.entries.len(), 6);
}

#[test]
fn a_foreign_restriction_prevents_expansion() {
    let mut f = Fixture::new();
    let foreign = f.restricted(
        FileSystemPath::Path {
            path: PathUri::Foreign(b"file://elsewhere/data".to_vec()),
        },
        FileSystemAccessMode::Read,
    );
    f.stays(&foreign);
}

#[test]
fn a_skippable_default_on_dot_git_gives_way() {
    let mut f = Fixture::new();
    let mut legacy = copy(&f.profile);
    legacy.file_system.entries.push(FileSystemSandboxEntry {
        path: native("/work/linked with spaces/.git"),
        access: FileSystemAccessMode::Read,
        skips_missing_path: true,
    });
    let expanded = f.host.expand(copy(&legacy));
    assert_eq!(expanded.file_system.entries.len(), 6);
    // The same rule as a firm one covers the destinations when it is carried over.
    let firm = f.restricted(
        native("/work/linked with spaces/.git"),
        FileSystemAccessMode::Read,
    );
    f.stays(&firm);
}

#[test]
fn a_grant_below_a_carried_restriction_prevents_expansion() {
    let mut f = Fixture::new();
    let mut conflicting = f.restricted(
        native("/work/linked with spaces/.git/objects"),
        FileSystemAccessMode::Read,
    );
    conflicting
        .file_system
        .entries
        .push(rule("/work/primary/.git/objects/pack", FileSystemAccessMode::Write));
    f.stays(&conflicting);
    let mut foreign = f.restricted(
        native("/work/linked with spaces/.git/objects"),
        FileSystemAccessMode::Read,
    );
    foreign.file_system.entries.push(FileSystemSandboxEntry::new(
        FileSystemPath::Path {
            path: PathUri::Foreign(b"file://elsewhere/data".to_vec()),
        },
        FileSystemAccessMode::Write,
    ));
    f.stays(&foreign);
}

#[test]
fn a_restriction_reached_through_a_link_is_carried_over() {
    let mut f = Fixture::new();
    f.host.symlinks.push((
        "/work/alias".to_string(),
        "/work/linked with spaces/.git".to_string(),
    ));
    let profile = f.restricted(native("/work/alias/hooks"), FileSystemAccessMode::Read);
    let expanded = f.host.expand(profile);
    assert!(expanded
        .file_system
        .contains(&rule("/work/primary/.git/hooks", FileSystemAccessMode::Read)));
}

#[test]
fn an_unanchored_pattern_prevents_expansion() {
    let mut f = Fixture::new();
    for pattern in ["/*/secret", "/secret"] {
        let profile = f.restricted(glob(pattern), FileSystemAccessMode::Deny);
        f.stays(&profile);
    }
    f.host.relative.push("/elsewhere".to_string());
    let profile = f.restricted(glob("/elsewhere/id_*"), FileSystemAccessMode::Deny);
    f.stays(&profile);
}

#[test]
fn each_worktree_is_expanded_and_its_restrictions_bind_the_next() {
    let mut f = Fixture::new();
    for place in [
        "/work/second",
        "/work/second/.git",
        "/work/primary/.git/worktrees/second",
    ] {
        f.host.existing.push(place.to_string());
    }
    f.host.worktrees.push((
        "/work/second".to_string(),
        "/work/primary/.git/worktrees/second".to_string(),
        COMMON.to_string(),
    ));
    let both = f.restricted(native("/work/second/.git"), FileSystemAccessMode::Write);
    let expanded = f.host.expand(copy(&both));
    assert_eq!(expanded.file_system.entries.len(), 7);
    assert!(expanded.file_system.entries[6].equals(&rule(
        "/work/primary/.git/worktrees/second",
        FileSystemAccessMode::Write
    )));
    // A restriction that the first grant carries over lies above the second directory.
    f.host.worktrees[1].1 = "/work/primary/.git/locked/second".to_string();
    let mut bound = copy(&both);
    bound.file_system.entries.push(rule(
        "/work/linked with spaces/.git/locked",
        FileSystemAccessMode::Read,
    ));
    let expanded = f.host.expand(copy(&bound));
    assert_eq!(expanded.file_system.entries.len(), 9);
    assert!(!expanded.file_system.contains(&rule(
        "/work/primary/.git/locked/second",
        FileSystemAccessMode::Write
    )));
}

#[test]
fn further_answers_leave_a_complete_expansion_alone() {
    let f = Fixture::new();
    let mut findings = Findings::new();
    let policy = f.profile.file_system.copy();
    findings.record_can_write(policy, path("/work/linked with spaces/.git"), false);
    findings.record_canonical(path("/work"), Canonical::Missing);
    findings.record_git_dirs(path(CHECKOUT), None);
    match with_worktree_git_write_permissions(copy(&f.profile), &findings) {
        Expansion::Done { permissions } => assert!(same(&permissions, &f.profile)),
        Expansion::Ask { question, .. } => panic!("{question:?}"),
    }
}

#[test]
fn an_added_grant_that_brings_something_new_is_expanded_on_repetition() {
    let mut f = Fixture::new();
    // The primary checkout is itself reported as a linked worktree of another repository.
    f.host.worktrees.push((
        "/work/primary".to_string(),
        "/other/.git/worktrees/primary".to_string(),
        "/other/.git".to_string(),
    ));
    let once = f.host.expand(copy(&f.profile));
    assert_eq!(once.file_system.entries.len(), 5);
    let twice = f.host.expand(copy(&once));
    assert_eq!(twice.file_system.entries.len(), 7);
    assert!(twice.file_system.entries[6]
        .equals(&rule("/other/.git", FileSystemAccessMode::Write)));
}
