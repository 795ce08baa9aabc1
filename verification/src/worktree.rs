//! Expands explicit `.git` write grants for linked worktrees.

use vstd::prelude::*;
use crate::findings::{
    outcome, Canonical, Findings, LinkedWorktreeGitDirs, Question, QuestionView, ReadAccess,
};
use crate::glob::anchor_directory;
use crate::model::{
    carried, carried_from, covers_destination, dot_git_name, existing_prefix, expand, expand_entry,
    expand_from, globs_interfere, granted_dot_git, grants, grants_for_dirs, overlap, projection,
    projections, resolve, resolve_uri, with_entries, write_granted_below,
};
use crate::path::AbsolutePath;
use crate::permissions::{
    plain_entry, EntryView, FileSystemAccessMode, FileSystemPath, FileSystemSandboxEntry,
    FileSystemSandboxKind, FileSystemSandboxPolicy, FileSystemSpecialPath, PathUri,
    PermissionProfile, PolicyView,
};

verus! {

/// Where an expansion stands.
#[derive(Debug)]
pub enum Expansion<E, N> {
    /// It hangs on a question to the host; the profile is given back as it was.
    Ask { permissions: PermissionProfile<E, N>, question: Question },
    /// It is complete.
    Done { permissions: PermissionProfile<E, N> },
}

/// Resolves the longest part of `path` that the host can resolve and keeps the rest as it is.
/// There is no result where nothing resolves, or where an ancestor is no absolute path.
pub fn canonicalize_existing_prefix(path: &AbsolutePath, findings: &Findings) -> (resolved: Result<
    Option<AbsolutePath>,
    Question,
>)
    ensures
        outcome(resolved) == resolve(findings@, path@),
{
    let mut depth: usize = path.names.len();
    loop
        invariant
            depth <= path.names.len(),
            existing_prefix(findings@, path@, depth as nat) == resolve(findings@, path@),
        decreases depth,
    {
        match findings.ask_canonical(&path.ancestor(depth)) {
            Err(question) => {
                return Err(question);
            },
            Ok(Canonical::NotAbsolute) => {
                return Ok(None);
            },
            Ok(Canonical::Resolved(target)) => {
                return Ok(Some(target.join_below(path, depth)));
            },
            Ok(Canonical::Missing) => {
                if depth == 0 {
                    return Ok(None);
                }
                depth -= 1;
            },
        }
    }
}

/// The place that an explicit rule names, resolved; a foreign place has none.
fn resolve_place(uri: &PathUri, findings: &Findings) -> (resolved: Result<
    Option<AbsolutePath>,
    Question,
>)
    ensures
        outcome(resolved) == resolve_uri(findings@, uri@),
{
    match uri {
        PathUri::Native(path) => canonicalize_existing_prefix(path, findings),
        PathUri::Foreign(_) => Ok(None),
    }
}

/// Whether one of two paths lies at or below the other.
fn paths_overlap(a: &AbsolutePath, b: &AbsolutePath) -> (result: bool)
    ensures
        result == overlap(a@, b@),
{
    a.starts_with(b) || b.starts_with(a)
}

/// Whether some destination lies at or below `path`.
fn path_covers_destination(dirs: &LinkedWorktreeGitDirs, path: &AbsolutePath) -> (covers: bool)
    ensures
        covers == covers_destination(dirs.deep_view(), path@),
{
    dirs.git_dir.starts_with(path) || dirs.common_dir.starts_with(path)
}

/// Whether a wildcard can overlap a translated tree: such a pattern cannot be relocated by
/// replacing a prefix of its text.
fn patterns_interfere(
    patterns: &Vec<AbsolutePath>,
    dot_git: &AbsolutePath,
    dirs: &LinkedWorktreeGitDirs,
    findings: &Findings,
) -> (interfere: Result<bool, Question>)
    ensures
        outcome(interfere) == globs_interfere(
            findings@,
            patterns.deep_view(),
            dot_git@,
            dirs.deep_view(),
            0,
        ),
{
    let mut i: usize = 0;
    while i < patterns.len()
        invariant
            i <= patterns.len(),
            globs_interfere(findings@, patterns.deep_view(), dot_git@, dirs.deep_view(), i as int)
                == globs_interfere(
                findings@,
                patterns.deep_view(),
                dot_git@,
                dirs.deep_view(),
                0,
            ),
        decreases patterns.len() - i,
    {
        assert(patterns.deep_view()[i as int] == patterns@[i as int]@);
        let directory = match anchor_directory(&patterns[i]) {
            None => {
                return Ok(true);
            },
            Some(directory) => directory,
        };
        let prefix = match canonicalize_existing_prefix(&directory, findings) {
            Err(question) => {
                return Err(question);
            },
            Ok(None) => {
                return Ok(true);
            },
            Ok(Some(prefix)) => prefix,
        };
        if paths_overlap(dot_git, &prefix) || paths_overlap(&dirs.git_dir, &prefix)
            || paths_overlap(&dirs.common_dir, &prefix) {
            return Ok(true);
        }
        i += 1;
    }
    Ok(false)
}

/// Whether some rule grants writing at or below `projected`, or at a place that cannot be
/// resolved.
fn policy_grants_below(
    policy: &FileSystemSandboxPolicy,
    projected: &AbsolutePath,
    findings: &Findings,
) -> (granted: Result<bool, Question>)
    ensures
        outcome(granted) == write_granted_below(findings@, policy@.entries, projected@, 0),
{
    let mut i: usize = 0;
    while i < policy.entries.len()
        invariant
            i <= policy.entries.len(),
            write_granted_below(findings@, policy@.entries, projected@, i as int)
                == write_granted_below(findings@, policy@.entries, projected@, 0),
        decreases policy.entries.len() - i,
    {
        let candidate = &policy.entries[i];
        assert(policy@.entries[i as int] == candidate@);
        if candidate.access.can_write() {
            if let FileSystemPath::Path { path } = &candidate.path {
                match resolve_place(path, findings) {
                    Err(question) => {
                        return Err(question);
                    },
                    Ok(None) => {
                        return Ok(true);
                    },
                    Ok(Some(place)) => {
                        if place.starts_with(projected) {
                            return Ok(true);
                        }
                    },
                }
            }
        }
        i += 1;
    }
    Ok(false)
}

/// The rule that carries a restriction at `place`, `skip` names deep, over to one destination.
fn project(
    policy: &FileSystemSandboxPolicy,
    dirs: &LinkedWorktreeGitDirs,
    destination: &AbsolutePath,
    place: &AbsolutePath,
    skip: usize,
    access: FileSystemAccessMode,
    findings: &Findings,
) -> (projected: Result<Option<FileSystemSandboxEntry>, Question>)
    requires
        skip <= place@.names.len(),
    ensures
        outcome(projected) == projection(
            findings@,
            policy@.entries,
            dirs.deep_view(),
            destination@,
            place@.names.skip(skip as int),
            access,
        ),
{
    let projected = destination.join_below(place, skip);
    if path_covers_destination(dirs, &projected) {
        return Ok(None);
    }
    match policy_grants_below(policy, &projected, findings) {
        Err(question) => Err(question),
        Ok(true) => Ok(None),
        Ok(false) => Ok(Some(FileSystemSandboxEntry::at(projected, access))),
    }
}

/// The rules that carry a restriction at `place`, `skip` names deep, over to both destinations.
fn project_to_both(
    policy: &FileSystemSandboxPolicy,
    dirs: &LinkedWorktreeGitDirs,
    place: &AbsolutePath,
    skip: usize,
    access: FileSystemAccessMode,
    findings: &Findings,
) -> (projected: Result<Option<Vec<FileSystemSandboxEntry>>, Question>)
    requires
        skip <= place@.names.len(),
    ensures
        outcome(projected) == projections(
            findings@,
            policy@.entries,
            dirs.deep_view(),
            place@.names.skip(skip as int),
            access,
        ),
{
    let first = match project(policy, dirs, &dirs.git_dir, place, skip, access, findings) {
        Err(question) => {
            return Err(question);
        },
        Ok(None) => {
            return Ok(None);
        },
        Ok(Some(first)) => first,
    };
    let second = match project(policy, dirs, &dirs.common_dir, place, skip, access, findings) {
        Err(question) => {
            return Err(question);
        },
        Ok(None) => {
            return Ok(None);
        },
        Ok(Some(second)) => second,
    };
    let ghost expected = seq![first@, second@];
    let mut both: Vec<FileSystemSandboxEntry> = Vec::new();
    both.push(first);
    both.push(second);
    assert(both.deep_view() =~= expected);
    Ok(Some(both))
}

/// What one rule adds to the grants.
fn carry_over(
    policy: &FileSystemSandboxPolicy,
    dot_git: &AbsolutePath,
    dirs: &LinkedWorktreeGitDirs,
    entry: &FileSystemSandboxEntry,
    findings: &Findings,
) -> (added: Result<Option<Vec<FileSystemSandboxEntry>>, Question>)
    ensures
        outcome(added) == carried(
            findings@,
            policy@.entries,
            dot_git@,
            dirs.deep_view(),
            entry@,
        ),
{
    let nothing: Vec<FileSystemSandboxEntry> = Vec::new();
    assert(nothing.deep_view() =~= seq![]);
    if entry.access.can_write() {
        return Ok(Some(nothing));
    }
    let place = match &entry.path {
        FileSystemPath::Path { path } => match resolve_place(path, findings) {
            Err(question) => {
                return Err(question);
            },
            Ok(None) => {
                return Ok(None);
            },
            Ok(Some(place)) => place,
        },
        FileSystemPath::GlobPattern { .. } => {
            return Ok(Some(nothing));
        },
        FileSystemPath::Special { value } => match value {
            FileSystemSpecialPath::Root | FileSystemSpecialPath::Minimal => {
                return Ok(Some(nothing));
            },
            // A role that stands for no particular path has no unambiguous native target.
            FileSystemSpecialPath::Unmaterialized { .. } => {
                return Ok(None);
            },
        },
    };
    // The explicit effective write grant supersedes the default rule on `.git`.
    if entry.skips_missing_path && place.equals(dot_git) {
        return Ok(Some(nothing));
    }
    if path_covers_destination(dirs, &place) {
        return Ok(None);
    }
    if place.starts_with(dot_git) {
        return project_to_both(policy, dirs, &place, dot_git.names.len(), entry.access, findings);
    }
    Ok(Some(nothing))
}

/// The rules that the write grant on `dot_git` stands for, where the policy leaves no doubt.
pub fn worktree_grants(
    policy: &FileSystemSandboxPolicy,
    dot_git: &AbsolutePath,
    findings: &Findings,
) -> (granted: Result<Option<Vec<FileSystemSandboxEntry>>, Question>)
    ensures
        outcome(granted) == grants(findings@, policy@, dot_git@),
{
    match findings.ask_read_access(policy, dot_git) {
        Err(question) => {
            return Err(question);
        },
        Ok(ReadAccess::Allowed) => {},
        Ok(_) => {
            return Ok(None);
        },
    }
    let checkout = match dot_git.parent() {
        None => {
            return Ok(None);
        },
        Some(checkout) => checkout,
    };
    let dirs = match findings.ask_git_dirs(&checkout) {
        Err(question) => {
            return Err(question);
        },
        Ok(None) => {
            return Ok(None);
        },
        Ok(Some(dirs)) => dirs,
    };
    let target = match findings.ask_canonical(dot_git) {
        Err(question) => {
            return Err(question);
        },
        Ok(Canonical::Resolved(target)) => target,
        Ok(_) => {
            return Ok(None);
        },
    };
    let patterns = match findings.ask_globs(policy) {
        Err(question) => {
            return Err(question);
        },
        Ok(patterns) => patterns,
    };
    match patterns_interfere(patterns, target, dirs, findings) {
        Err(question) => {
            return Err(question);
        },
        Ok(true) => {
            return Ok(None);
        },
        Ok(false) => {},
    }
    let ghost writes = seq![
        plain_entry(dirs.git_dir@, FileSystemAccessMode::Write),
        plain_entry(dirs.common_dir@, FileSystemAccessMode::Write),
    ];
    let mut granted: Vec<FileSystemSandboxEntry> = Vec::new();
    granted.push(FileSystemSandboxEntry::at(dirs.git_dir.copy(), FileSystemAccessMode::Write));
    granted.push(FileSystemSandboxEntry::at(dirs.common_dir.copy(), FileSystemAccessMode::Write));
    assert(granted.deep_view() =~= writes);
    let ghost all = carried_from(findings@, policy@.entries, target@, dirs.deep_view(), 0);
    let ghost mut restrictions = Seq::<EntryView>::empty();
    let mut i: usize = 0;
    while i < policy.entries.len()
        invariant
            i <= policy.entries.len(),
            grants(findings@, policy@, dot_git@) == grants_for_dirs(
                findings@,
                policy@,
                target@,
                dirs.deep_view(),
            ),
            findings@.ask_globs(policy@) == Ok::<_, QuestionView>(
                patterns.deep_view(),
            ),
            globs_interfere(
                findings@,
                patterns.deep_view(),
                target@,
                dirs.deep_view(),
                0,
            ) == Ok::<_, QuestionView>(false),
            all == carried_from(findings@, policy@.entries, target@, dirs.deep_view(), 0),
            granted.deep_view() == writes + restrictions,
            all == (match carried_from(
                findings@,
                policy@.entries,
                target@,
                dirs.deep_view(),
                i as int,
            ) {
                Ok(Some(rest)) => Ok(Some(restrictions + rest)),
                other => other,
            }),
        decreases policy.entries.len() - i,
    {
        assert(policy@.entries[i as int] == policy.entries@[i as int]@);
        match carry_over(policy, target, dirs, &policy.entries[i], findings) {
            Err(question) => {
                return Err(question);
            },
            Ok(None) => {
                return Ok(None);
            },
            Ok(Some(mut added)) => {
                let ghost first = added.deep_view();
                let ghost before = granted.deep_view();
                granted.append(&mut added);
                assert(granted.deep_view() =~= before + first);
                proof {
                    match carried_from(
                        findings@,
                        policy@.entries,
                        target@,
                        dirs.deep_view(),
                        i + 1,
                    ) {
                        Ok(Some(rest)) => {
                            assert(restrictions + (first + rest) =~= (restrictions + first) + rest);
                        },
                        _ => {},
                    }
                    restrictions = restrictions + first;
                }
                assert(granted.deep_view() =~= writes + restrictions);
            },
        }
        i += 1;
    }
    assert(restrictions + Seq::<EntryView>::empty() =~= restrictions);
    Ok(Some(granted))
}

/// Whether a text is the name `.git`.
fn is_dot_git(name: &Vec<u8>) -> (result: bool)
    ensures
        result == (name@ == dot_git_name()),
{
    let result = name.len() == 4 && name[0] == 0x2e && name[1] == 0x67 && name[2] == 0x69 && name[3]
        == 0x74;
    assert(result ==> name@ =~= dot_git_name());
    result
}

/// The path of an explicit write grant on a `.git` of this host.
fn explicit_dot_git_grant(entry: &FileSystemSandboxEntry) -> (dot_git: Option<&AbsolutePath>)
    ensures
        match dot_git {
            Some(dot_git) => granted_dot_git(entry@) == Some(dot_git@),
            None => granted_dot_git(entry@) is None,
        },
{
    if !entry.access.can_write() {
        return None;
    }
    match &entry.path {
        FileSystemPath::Path { path: PathUri::Native(path) } => match path.file_name() {
            Some(name) => if is_dot_git(name) {
                Some(path)
            } else {
                None
            },
            None => None,
        },
        _ => None,
    }
}

/// Adds to the policy those rules that do not stand in it yet.
fn add_missing(policy: &mut FileSystemSandboxPolicy, added: Vec<FileSystemSandboxEntry>)
    ensures
        final(policy)@.kind == old(policy)@.kind,
        final(policy)@.entries == with_entries(old(policy)@.entries, added.deep_view()),
{
    let ghost all = added.deep_view();
    let mut i: usize = 0;
    while i < added.len()
        invariant
            i <= added.len(),
            all == added.deep_view(),
            policy@.kind == old(policy)@.kind,
            policy@.entries == with_entries(old(policy)@.entries, all.take(i as int)),
        decreases added.len() - i,
    {
        let ghost before = policy@.entries;
        assert(all.take(i + 1).drop_last() =~= all.take(i as int));
        assert(all[i as int] == added@[i as int]@);
        if !policy.contains(&added[i]) {
            policy.entries.push(added[i].copy());
            assert(policy@.entries =~= before.push(all[i as int]));
        }
        i += 1;
    }
    assert(all.take(i as int) =~= all);
}

/// Honors explicit `.git` write grants for validated linked worktrees on this host.
///
/// Call it after workspace rules have been turned into paths, with no findings at first; answer
/// the question that comes back, record the answer, and call again. The result is good for this
/// launch only: start the next launch without findings.
pub fn with_worktree_git_write_permissions<E, N>(
    permissions: PermissionProfile<E, N>,
    findings: &Findings,
) -> (expansion: Expansion<E, N>)
    ensures
        match expansion {
            Expansion::Ask { permissions: unchanged, question } => {
                &&& unchanged == permissions
                &&& expand(findings@, permissions.file_system@) == Err::<
                    PolicyView,
                    _,
                >(question@)
            },
            Expansion::Done { permissions: expanded } => {
                &&& expanded.enforcement == permissions.enforcement
                &&& expanded.network == permissions.network
                &&& expand(findings@, permissions.file_system@) == Ok::<
                    _,
                    QuestionView,
                >(expanded.file_system@)
            },
        },
{
    if permissions.file_system.kind != FileSystemSandboxKind::Restricted {
        return Expansion::Done { permissions };
    }
    let mut policy = permissions.file_system.copy();
    let ghost original = permissions.file_system@;
    let mut i: usize = 0;
    while i < permissions.file_system.entries.len()
        invariant
            i <= permissions.file_system.entries.len(),
            original == permissions.file_system@,
            expand(findings@, original) == expand_from(findings@, original, policy@, i as int),
        decreases permissions.file_system.entries.len() - i,
    {
        let ghost before = policy@;
        assert(original.entries[i as int] == permissions.file_system.entries@[i as int]@);
        match explicit_dot_git_grant(&permissions.file_system.entries[i]) {
            None => {},
            Some(dot_git) => match findings.ask_can_write(&permissions.file_system, dot_git) {
                Err(question) => {
                    return Expansion::Ask { permissions, question };
                },
                Ok(false) => {},
                Ok(true) => match worktree_grants(&policy, dot_git, findings) {
                    Err(question) => {
                        return Expansion::Ask { permissions, question };
                    },
                    Ok(None) => {},
                    Ok(Some(added)) => {
                        add_missing(&mut policy, added);
                    },
                },
            },
        }
        assert(expand_entry(findings@, original, before, original.entries[i as int]) == Ok::<
            _,
            QuestionView,
        >(policy@));
        i += 1;
    }
    Expansion::Done {
        permissions: PermissionProfile {
            enforcement: permissions.enforcement,
            file_system: policy,
            network: permissions.network,
        },
    }
}

} // verus!
