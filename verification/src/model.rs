//! What an expansion is, as a function of a policy and of what the host has answered.
//!
//! Each function here gives a value, or the question that the value hangs on: the first one,
//! in the order in which a decision is taken, that the findings do not answer.

use vstd::prelude::*;
use crate::findings::{CanonicalView, FindingsView, GitDirsView, QuestionView, ReadAccess};
use crate::glob::anchor;
use crate::path::PathView;
use crate::permissions::{
    plain_entry, EntryView, FileSystemAccessMode, FileSystemSandboxKind, PlaceView, PolicyView,
    SpecialView, UriView,
};

verus! {

/// Resolves the longest part of a path that the host can resolve, among the ancestors of at
/// most `depth` names, and keeps the rest of the path as it is. There is no result where none
/// of them resolves, or where one of them is no absolute path.
pub open spec fn existing_prefix(findings: FindingsView, path: PathView, depth: nat) -> Result<
    Option<PathView>,
    QuestionView,
>
    decreases depth,
{
    match findings.ask_canonical(path.ancestor(depth)) {
        Err(question) => Err(question),
        Ok(CanonicalView::NotAbsolute) => Ok(None),
        Ok(CanonicalView::Resolved(target)) => Ok(
            Some(target.join(path.names.skip(depth as int))),
        ),
        Ok(CanonicalView::Missing) => if depth == 0 {
            Ok(None)
        } else {
            existing_prefix(findings, path, (depth - 1) as nat)
        },
    }
}

/// The place of a path once the part of it that exists is resolved.
pub open spec fn resolve(findings: FindingsView, path: PathView) -> Result<
    Option<PathView>,
    QuestionView,
> {
    existing_prefix(findings, path, path.names.len())
}

/// The place that an explicit rule names, resolved; a foreign place has none.
pub open spec fn resolve_uri(findings: FindingsView, uri: UriView) -> Result<
    Option<PathView>,
    QuestionView,
> {
    match uri {
        UriView::Native(path) => resolve(findings, path),
        UriView::Foreign(_) => Ok(None),
    }
}

/// One of the two paths lies at or below the other.
pub open spec fn overlap(a: PathView, b: PathView) -> bool {
    a.starts_with(b) || b.starts_with(a)
}

/// Some destination lies at or below `path`.
pub open spec fn covers_destination(dirs: GitDirsView, path: PathView) -> bool {
    dirs.git_dir.starts_with(path) || dirs.common_dir.starts_with(path)
}

/// Some pattern, from index `i` on, may match at, above or below the resolved `.git` or a
/// destination, or is anchored nowhere that can be resolved.
pub open spec fn globs_interfere(
    findings: FindingsView,
    patterns: Seq<PathView>,
    dot_git: PathView,
    dirs: GitDirsView,
    i: int,
) -> Result<bool, QuestionView>
    decreases patterns.len() - i,
{
    if i < 0 || i >= patterns.len() {
        Ok(false)
    } else {
        match anchor(patterns[i]) {
            None => Ok(true),
            Some(directory) => match resolve(findings, directory) {
                Err(question) => Err(question),
                Ok(None) => Ok(true),
                Ok(Some(prefix)) => if overlap(dot_git, prefix) || overlap(dirs.git_dir, prefix)
                    || overlap(dirs.common_dir, prefix) {
                    Ok(true)
                } else {
                    globs_interfere(findings, patterns, dot_git, dirs, i + 1)
                },
            },
        }
    }
}

/// Some rule, from index `i` on, grants writing at or below `projected`, or at a place that
/// cannot be resolved.
pub open spec fn write_granted_below(
    findings: FindingsView,
    entries: Seq<EntryView>,
    projected: PathView,
    i: int,
) -> Result<bool, QuestionView>
    decreases entries.len() - i,
{
    if i < 0 || i >= entries.len() {
        Ok(false)
    } else {
        match entries[i].path {
            PlaceView::Path { path } if entries[i].access == FileSystemAccessMode::Write =>
                match resolve_uri(findings, path) {
                    Err(question) => Err(question),
                    Ok(None) => Ok(true),
                    Ok(Some(place)) => if place.starts_with(projected) {
                        Ok(true)
                    } else {
                        write_granted_below(findings, entries, projected, i + 1)
                    },
                },
            _ => write_granted_below(findings, entries, projected, i + 1),
        }
    }
}

/// The rule that carries a restriction over to one destination: the same access at the same
/// names below the destination. There is none where it would cover a destination, or where an
/// existing grant would override it by being more specific.
pub open spec fn projection(
    findings: FindingsView,
    entries: Seq<EntryView>,
    dirs: GitDirsView,
    destination: PathView,
    suffix: Seq<Seq<u8>>,
    access: FileSystemAccessMode,
) -> Result<Option<EntryView>, QuestionView> {
    let projected = destination.join(suffix);
    if covers_destination(dirs, projected) {
        Ok(None)
    } else {
        match write_granted_below(findings, entries, projected, 0) {
            Err(question) => Err(question),
            Ok(true) => Ok(None),
            Ok(false) => Ok(Some(plain_entry(projected, access))),
        }
    }
}

/// The rules that carry a restriction over to both destinations, if both can be had.
pub open spec fn projections(
    findings: FindingsView,
    entries: Seq<EntryView>,
    dirs: GitDirsView,
    suffix: Seq<Seq<u8>>,
    access: FileSystemAccessMode,
) -> Result<Option<Seq<EntryView>>, QuestionView> {
    match projection(findings, entries, dirs, dirs.git_dir, suffix, access) {
        Err(question) => Err(question),
        Ok(None) => Ok(None),
        Ok(Some(first)) => match projection(
            findings,
            entries,
            dirs,
            dirs.common_dir,
            suffix,
            access,
        ) {
            Err(question) => Err(question),
            Ok(None) => Ok(None),
            Ok(Some(second)) => Ok(Some(seq![first, second])),
        },
    }
}

/// What a restriction at a resolved place adds to the grants: its projections where it lies in
/// the resolved `.git`, nothing where it lies elsewhere. A destination that lies under the
/// restriction makes the expansion impossible. The skippable default rule on `.git` itself
/// gives way to the explicit grant.
pub open spec fn carried_from_place(
    findings: FindingsView,
    entries: Seq<EntryView>,
    dot_git: PathView,
    dirs: GitDirsView,
    entry: EntryView,
    place: PathView,
) -> Result<Option<Seq<EntryView>>, QuestionView> {
    if entry.skips_missing_path && place == dot_git {
        Ok(Some(seq![]))
    } else if covers_destination(dirs, place) {
        Ok(None)
    } else if place.starts_with(dot_git) {
        projections(findings, entries, dirs, place.suffix_below(dot_git), entry.access)
    } else {
        Ok(Some(seq![]))
    }
}

/// What one rule adds to the grants; `None` where the rule makes the expansion impossible.
pub open spec fn carried(
    findings: FindingsView,
    entries: Seq<EntryView>,
    dot_git: PathView,
    dirs: GitDirsView,
    entry: EntryView,
) -> Result<Option<Seq<EntryView>>, QuestionView> {
    if entry.access == FileSystemAccessMode::Write {
        Ok(Some(seq![]))
    } else {
        match entry.path {
            PlaceView::GlobPattern { .. } => Ok(Some(seq![])),
            PlaceView::Special { value } => match value {
                SpecialView::Root => Ok(Some(seq![])),
                SpecialView::Minimal => Ok(Some(seq![])),
                SpecialView::Unmaterialized { .. } => Ok(None),
            },
            PlaceView::Path { path } => match resolve_uri(findings, path) {
                Err(question) => Err(question),
                Ok(None) => Ok(None),
                Ok(Some(place)) => carried_from_place(
                    findings,
                    entries,
                    dot_git,
                    dirs,
                    entry,
                    place,
                ),
            },
        }
    }
}

/// What the rules from index `i` on add to the grants, in their order.
pub open spec fn carried_from(
    findings: FindingsView,
    entries: Seq<EntryView>,
    dot_git: PathView,
    dirs: GitDirsView,
    i: int,
) -> Result<Option<Seq<EntryView>>, QuestionView>
    decreases entries.len() - i,
{
    if i < 0 || i >= entries.len() {
        Ok(Some(seq![]))
    } else {
        match carried(findings, entries, dot_git, dirs, entries[i]) {
            Err(question) => Err(question),
            Ok(None) => Ok(None),
            Ok(Some(first)) => match carried_from(findings, entries, dot_git, dirs, i + 1) {
                Err(question) => Err(question),
                Ok(None) => Ok(None),
                Ok(Some(rest)) => Ok(Some(first + rest)),
            },
        }
    }
}

/// The grants for a worktree whose `.git` and administrative directories are known.
pub open spec fn grants_for_dirs(
    findings: FindingsView,
    policy: PolicyView,
    dot_git: PathView,
    dirs: GitDirsView,
) -> Result<Option<Seq<EntryView>>, QuestionView> {
    match findings.ask_globs(policy) {
        Err(question) => Err(question),
        Ok(patterns) => match globs_interfere(findings, patterns, dot_git, dirs, 0) {
            Err(question) => Err(question),
            Ok(true) => Ok(None),
            Ok(false) => match carried_from(findings, policy.entries, dot_git, dirs, 0) {
                Err(question) => Err(question),
                Ok(None) => Ok(None),
                Ok(Some(restrictions)) => Ok(
                    Some(
                        seq![
                            plain_entry(dirs.git_dir, FileSystemAccessMode::Write),
                            plain_entry(dirs.common_dir, FileSystemAccessMode::Write),
                        ] + restrictions,
                    ),
                ),
            },
        },
    }
}

/// The rules that the write grant on `dot_git` stands for: writing in both administrative
/// directories, and there every restriction that the policy puts on places in `.git`. `None`
/// where the path is no readable `.git` of a linked worktree, or where the policy leaves it
/// open what the grant stands for.
pub open spec fn grants(findings: FindingsView, policy: PolicyView, dot_git: PathView) -> Result<
    Option<Seq<EntryView>>,
    QuestionView,
> {
    match findings.ask_read_access(policy, dot_git) {
        Err(question) => Err(question),
        Ok(access) => if access != ReadAccess::Allowed || dot_git.parent() is None {
            Ok(None)
        } else {
            match findings.ask_git_dirs(dot_git.parent()->0) {
                Err(question) => Err(question),
                Ok(None) => Ok(None),
                Ok(Some(dirs)) => match findings.ask_canonical(dot_git) {
                    Err(question) => Err(question),
                    Ok(CanonicalView::Resolved(target)) => grants_for_dirs(
                        findings,
                        policy,
                        target,
                        dirs,
                    ),
                    Ok(_) => Ok(None),
                },
            }
        },
    }
}

/// The name `.git`.
pub open spec fn dot_git_name() -> Seq<u8> {
    seq![0x2eu8, 0x67u8, 0x69u8, 0x74u8]
}

/// The path of an explicit write grant on a `.git` of this host.
pub open spec fn granted_dot_git(entry: EntryView) -> Option<PathView> {
    match entry.path {
        PlaceView::Path { path: UriView::Native(path) } => if entry.access
            == FileSystemAccessMode::Write && path.names.len() > 0 && path.names.last()
            == dot_git_name() {
            Some(path)
        } else {
            None
        },
        _ => None,
    }
}

/// The rules with one more at their end, unless it stands among them.
pub open spec fn with_entry(entries: Seq<EntryView>, entry: EntryView) -> Seq<EntryView> {
    if entries.contains(entry) {
        entries
    } else {
        entries.push(entry)
    }
}

/// The rules followed by those of `grants`, each taken once.
pub open spec fn with_entries(entries: Seq<EntryView>, grants: Seq<EntryView>) -> Seq<EntryView>
    decreases grants.len(),
{
    if grants.len() == 0 {
        entries
    } else {
        with_entry(with_entries(entries, grants.drop_last()), grants.last())
    }
}

/// What one rule of the original policy makes of the policy reached so far: an effective write
/// grant on `.git` brings the rules that it stands for.
pub open spec fn expand_entry(
    findings: FindingsView,
    original: PolicyView,
    policy: PolicyView,
    entry: EntryView,
) -> Result<PolicyView, QuestionView> {
    match granted_dot_git(entry) {
        None => Ok(policy),
        Some(dot_git) => match findings.ask_can_write(original, dot_git) {
            Err(question) => Err(question),
            Ok(false) => Ok(policy),
            Ok(true) => match grants(findings, policy, dot_git) {
                Err(question) => Err(question),
                Ok(None) => Ok(policy),
                Ok(Some(added)) => Ok(
                    PolicyView {
                        kind: policy.kind,
                        entries: with_entries(policy.entries, added),
                    },
                ),
            },
        },
    }
}

/// What the rules of the original policy from index `i` on make of the policy reached so far.
pub open spec fn expand_from(
    findings: FindingsView,
    original: PolicyView,
    policy: PolicyView,
    i: int,
) -> Result<PolicyView, QuestionView>
    decreases original.entries.len() - i,
{
    if i < 0 || i >= original.entries.len() {
        Ok(policy)
    } else {
        match expand_entry(findings, original, policy, original.entries[i]) {
            Err(question) => Err(question),
            Ok(next) => expand_from(findings, original, next, i + 1),
        }
    }
}

/// The expanded policy. A policy that does not confine the process stays as it is.
pub open spec fn expand(findings: FindingsView, policy: PolicyView) -> Result<
    PolicyView,
    QuestionView,
> {
    if policy.kind == FileSystemSandboxKind::Restricted {
        expand_from(findings, policy, policy, 0)
    } else {
        Ok(policy)
    }
}

} // verus!
