//! What becomes of a write grant on a `.git`, in terms of names and fields: when it is refused,
//! when it is accepted, and what is asked on the way.

use vstd::prelude::*;
use crate::findings::{CanonicalView, FindingsView, GitDirsView, QuestionView, ReadAccess};
use crate::glob::anchor;
use crate::model::{
    carried_from, covers_destination, globs_interfere, grants, resolve, write_granted_below,
};
use crate::path::PathView;
use crate::permissions::{
    EntryView, FileSystemAccessMode, PlaceView, PolicyView, SpecialView, UriView,
};
use crate::restrictions::{
    a_grant_is_refused_exactly_when, blocks, cannot_be_projected, is_ambiguous, may_override,
    pattern_interferes, resolve_uri_decided,
};

verus! {

/// A grant on a `.git` that may not be read, or on a bare root, stands for nothing, and nothing
/// else is asked about it.
pub proof fn an_unreadable_dot_git_is_refused(
    findings: FindingsView,
    policy: PolicyView,
    dot_git: PathView,
)
    requires
        findings.read_access.contains_key((policy, dot_git)),
        findings.read_access[(policy, dot_git)] != ReadAccess::Allowed || dot_git.names.len() == 0,
    ensures
        grants(findings, policy, dot_git) == Ok::<Option<Seq<EntryView>>, QuestionView>(None),
{
}

/// A grant on the `.git` of a directory that is in no linked worktree stands for nothing, and
/// nothing else is asked about it.
pub proof fn a_dot_git_outside_a_linked_worktree_is_refused(
    findings: FindingsView,
    policy: PolicyView,
    dot_git: PathView,
)
    requires
        findings.read_access.contains_key((policy, dot_git)),
        dot_git.names.len() > 0,
        findings.git_dirs.contains_key(
            (PathView {
                root: dot_git.root,
                names: dot_git.names.take(dot_git.names.len() - 1),
            }),
        ),
        findings.git_dirs[(PathView {
            root: dot_git.root,
            names: dot_git.names.take(dot_git.names.len() - 1),
        })] is None,
    ensures
        grants(findings, policy, dot_git) == Ok::<Option<Seq<EntryView>>, QuestionView>(None),
{
}

/// A grant on a `.git` that does not resolve stands for nothing, and nothing else is asked about
/// it.
pub proof fn an_unresolvable_dot_git_is_refused(
    findings: FindingsView,
    policy: PolicyView,
    dot_git: PathView,
)
    requires
        findings.read_access.contains_key((policy, dot_git)),
        dot_git.names.len() > 0,
        findings.git_dirs.contains_key(
            (PathView {
                root: dot_git.root,
                names: dot_git.names.take(dot_git.names.len() - 1),
            }),
        ),
        findings.canonical.contains_key(dot_git),
        !(findings.canonical[dot_git] is Resolved),
    ensures
        grants(findings, policy, dot_git) == Ok::<Option<Seq<EntryView>>, QuestionView>(None),
{
}

/// The facts that a grant needs are asked for one after the other: whether its `.git` may be
/// read, where the worktree of the directory that holds it is administered, what it resolves to,
/// and which patterns are unreadable.
pub proof fn a_grant_asks_for_its_facts_in_order(
    findings: FindingsView,
    policy: PolicyView,
    dot_git: PathView,
    checkout: PathView,
)
    requires
        dot_git.names.len() > 0,
        checkout == (PathView {
            root: dot_git.root,
            names: dot_git.names.take(dot_git.names.len() - 1),
        }),
    ensures
        !findings.read_access.contains_key((policy, dot_git)) ==> grants(findings, policy, dot_git)
            == Err::<Option<Seq<EntryView>>, _>(
            QuestionView::ReadAccess { policy, path: dot_git },
        ),
        findings.read_access.contains_key((policy, dot_git)) && findings.read_access[(
            policy,
            dot_git,
        )] == ReadAccess::Allowed ==> {
            &&& !findings.git_dirs.contains_key(checkout) ==> grants(findings, policy, dot_git)
                == Err::<Option<Seq<EntryView>>, _>(
                QuestionView::LinkedWorktreeGitDirs { checkout },
            )
            &&& findings.git_dirs.contains_key(checkout) && findings.git_dirs[checkout] is Some
                ==> {
                &&& !findings.canonical.contains_key(dot_git) ==> grants(findings, policy, dot_git)
                    == Err::<Option<Seq<EntryView>>, _>(
                    QuestionView::Canonicalize { path: dot_git },
                )
                &&& findings.canonical.contains_key(dot_git) && findings.canonical[dot_git]
                    is Resolved && !findings.globs.contains_key(policy) ==> grants(
                    findings,
                    policy,
                    dot_git,
                ) == Err::<Option<Seq<EntryView>>, _>(QuestionView::UnreadableGlobs { policy })
            }
        },
{
}

/// A pattern decides as soon as the patterns before it are clear of the resolved `.git` and of
/// both administrative directories. One that is anchored nowhere, or in a directory without a
/// place, or whose resolved anchor lies at, above or below one of the three, refuses the grant;
/// where its place is not known yet, that is what is asked.
pub proof fn an_overlapping_pattern_refuses_the_grant(
    findings: FindingsView,
    policy: PolicyView,
    dot_git: PathView,
    dirs: GitDirsView,
    target: PathView,
    k: int,
    base: PathView,
)
    requires
        dot_git.names.len() > 0,
        findings.read_access.contains_key((policy, dot_git)),
        findings.read_access[(policy, dot_git)] == ReadAccess::Allowed,
        findings.git_dirs.contains_key(
            (PathView {
                root: dot_git.root,
                names: dot_git.names.take(dot_git.names.len() - 1),
            }),
        ),
        findings.git_dirs[(PathView {
            root: dot_git.root,
            names: dot_git.names.take(dot_git.names.len() - 1),
        })] == Some(dirs),
        findings.canonical.contains_key(dot_git),
        findings.canonical[dot_git] == CanonicalView::Resolved(target),
        findings.globs.contains_key(policy),
        0 <= k < findings.globs[policy].len(),
        forall|j: int|
            0 <= j < k ==> (anchor(#[trigger] findings.globs[policy][j]) matches Some(before) && (
            resolve(findings, before) matches Ok(Some(place)) && (place.root != target.root || !(
            place.names.is_prefix_of(target.names) || target.names.is_prefix_of(place.names))) && (
            place.root != dirs.git_dir.root || !(place.names.is_prefix_of(dirs.git_dir.names)
                || dirs.git_dir.names.is_prefix_of(place.names))) && (place.root
                != dirs.common_dir.root || !(place.names.is_prefix_of(dirs.common_dir.names)
                || dirs.common_dir.names.is_prefix_of(place.names))))),
        base == target || base == dirs.git_dir || base == dirs.common_dir,
    ensures
        match anchor(findings.globs[policy][k]) {
            None => grants(findings, policy, dot_git) == Ok::<
                Option<Seq<EntryView>>,
                QuestionView,
            >(None),
            Some(directory) => match resolve(findings, directory) {
                Err(question) => grants(findings, policy, dot_git) == Err::<
                    Option<Seq<EntryView>>,
                    _,
                >(question),
                Ok(None) => grants(findings, policy, dot_git) == Ok::<
                    Option<Seq<EntryView>>,
                    QuestionView,
                >(None),
                Ok(Some(prefix)) => prefix.root == base.root && (prefix.names.is_prefix_of(
                    base.names,
                ) || base.names.is_prefix_of(prefix.names)) ==> grants(findings, policy, dot_git)
                    == Ok::<Option<Seq<EntryView>>, QuestionView>(None),
            },
        },
{
    clear_patterns(findings, findings.globs[policy], target, dirs, 0, k);
}

/// Any unreadable pattern refuses the grant that is anchored nowhere or in a directory without a
/// place, or whose resolved anchor shares its root with the resolved `.git`, the git directory or
/// the common directory and lies above it, at it or below it: with the anchor at `base` followed by
/// any names, or `base` at the anchor followed by any names.
pub proof fn a_pattern_around_a_directory_refuses_the_grant(
    host: FindingsView,
    policy: PolicyView,
    dot_git: PathView,
    dirs: GitDirsView,
    target: PathView,
    k: int,
    base: PathView,
    names: Seq<Seq<u8>>,
)
    requires
        host.is_complete(),
        dot_git.names.len() > 0,
        host.git_dirs[(PathView {
            root: dot_git.root,
            names: dot_git.names.take(dot_git.names.len() - 1),
        })] == Some(dirs),
        host.canonical[dot_git] == CanonicalView::Resolved(target),
        0 <= k < host.globs[policy].len(),
        base == target || base == dirs.git_dir || base == dirs.common_dir,
        anchor(host.globs[policy][k]) matches Some(directory) ==> match resolve(host, directory) {
            Err(_) => false,
            Ok(None) => true,
            Ok(Some(prefix)) => prefix.root == base.root && (prefix.names == base.names + names
                || prefix.names + names == base.names),
        },
    ensures
        grants(host, policy, dot_git) == Ok::<Option<Seq<EntryView>>, QuestionView>(None),
{
    a_grant_is_refused_exactly_when(host, policy, dot_git);
    match anchor(host.globs[policy][k]) {
        Some(directory) => match resolve(host, directory) {
            Ok(Some(prefix)) => {
                if prefix.names == base.names + names {
                    assert(prefix.names.take(base.names.len() as int) =~= base.names);
                } else {
                    assert(base.names.take(prefix.names.len() as int) =~= prefix.names);
                }
            },
            _ => {},
        },
        None => {},
    }
    assert(pattern_interferes(host, host.globs[policy][k], target, dirs));
}

proof fn clear_patterns(
    f: FindingsView,
    patterns: Seq<PathView>,
    target: PathView,
    dirs: GitDirsView,
    i: int,
    k: int,
)
    requires
        0 <= i <= k <= patterns.len(),
        forall|j: int|
            0 <= j < k ==> (anchor(#[trigger] patterns[j]) matches Some(before) && (resolve(
                f,
                before,
            ) matches Ok(Some(place)) && (place.root != target.root || !(
            place.names.is_prefix_of(target.names) || target.names.is_prefix_of(place.names))) && (
            place.root != dirs.git_dir.root || !(place.names.is_prefix_of(dirs.git_dir.names)
                || dirs.git_dir.names.is_prefix_of(place.names))) && (place.root
                != dirs.common_dir.root || !(place.names.is_prefix_of(dirs.common_dir.names)
                || dirs.common_dir.names.is_prefix_of(place.names))))),
    ensures
        globs_interfere(f, patterns, target, dirs, i) == globs_interfere(
            f,
            patterns,
            target,
            dirs,
            k,
        ),
    decreases k - i,
{
    if i < k {
        let place = resolve(f, anchor(patterns[i])->0)->Ok_0->0;
        assert(anchor(patterns[i]) is Some);
        clear_patterns(f, patterns, target, dirs, i + 1, k);
    }
}

/// A restriction refuses the grant where it has no particular path, no path of this host or no
/// place; or where its place lies at or above an administrative directory, unless it is a
/// skippable default exactly on the resolved `.git`.
pub proof fn a_restriction_above_a_directory_refuses_the_grant(
    host: FindingsView,
    policy: PolicyView,
    dot_git: PathView,
    dirs: GitDirsView,
    target: PathView,
    k: int,
)
    requires
        host.is_complete(),
        dot_git.names.len() > 0,
        host.git_dirs[(PathView {
            root: dot_git.root,
            names: dot_git.names.take(dot_git.names.len() - 1),
        })] == Some(dirs),
        host.canonical[dot_git] == CanonicalView::Resolved(target),
        0 <= k < policy.entries.len(),
        policy.entries[k].access != FileSystemAccessMode::Write,
        match policy.entries[k].path {
            PlaceView::GlobPattern { .. } => false,
            PlaceView::Special { value } => value != SpecialView::Root && value
                != SpecialView::Minimal,
            PlaceView::Path { path: UriView::Foreign(_) } => true,
            PlaceView::Path { path: UriView::Native(path) } => match resolve(host, path) {
                Err(_) => false,
                Ok(None) => true,
                Ok(Some(place)) => {
                    &&& !(policy.entries[k].skips_missing_path && place == target)
                    &&& {
                        ||| place.root == dirs.git_dir.root && place.names.is_prefix_of(
                            dirs.git_dir.names,
                        )
                        ||| place.root == dirs.common_dir.root && place.names.is_prefix_of(
                            dirs.common_dir.names,
                        )
                    }
                },
            },
        },
    ensures
        grants(host, policy, dot_git) == Ok::<Option<Seq<EntryView>>, QuestionView>(None),
{
    a_grant_is_refused_exactly_when(host, policy, dot_git);
    assert(blocks(host, policy.entries, target, dirs, policy.entries[k]));
}

/// A restriction in the resolved `.git` refuses the grant where the same names below one of the
/// administrative directories lead to a place at or above such a directory. Only a skippable
/// default exactly on the resolved `.git` gives way.
pub proof fn a_restriction_carried_over_a_directory_refuses_the_grant(
    host: FindingsView,
    policy: PolicyView,
    dot_git: PathView,
    dirs: GitDirsView,
    target: PathView,
    k: int,
    path: PathView,
    place: PathView,
    destination: PathView,
    covered: PathView,
)
    requires
        host.is_complete(),
        dot_git.names.len() > 0,
        host.git_dirs[(PathView {
            root: dot_git.root,
            names: dot_git.names.take(dot_git.names.len() - 1),
        })] == Some(dirs),
        host.canonical[dot_git] == CanonicalView::Resolved(target),
        0 <= k < policy.entries.len(),
        policy.entries[k].access != FileSystemAccessMode::Write,
        policy.entries[k].path == (PlaceView::Path { path: UriView::Native(path) }),
        resolve(host, path) == Ok::<_, QuestionView>(Some(place)),
        !(policy.entries[k].skips_missing_path && place == target),
        place.root == target.root,
        target.names.is_prefix_of(place.names),
        destination == dirs.git_dir || destination == dirs.common_dir,
        covered == dirs.git_dir || covered == dirs.common_dir,
        destination.root == covered.root,
        (destination.names + place.names.skip(target.names.len() as int)).is_prefix_of(
            covered.names,
        ),
    ensures
        grants(host, policy, dot_git) == Ok::<Option<Seq<EntryView>>, QuestionView>(None),
{
    a_grant_is_refused_exactly_when(host, policy, dot_git);
    let projected = destination.join(place.suffix_below(target));
    assert(covers_destination(dirs, projected));
    assert(blocks(host, policy.entries, target, dirs, policy.entries[k]));
}

/// A restriction in the resolved `.git` refuses the grant where some rule lets be written at or
/// below the place that the same names lead to below one of the administrative directories, or
/// at a place that is not known. Only a skippable default exactly on the resolved `.git` gives
/// way.
pub proof fn a_restriction_that_would_be_overridden_refuses_the_grant(
    host: FindingsView,
    policy: PolicyView,
    dot_git: PathView,
    dirs: GitDirsView,
    target: PathView,
    k: int,
    path: PathView,
    place: PathView,
    destination: PathView,
    c: int,
)
    requires
        host.is_complete(),
        dot_git.names.len() > 0,
        host.git_dirs[(PathView {
            root: dot_git.root,
            names: dot_git.names.take(dot_git.names.len() - 1),
        })] == Some(dirs),
        host.canonical[dot_git] == CanonicalView::Resolved(target),
        0 <= k < policy.entries.len(),
        policy.entries[k].access != FileSystemAccessMode::Write,
        policy.entries[k].path == (PlaceView::Path { path: UriView::Native(path) }),
        resolve(host, path) == Ok::<_, QuestionView>(Some(place)),
        !(policy.entries[k].skips_missing_path && place == target),
        place.root == target.root,
        target.names.is_prefix_of(place.names),
        destination == dirs.git_dir || destination == dirs.common_dir,
        0 <= c < policy.entries.len(),
        policy.entries[c].access == FileSystemAccessMode::Write,
        match policy.entries[c].path {
            PlaceView::Path { path: UriView::Foreign(_) } => true,
            PlaceView::Path { path: UriView::Native(other) } => match resolve(host, other) {
                Err(_) => false,
                Ok(None) => true,
                Ok(Some(granted)) => granted.root == destination.root && (destination.names
                    + place.names.skip(target.names.len() as int)).is_prefix_of(granted.names),
            },
            _ => false,
        },
    ensures
        grants(host, policy, dot_git) == Ok::<Option<Seq<EntryView>>, QuestionView>(None),
{
    a_grant_is_refused_exactly_when(host, policy, dot_git);
    let projected = destination.join(place.suffix_below(target));
    assert(may_override(host, policy.entries[c], projected));
    assert(cannot_be_projected(host, policy.entries, dirs, projected));
    assert(blocks(host, policy.entries, target, dirs, policy.entries[k]));
}

/// A grant is accepted where its `.git` is that of a linked worktree, may be read and resolves;
/// where every unreadable pattern is anchored in a directory whose place lies neither at, above
/// nor below the resolved `.git` or an administrative directory; and where every restriction has
/// a place which lies neither at nor above an administrative directory, and, if it lies in the
/// resolved `.git`, leads below each of those directories to a place that lies neither at nor
/// above one of them and at or below which no rule lets be written. A restriction on everything,
/// or on what any process needs, or by a pattern, and a skippable default exactly on the resolved
/// `.git`, are no obstacle.
pub proof fn a_grant_without_obstacles_is_accepted(
    host: FindingsView,
    policy: PolicyView,
    dot_git: PathView,
    dirs: GitDirsView,
    target: PathView,
)
    requires
        host.is_complete(),
        dot_git.names.len() > 0,
        host.read_access[(policy, dot_git)] == ReadAccess::Allowed,
        host.git_dirs[(PathView {
            root: dot_git.root,
            names: dot_git.names.take(dot_git.names.len() - 1),
        })] == Some(dirs),
        host.canonical[dot_git] == CanonicalView::Resolved(target),
        forall|j: int|
            0 <= j < host.globs[policy].len() ==> (anchor(
                #[trigger] host.globs[policy][j],
            ) matches Some(directory) && (resolve(host, directory) matches Ok(Some(place)) && (
            place.root != target.root || !(place.names.is_prefix_of(target.names)
                || target.names.is_prefix_of(place.names))) && (place.root
                != dirs.git_dir.root || !(
            place.names.is_prefix_of(dirs.git_dir.names) || dirs.git_dir.names.is_prefix_of(
                place.names,
            ))) && (place.root != dirs.common_dir.root || !(place.names.is_prefix_of(
                dirs.common_dir.names,
            ) || dirs.common_dir.names.is_prefix_of(place.names))))),
        forall|k: int| #![trigger policy.entries[k]]
            0 <= k < policy.entries.len() && policy.entries[k].access
                != FileSystemAccessMode::Write ==> match policy.entries[k].path {
                PlaceView::GlobPattern { .. } => true,
                PlaceView::Special { value } => value == SpecialView::Root || value
                    == SpecialView::Minimal,
                PlaceView::Path { path: UriView::Foreign(_) } => false,
                PlaceView::Path { path: UriView::Native(path) } => {
                    &&& resolve(host, path) matches Ok(Some(place))
                    &&& {
                        ||| policy.entries[k].skips_missing_path && place == target
                        ||| {
                            &&& !(place.root == dirs.git_dir.root && place.names.is_prefix_of(
                                dirs.git_dir.names,
                            ))
                            &&& !(place.root == dirs.common_dir.root && place.names.is_prefix_of(
                                dirs.common_dir.names,
                            ))
                            &&& place.root == target.root && target.names.is_prefix_of(place.names)
                                ==> {
                                let suffix = place.names.skip(target.names.len() as int);
                                &&& !(dirs.git_dir.names + suffix).is_prefix_of(dirs.git_dir.names)
                                &&& !(dirs.git_dir.root == dirs.common_dir.root && (
                                dirs.git_dir.names + suffix).is_prefix_of(dirs.common_dir.names))
                                &&& !(dirs.common_dir.root == dirs.git_dir.root && (
                                dirs.common_dir.names + suffix).is_prefix_of(dirs.git_dir.names))
                                &&& !(dirs.common_dir.names + suffix).is_prefix_of(
                                    dirs.common_dir.names,
                                )
                                &&& forall|c: int| #![trigger policy.entries[c]]
                                    0 <= c < policy.entries.len() && policy.entries[c].access
                                        == FileSystemAccessMode::Write
                                        ==> match policy.entries[c].path {
                                        PlaceView::Path { path: UriView::Foreign(_) } => false,
                                        PlaceView::Path { path: UriView::Native(other) } => {
                                            &&& resolve(host, other) matches Ok(Some(granted))
                                            &&& !(granted.root == dirs.git_dir.root && (
                                            dirs.git_dir.names + suffix).is_prefix_of(
                                                granted.names,
                                            ))
                                            &&& !(granted.root == dirs.common_dir.root && (
                                            dirs.common_dir.names + suffix).is_prefix_of(
                                                granted.names,
                                            ))
                                        },
                                        _ => true,
                                    }
                            }
                        }
                    }
                },
            },
    ensures
        grants(host, policy, dot_git) matches Ok(Some(_)),
{
    a_grant_is_refused_exactly_when(host, policy, dot_git);
    assert forall|j: int| 0 <= j < host.globs[policy].len() implies !pattern_interferes(
        host,
        #[trigger] host.globs[policy][j],
        target,
        dirs,
    ) by {
        assert(anchor(host.globs[policy][j]) is Some);
    }
    assert forall|k: int| 0 <= k < policy.entries.len() implies !blocks(
        host,
        policy.entries,
        target,
        dirs,
        #[trigger] policy.entries[k],
    ) by {
        let entry = policy.entries[k];
        if entry.access != FileSystemAccessMode::Write {
            match entry.path {
                PlaceView::Path { path: UriView::Native(path) } => {
                    let place = resolve(host, path)->Ok_0->0;
                    let suffix = place.suffix_below(target);
                    if place.starts_with(target) && !(entry.skips_missing_path && place == target) {
                        assert forall|c: int| 0 <= c < policy.entries.len() implies !may_override(
                            host,
                            #[trigger] policy.entries[c],
                            dirs.git_dir.join(suffix),
                        ) && !may_override(
                            host,
                            policy.entries[c],
                            dirs.common_dir.join(suffix),
                        ) by {
                            match policy.entries[c].path {
                                PlaceView::Path { path: uri } => resolve_uri_decided(host, uri),
                                _ => {},
                            }
                        }
                    }
                },
                _ => {},
            }
        }
    }
    assert(!is_ambiguous(host, policy, target, dirs));
}

/// The first restriction of the policy decides before any later rule is looked at, once every
/// unreadable pattern is clear of the resolved `.git` and of both administrative directories. One
/// without a particular path, without a path of this host or without a place refuses the grant at
/// once, and so does one whose place lies at or above an administrative directory, unless it is a
/// skippable default exactly on the resolved `.git`; where its place is not known yet, that is
/// what is asked.
pub proof fn the_first_restriction_decides_first(
    findings: FindingsView,
    policy: PolicyView,
    dot_git: PathView,
    dirs: GitDirsView,
    target: PathView,
    k: int,
)
    requires
        dot_git.names.len() > 0,
        findings.read_access.contains_key((policy, dot_git)),
        findings.read_access[(policy, dot_git)] == ReadAccess::Allowed,
        findings.git_dirs.contains_key(
            (PathView {
                root: dot_git.root,
                names: dot_git.names.take(dot_git.names.len() - 1),
            }),
        ),
        findings.git_dirs[(PathView {
            root: dot_git.root,
            names: dot_git.names.take(dot_git.names.len() - 1),
        })] == Some(dirs),
        findings.canonical.contains_key(dot_git),
        findings.canonical[dot_git] == CanonicalView::Resolved(target),
        findings.globs.contains_key(policy),
        forall|j: int|
            0 <= j < findings.globs[policy].len() ==> (anchor(
                #[trigger] findings.globs[policy][j],
            ) matches Some(before) && (resolve(findings, before) matches Ok(Some(place)) && (
            place.root != target.root || !(place.names.is_prefix_of(target.names)
                || target.names.is_prefix_of(place.names))) && (place.root
                != dirs.git_dir.root || !(
            place.names.is_prefix_of(dirs.git_dir.names) || dirs.git_dir.names.is_prefix_of(
                place.names,
            ))) && (place.root != dirs.common_dir.root || !(place.names.is_prefix_of(
                dirs.common_dir.names,
            ) || dirs.common_dir.names.is_prefix_of(place.names))))),
        0 <= k < policy.entries.len(),
        policy.entries[k].access != FileSystemAccessMode::Write,
        forall|j: int|
            0 <= j < k ==> (#[trigger] policy.entries[j]).access == FileSystemAccessMode::Write,
    ensures
        match policy.entries[k].path {
            PlaceView::GlobPattern { .. } => true,
            PlaceView::Special { value } => value == SpecialView::Root || value
                == SpecialView::Minimal || grants(findings, policy, dot_git) == Ok::<
                Option<Seq<EntryView>>,
                QuestionView,
            >(None),
            PlaceView::Path { path: UriView::Foreign(_) } => grants(findings, policy, dot_git)
                == Ok::<Option<Seq<EntryView>>, QuestionView>(None),
            PlaceView::Path { path: UriView::Native(path) } => match resolve(findings, path) {
                Err(question) => grants(findings, policy, dot_git) == Err::<
                    Option<Seq<EntryView>>,
                    _,
                >(question),
                Ok(None) => grants(findings, policy, dot_git) == Ok::<
                    Option<Seq<EntryView>>,
                    QuestionView,
                >(None),
                Ok(Some(place)) => !(policy.entries[k].skips_missing_path && place == target) && (
                place.root == dirs.git_dir.root && place.names.is_prefix_of(dirs.git_dir.names)
                    || place.root == dirs.common_dir.root && place.names.is_prefix_of(
                    dirs.common_dir.names,
                )) ==> grants(findings, policy, dot_git) == Ok::<
                    Option<Seq<EntryView>>,
                    QuestionView,
                >(None),
            },
        },
{
    clear_patterns(
        findings,
        findings.globs[policy],
        target,
        dirs,
        0,
        findings.globs[policy].len() as int,
    );
    past_write_rules(findings, policy.entries, target, dirs, 0, k);
}

/// Whether the first restriction of the policy can be carried over is settled in this order, once
/// every unreadable pattern is clear and the restriction lies in the resolved `.git` but neither
/// at nor above an administrative directory: where the same names below the git directory lead to
/// a place at or above an administrative directory, the grant is refused with nothing asked; else
/// the first rule that lets a single path be written is looked at. That rule refuses the grant if
/// it has no path of this host, no place, or a place at or below the one carried over to; where
/// its place is not known yet, that is what is asked.
pub proof fn the_first_restriction_is_held_against_the_first_grant(
    findings: FindingsView,
    policy: PolicyView,
    dot_git: PathView,
    dirs: GitDirsView,
    target: PathView,
    k: int,
    path: PathView,
    place: PathView,
    c: int,
)
    requires
        dot_git.names.len() > 0,
        findings.read_access.contains_key((policy, dot_git)),
        findings.read_access[(policy, dot_git)] == ReadAccess::Allowed,
        findings.git_dirs.contains_key(
            (PathView {
                root: dot_git.root,
                names: dot_git.names.take(dot_git.names.len() - 1),
            }),
        ),
        findings.git_dirs[(PathView {
            root: dot_git.root,
            names: dot_git.names.take(dot_git.names.len() - 1),
        })] == Some(dirs),
        findings.canonical.contains_key(dot_git),
        findings.canonical[dot_git] == CanonicalView::Resolved(target),
        findings.globs.contains_key(policy),
        forall|j: int|
            0 <= j < findings.globs[policy].len() ==> (anchor(
                #[trigger] findings.globs[policy][j],
            ) matches Some(before) && (resolve(findings, before) matches Ok(Some(found)) && (
            found.root != target.root || !(found.names.is_prefix_of(target.names)
                || target.names.is_prefix_of(found.names))) && (found.root
                != dirs.git_dir.root || !(
            found.names.is_prefix_of(dirs.git_dir.names) || dirs.git_dir.names.is_prefix_of(
                found.names,
            ))) && (found.root != dirs.common_dir.root || !(found.names.is_prefix_of(
                dirs.common_dir.names,
            ) || dirs.common_dir.names.is_prefix_of(found.names))))),
        0 <= k < policy.entries.len(),
        policy.entries[k].access != FileSystemAccessMode::Write,
        forall|j: int|
            0 <= j < k ==> (#[trigger] policy.entries[j]).access == FileSystemAccessMode::Write,
        policy.entries[k].path == (PlaceView::Path { path: UriView::Native(path) }),
        resolve(findings, path) == Ok::<_, QuestionView>(Some(place)),
        !(policy.entries[k].skips_missing_path && place == target),
        !(place.root == dirs.git_dir.root && place.names.is_prefix_of(dirs.git_dir.names)),
        !(place.root == dirs.common_dir.root && place.names.is_prefix_of(dirs.common_dir.names)),
        place.root == target.root,
        target.names.is_prefix_of(place.names),
        0 <= c < policy.entries.len(),
        forall|j: int|
            0 <= j < c ==> (#[trigger] policy.entries[j]).access != FileSystemAccessMode::Write
                || !(policy.entries[j].path is Path),
        policy.entries[c].access == FileSystemAccessMode::Write,
        policy.entries[c].path is Path,
    ensures
        if (dirs.git_dir.names + place.names.skip(target.names.len() as int)).is_prefix_of(
            dirs.git_dir.names,
        ) || dirs.git_dir.root == dirs.common_dir.root && (dirs.git_dir.names + place.names.skip(
            target.names.len() as int,
        )).is_prefix_of(dirs.common_dir.names) {
            grants(findings, policy, dot_git) == Ok::<Option<Seq<EntryView>>, QuestionView>(None)
        } else {
            match policy.entries[c].path->Path_path {
                UriView::Foreign(_) => grants(findings, policy, dot_git) == Ok::<
                    Option<Seq<EntryView>>,
                    QuestionView,
                >(None),
                UriView::Native(other) => match resolve(findings, other) {
                    Err(question) => grants(findings, policy, dot_git) == Err::<
                        Option<Seq<EntryView>>,
                        _,
                    >(question),
                    Ok(None) => grants(findings, policy, dot_git) == Ok::<
                        Option<Seq<EntryView>>,
                        QuestionView,
                    >(None),
                    Ok(Some(granted)) => granted.root == dirs.git_dir.root && (dirs.git_dir.names
                        + place.names.skip(target.names.len() as int)).is_prefix_of(granted.names)
                        ==> grants(findings, policy, dot_git) == Ok::<
                        Option<Seq<EntryView>>,
                        QuestionView,
                    >(None),
                },
            }
        },
{
    clear_patterns(
        findings,
        findings.globs[policy],
        target,
        dirs,
        0,
        findings.globs[policy].len() as int,
    );
    past_write_rules(findings, policy.entries, target, dirs, 0, k);
    let projected = dirs.git_dir.join(place.suffix_below(target));
    to_first_grant(findings, policy.entries, projected, 0, c);
}

proof fn past_write_rules(
    f: FindingsView,
    entries: Seq<EntryView>,
    target: PathView,
    dirs: GitDirsView,
    i: int,
    k: int,
)
    requires
        0 <= i <= k < entries.len(),
        forall|j: int|
            0 <= j < k ==> (#[trigger] entries[j]).access == FileSystemAccessMode::Write,
    ensures
        carried_from(f, entries, target, dirs, i) == carried_from(f, entries, target, dirs, k),
    decreases k - i,
{
    if i < k {
        assert(entries[i].access == FileSystemAccessMode::Write);
        past_write_rules(f, entries, target, dirs, i + 1, k);
        match carried_from(f, entries, target, dirs, i + 1) {
            Ok(Some(rest)) => {
                assert(Seq::<EntryView>::empty() + rest =~= rest);
            },
            _ => {},
        }
    }
}

proof fn to_first_grant(
    f: FindingsView,
    entries: Seq<EntryView>,
    projected: PathView,
    i: int,
    c: int,
)
    requires
        0 <= i <= c < entries.len(),
        forall|j: int|
            0 <= j < c ==> (#[trigger] entries[j]).access != FileSystemAccessMode::Write || !(
            entries[j].path is Path),
    ensures
        write_granted_below(f, entries, projected, i) == write_granted_below(
            f,
            entries,
            projected,
            c,
        ),
    decreases c - i,
{
    if i < c {
        assert(entries[i].access != FileSystemAccessMode::Write || !(entries[i].path is Path));
        to_first_grant(f, entries, projected, i + 1, c);
    }
}

} // verus!
