//! Which rules an accepted write grant on a `.git` stands for, rule by rule and name by name.

use vstd::prelude::*;
use crate::findings::{CanonicalView, FindingsView, GitDirsView, QuestionView, ReadAccess};
use crate::foundations::a_path_comes_to_the_place_of_its_deepest_ancestor;
use crate::grant_laws::{
    a_restriction_above_a_directory_refuses_the_grant,
    a_restriction_that_would_be_overridden_refuses_the_grant,
};
use crate::model::{carried, carried_from, grants, resolve};
use crate::path::PathView;
use crate::permissions::{
    EntryView, FileSystemAccessMode, PlaceView, PolicyView, SpecialView, UriView,
};
use crate::restrictions::carried_from_with;

verus! {

/// An accepted grant is one on a readable `.git` of a linked worktree that resolves, and the first
/// two rules that it stands for let be written in the git directory and in the common directory,
/// in this order and without exception for places that are missing.
pub proof fn an_accepted_grant_starts_with_both_directories(
    findings: FindingsView,
    policy: PolicyView,
    dot_git: PathView,
    checkout: PathView,
    added: Seq<EntryView>,
)
    requires
        checkout == (PathView {
            root: dot_git.root,
            names: dot_git.names.take(dot_git.names.len() - 1),
        }),
        grants(findings, policy, dot_git) == Ok::<_, QuestionView>(Some(added)),
    ensures
        findings.read_access.contains_key((policy, dot_git)),
        findings.read_access[(policy, dot_git)] == ReadAccess::Allowed,
        dot_git.names.len() > 0,
        findings.canonical.contains_key(dot_git),
        findings.canonical[dot_git] is Resolved,
        findings.git_dirs.contains_key(checkout),
        findings.git_dirs[checkout] matches Some(dirs) && added.len() >= 2 && added[0] == (
        EntryView {
            path: PlaceView::Path { path: UriView::Native(dirs.git_dir) },
            access: FileSystemAccessMode::Write,
            skips_missing_path: false,
        }) && added[1] == (EntryView {
            path: PlaceView::Path { path: UriView::Native(dirs.common_dir) },
            access: FileSystemAccessMode::Write,
            skips_missing_path: false,
        }),
{
}

/// The rule is a restriction that lies in the resolved `.git` and is not the skippable default on
/// it.
spec fn is_carried(f: FindingsView, target: PathView, entry: EntryView) -> bool {
    &&& entry.access != FileSystemAccessMode::Write
    &&& entry.path matches PlaceView::Path { path: UriView::Native(path) }
    &&& resolve(f, path) matches Ok(Some(place))
    &&& place.root == target.root
    &&& target.names.is_prefix_of(place.names)
    &&& !(entry.skips_missing_path && place == target)
}

/// The restriction with the names that lead to it from the resolved `.git` put below a directory.
spec fn moved(f: FindingsView, target: PathView, entry: EntryView, to: PathView) -> EntryView {
    let place = resolve(f, entry.path->Path_path->Native_0)->Ok_0->0;
    EntryView {
        path: PlaceView::Path {
            path: UriView::Native(
                PathView {
                    root: to.root,
                    names: to.names + place.names.skip(target.names.len() as int),
                },
            ),
        },
        access: entry.access,
        skips_missing_path: false,
    }
}

proof fn carried_owners(
    f: FindingsView,
    entries: Seq<EntryView>,
    target: PathView,
    dirs: GitDirsView,
    i: int,
    all: Seq<EntryView>,
) -> (owners: Seq<int>)
    requires
        0 <= i,
        carried_from(f, entries, target, dirs, i) == Ok::<_, QuestionView>(Some(all)),
    ensures
        all.len() == 2 * owners.len(),
        forall|a: int, b: int| 0 <= a < b < owners.len() ==> owners[a] < owners[b],
        forall|k: int| #![trigger entries[k]]
            i <= k < entries.len() ==> (owners.contains(k) <==> is_carried(f, target, entries[k])),
        forall|m: int|
            0 <= m < owners.len() ==> {
                &&& i <= #[trigger] owners[m] < entries.len()
                &&& all[2 * m] == moved(f, target, entries[owners[m]], dirs.git_dir)
                &&& all[2 * m + 1] == moved(f, target, entries[owners[m]], dirs.common_dir)
            },
    decreases entries.len() - i,
{
    if i >= entries.len() {
        Seq::empty()
    } else {
        let first = carried(f, entries, target, dirs, entries[i])->Ok_0->0;
        let rest = carried_from(f, entries, target, dirs, i + 1)->Ok_0->0;
        assert(all == first + rest);
        let later = carried_owners(f, entries, target, dirs, i + 1, rest);
        if is_carried(f, target, entries[i]) {
            let owners = seq![i] + later;
            assert(first.len() == 2);
            assert(first[0] == moved(f, target, entries[i], dirs.git_dir));
            assert(first[1] == moved(f, target, entries[i], dirs.common_dir));
            assert(owners[0] == i);
            assert forall|k: int| #![trigger entries[k]] i <= k < entries.len() implies (
            owners.contains(k) <==> is_carried(f, target, entries[k])) by {
                if i < k && is_carried(f, target, entries[k]) {
                    assert(later.contains(k));
                    let m = choose|m: int| 0 <= m < later.len() && later[m] == k;
                    assert(owners[m + 1] == k);
                }
                if i < k && owners.contains(k) {
                    let m = choose|m: int| 0 <= m < owners.len() && owners[m] == k;
                    assert(later[m - 1] == k);
                }
            }
            assert forall|m: int| 0 <= m < owners.len() implies {
                &&& i <= #[trigger] owners[m] < entries.len()
                &&& all[2 * m] == moved(f, target, entries[owners[m]], dirs.git_dir)
                &&& all[2 * m + 1] == moved(f, target, entries[owners[m]], dirs.common_dir)
            } by {
                if m > 0 {
                    assert(owners[m] == later[m - 1]);
                    assert(all[2 * m] == rest[2 * (m - 1)]);
                    assert(all[2 * m + 1] == rest[2 * (m - 1) + 1]);
                }
            }
            assert forall|a: int, b: int| 0 <= a < b < owners.len() implies owners[a]
                < owners[b] by {
                assert(owners[b] == later[b - 1]);
                if a > 0 {
                    assert(owners[a] == later[a - 1]);
                }
            }
            owners
        } else {
            assert(first.len() == 0);
            assert(all =~= rest);
            assert(!later.contains(i)) by {
                if later.contains(i) {
                    let m = choose|m: int| 0 <= m < later.len() && later[m] == i;
                    assert(later[m] >= i + 1);
                }
            }
            later
        }
    }
}

/// Behind the two directories an accepted grant stands for exactly these rules: in the order of
/// the policy, for each restriction whose place lies at or below the resolved `.git`, the same
/// access at the same names below the git directory and then below the common directory. No other
/// rule of the policy is carried over; among those left out is the skippable default exactly on
/// the resolved `.git`. The result gives the indices of the rules that are carried over.
pub proof fn restrictions_in_dot_git_are_carried_over_in_order(
    findings: FindingsView,
    policy: PolicyView,
    dot_git: PathView,
    dirs: GitDirsView,
    target: PathView,
    added: Seq<EntryView>,
) -> (owners: Seq<int>)
    requires
        grants(findings, policy, dot_git) == Ok::<_, QuestionView>(Some(added)),
        findings.git_dirs[(PathView {
            root: dot_git.root,
            names: dot_git.names.take(dot_git.names.len() - 1),
        })] == Some(dirs),
        findings.canonical[dot_git] == CanonicalView::Resolved(target),
    ensures
        added.len() == 2 + 2 * owners.len(),
        forall|a: int, b: int| 0 <= a < b < owners.len() ==> owners[a] < owners[b],
        forall|k: int| #![trigger policy.entries[k]]
            0 <= k < policy.entries.len() ==> (owners.contains(k) <==> policy.entries[k].access
                != FileSystemAccessMode::Write && (policy.entries[k].path matches PlaceView::Path {
                path: UriView::Native(path),
            } && (resolve(findings, path) matches Ok(Some(place)) && place.root == target.root
                && target.names.is_prefix_of(place.names) && !(policy.entries[k].skips_missing_path
                && place == target)))),
        forall|m: int|
            0 <= m < owners.len() ==> {
                let rule = policy.entries[#[trigger] owners[m]];
                &&& 0 <= owners[m] < policy.entries.len()
                &&& rule.path matches PlaceView::Path { path: UriView::Native(path) }
                &&& resolve(findings, path) matches Ok(Some(place))
                &&& added[2 + 2 * m] == (EntryView {
                    path: PlaceView::Path {
                        path: UriView::Native(
                            (PathView {
                                root: dirs.git_dir.root,
                                names: dirs.git_dir.names + place.names.skip(
                                    target.names.len() as int,
                                ),
                            }),
                        ),
                    },
                    access: rule.access,
                    skips_missing_path: false,
                })
                &&& added[3 + 2 * m] == (EntryView {
                    path: PlaceView::Path {
                        path: UriView::Native(
                            (PathView {
                                root: dirs.common_dir.root,
                                names: dirs.common_dir.names + place.names.skip(
                                    target.names.len() as int,
                                ),
                            }),
                        ),
                    },
                    access: rule.access,
                    skips_missing_path: false,
                })
            },
{
    let all = carried_from(findings, policy.entries, target, dirs, 0)->Ok_0->0;
    assert(added.len() == 2 + all.len());
    let owners = carried_owners(findings, policy.entries, target, dirs, 0, all);
    assert forall|m: int| 0 <= m < owners.len() implies {
        let rule = policy.entries[#[trigger] owners[m]];
        &&& is_carried(findings, target, rule)
        &&& added[2 + 2 * m] == moved(findings, target, rule, dirs.git_dir)
        &&& added[3 + 2 * m] == moved(findings, target, rule, dirs.common_dir)
    } by {
        assert(owners.contains(owners[m]));
        assert(added[2 + 2 * m] == all[2 * m]);
        assert(added[3 + 2 * m] == all[2 * m + 1]);
    }
    owners
}

/// A grant is accepted without another question where no pattern is unreadable and every rule of
/// the policy lets be written: it then stands for writing in the two directories and for nothing
/// else.
pub proof fn without_restrictions_a_grant_opens_the_directories_alone(
    findings: FindingsView,
    policy: PolicyView,
    dot_git: PathView,
    dirs: GitDirsView,
    target: PathView,
)
    requires
        dot_git.names.len() > 0,
        findings.read_access.contains_key((policy, dot_git)),
        findings.read_access[(policy, dot_git)] == ReadAccess::Allowed,
        findings.git_dirs.contains_key(
            (PathView {
                root: dot_git.root,
                names: dot_git.names.take(dot_git.names.len() - 1),
            }),
        ),
        findings.git_dirs[(PathView {
            root: dot_git.root,
            names: dot_git.names.take(dot_git.names.len() - 1),
        })] == Some(dirs),
        findings.canonical.contains_key(dot_git),
        findings.canonical[dot_git] == CanonicalView::Resolved(target),
        findings.globs.contains_key(policy),
        findings.globs[policy].len() == 0,
        forall|k: int|
            0 <= k < policy.entries.len() ==> (#[trigger] policy.entries[k]).access
                == FileSystemAccessMode::Write,
    ensures
        grants(findings, policy, dot_git) == Ok::<_, QuestionView>(
            Some(
                seq![
                    (EntryView {
                        path: PlaceView::Path { path: UriView::Native(dirs.git_dir) },
                        access: FileSystemAccessMode::Write,
                        skips_missing_path: false,
                    }),
                    (EntryView {
                        path: PlaceView::Path { path: UriView::Native(dirs.common_dir) },
                        access: FileSystemAccessMode::Write,
                        skips_missing_path: false,
                    }),
                ],
            ),
        ),
{
    nothing_is_carried(findings, policy.entries, target, dirs, 0);
    let opened = grants(findings, policy, dot_git)->Ok_0->0;
    assert(opened =~= seq![opened[0], opened[1]]);
}

proof fn nothing_is_carried(
    f: FindingsView,
    entries: Seq<EntryView>,
    target: PathView,
    dirs: GitDirsView,
    i: int,
)
    requires
        0 <= i,
        forall|k: int|
            0 <= k < entries.len() ==> (#[trigger] entries[k]).access
                == FileSystemAccessMode::Write,
    ensures
        carried_from(f, entries, target, dirs, i) == Ok::<_, QuestionView>(
            Some(Seq::<EntryView>::empty()),
        ),
    decreases entries.len() - i,
{
    if i < entries.len() {
        assert(entries[i].access == FileSystemAccessMode::Write);
        nothing_is_carried(f, entries, target, dirs, i + 1);
        assert(Seq::<EntryView>::empty() + Seq::<EntryView>::empty()
            =~= Seq::<EntryView>::empty());
    }
}

/// A restriction elsewhere, whose place lies neither at nor above an administrative directory and
/// neither at nor below the resolved `.git`, wherever it stands in the policy, neither refuses the
/// grant nor adds a rule: the grant stands for the same with it as without it, where the host
/// finds the `.git` as readable and the same patterns unreadable.
pub proof fn a_restriction_elsewhere_changes_nothing(
    findings: FindingsView,
    policy: PolicyView,
    longer: PolicyView,
    dot_git: PathView,
    dirs: GitDirsView,
    target: PathView,
    n: int,
    entry: EntryView,
    path: PathView,
    place: PathView,
)
    requires
        0 <= n <= policy.entries.len(),
        longer == (PolicyView { kind: policy.kind, entries: policy.entries.insert(n, entry) }),
        findings.read_access.contains_key((longer, dot_git)),
        findings.read_access.contains_key((policy, dot_git)),
        findings.read_access[(longer, dot_git)] == findings.read_access[(policy, dot_git)],
        findings.globs.contains_key(longer),
        findings.globs.contains_key(policy),
        findings.globs[longer] == findings.globs[policy],
        findings.git_dirs[(PathView {
            root: dot_git.root,
            names: dot_git.names.take(dot_git.names.len() - 1),
        })] == Some(dirs),
        findings.canonical[dot_git] == CanonicalView::Resolved(target),
        entry.access != FileSystemAccessMode::Write,
        entry.path == (PlaceView::Path { path: UriView::Native(path) }),
        resolve(findings, path) == Ok::<_, QuestionView>(Some(place)),
        !(place.root == dirs.git_dir.root && place.names.is_prefix_of(dirs.git_dir.names)),
        !(place.root == dirs.common_dir.root && place.names.is_prefix_of(dirs.common_dir.names)),
        !(place.root == target.root && target.names.is_prefix_of(place.names)),
    ensures
        grants(findings, longer, dot_git) == grants(findings, policy, dot_git),
{
    assert(target.names.is_prefix_of(target.names));
    carried_from_with(findings, policy.entries, entry, n, target, dirs, 0);
}

/// A restriction on everything, on what any process needs or by a pattern, wherever it stands in
/// the policy, is none of the grant's concern: the grant stands for the same with it as without
/// it, where the host finds the `.git` as readable and the same patterns unreadable.
pub proof fn a_restriction_on_no_single_path_changes_nothing(
    findings: FindingsView,
    policy: PolicyView,
    longer: PolicyView,
    dot_git: PathView,
    n: int,
    entry: EntryView,
)
    requires
        0 <= n <= policy.entries.len(),
        longer == (PolicyView { kind: policy.kind, entries: policy.entries.insert(n, entry) }),
        findings.read_access.contains_key((longer, dot_git)),
        findings.read_access.contains_key((policy, dot_git)),
        findings.read_access[(longer, dot_git)] == findings.read_access[(policy, dot_git)],
        findings.globs.contains_key(longer),
        findings.globs.contains_key(policy),
        findings.globs[longer] == findings.globs[policy],
        entry.access != FileSystemAccessMode::Write,
        match entry.path {
            PlaceView::GlobPattern { .. } => true,
            PlaceView::Special { value } => value == SpecialView::Root || value
                == SpecialView::Minimal,
            PlaceView::Path { .. } => false,
        },
    ensures
        grants(findings, longer, dot_git) == grants(findings, policy, dot_git),
{
    let checkout = dot_git.parent()->0;
    match (findings.git_dirs[checkout], findings.canonical[dot_git]) {
        (Some(dirs), CanonicalView::Resolved(target)) => {
            carried_from_with(findings, policy.entries, entry, n, target, dirs, 0);
        },
        _ => {},
    }
}

/// A skippable default on a path that resolves exactly to what the `.git` resolves to, wherever it
/// stands in the policy, gives way: the grant stands for the same with it as without it, where the
/// host finds the `.git` as readable and the same patterns unreadable.
pub proof fn a_skippable_default_on_dot_git_changes_nothing(
    findings: FindingsView,
    policy: PolicyView,
    longer: PolicyView,
    dot_git: PathView,
    target: PathView,
    n: int,
    entry: EntryView,
    path: PathView,
)
    requires
        0 <= n <= policy.entries.len(),
        longer == (PolicyView { kind: policy.kind, entries: policy.entries.insert(n, entry) }),
        findings.read_access.contains_key((longer, dot_git)),
        findings.read_access.contains_key((policy, dot_git)),
        findings.read_access[(longer, dot_git)] == findings.read_access[(policy, dot_git)],
        findings.globs.contains_key(longer),
        findings.globs.contains_key(policy),
        findings.globs[longer] == findings.globs[policy],
        findings.canonical[dot_git] == CanonicalView::Resolved(target),
        entry.access != FileSystemAccessMode::Write,
        entry.skips_missing_path,
        entry.path == (PlaceView::Path { path: UriView::Native(path) }),
        resolve(findings, path) == Ok::<_, QuestionView>(Some(target)),
    ensures
        grants(findings, longer, dot_git) == grants(findings, policy, dot_git),
{
    let checkout = dot_git.parent()->0;
    match findings.git_dirs[checkout] {
        Some(dirs) => carried_from_with(findings, policy.entries, entry, n, target, dirs, 0),
        None => {},
    }
}

/// A restriction is carried over from the place that its deepest ancestor leads to: where the
/// first `depth` names of its path resolve to `existing` and no longer part of the path does, its
/// place is `existing` with the remaining names behind it, and if that lies at or below the
/// resolved `.git`, an accepted grant puts the same access at the same names below both
/// administrative directories.
pub proof fn a_restriction_is_carried_over_from_its_deepest_ancestor(
    findings: FindingsView,
    policy: PolicyView,
    dot_git: PathView,
    dirs: GitDirsView,
    target: PathView,
    added: Seq<EntryView>,
    k: int,
    path: PathView,
    depth: nat,
    existing: PathView,
    suffix: Seq<Seq<u8>>,
)
    requires
        grants(findings, policy, dot_git) == Ok::<_, QuestionView>(Some(added)),
        findings.git_dirs[(PathView {
            root: dot_git.root,
            names: dot_git.names.take(dot_git.names.len() - 1),
        })] == Some(dirs),
        findings.canonical[dot_git] == CanonicalView::Resolved(target),
        0 <= k < policy.entries.len(),
        policy.entries[k].access != FileSystemAccessMode::Write,
        policy.entries[k].path == (PlaceView::Path { path: UriView::Native(path) }),
        depth <= path.names.len(),
        findings.canonical.contains_key(
            (PathView { root: path.root, names: path.names.take(depth as int) }),
        ),
        findings.canonical[(PathView { root: path.root, names: path.names.take(depth as int) })]
            == CanonicalView::Resolved(existing),
        forall|deeper: nat|
            depth < deeper <= path.names.len() ==> {
                &&& findings.canonical.contains_key(
                    (PathView {
                        root: path.root,
                        names: #[trigger] path.names.take(deeper as int),
                    }),
                )
                &&& findings.canonical[(PathView {
                    root: path.root,
                    names: path.names.take(deeper as int),
                })] == CanonicalView::Missing
            },
        existing.root == target.root,
        existing.names + path.names.skip(depth as int) == target.names + suffix,
        !policy.entries[k].skips_missing_path || suffix.len() > 0,
    ensures
        added.contains(
            (EntryView {
                path: PlaceView::Path {
                    path: UriView::Native(
                        (PathView {
                            root: dirs.git_dir.root,
                            names: dirs.git_dir.names + suffix,
                        }),
                    ),
                },
                access: policy.entries[k].access,
                skips_missing_path: false,
            }),
        ),
        added.contains(
            (EntryView {
                path: PlaceView::Path {
                    path: UriView::Native(
                        (PathView {
                            root: dirs.common_dir.root,
                            names: dirs.common_dir.names + suffix,
                        }),
                    ),
                },
                access: policy.entries[k].access,
                skips_missing_path: false,
            }),
        ),
{
    a_path_comes_to_the_place_of_its_deepest_ancestor(findings, path, depth, existing);
    let place = resolve(findings, path)->Ok_0->0;
    assert(target.names.is_prefix_of(place.names)) by {
        assert((target.names + suffix).take(target.names.len() as int) =~= target.names);
    }
    assert(place.names.skip(target.names.len() as int) =~= suffix);
    assert(place == target ==> suffix.len() == 0);
    let owners = restrictions_in_dot_git_are_carried_over_in_order(
        findings,
        policy,
        dot_git,
        dirs,
        target,
        added,
    );
    assert(owners.contains(k));
    let m = choose|m: int| 0 <= m < owners.len() && owners[m] == k;
    assert(added.contains(added[2 + 2 * m]));
    assert(added.contains(added[3 + 2 * m]));
}

/// A restriction stands above an administrative directory where its deepest ancestor does: where
/// the first `depth` names of its path resolve to `existing`, no longer part of the path does, and
/// `existing` with the remaining names behind it is the beginning of the way to such a directory,
/// the grant is refused, unless the rule is a skippable default exactly on the resolved `.git`.
pub proof fn a_restriction_above_by_its_deepest_ancestor_refuses_the_grant(
    host: FindingsView,
    policy: PolicyView,
    dot_git: PathView,
    dirs: GitDirsView,
    target: PathView,
    k: int,
    path: PathView,
    depth: nat,
    existing: PathView,
    covered: PathView,
)
    requires
        host.is_complete(),
        dot_git.names.len() > 0,
        host.git_dirs[(PathView {
            root: dot_git.root,
            names: dot_git.names.take(dot_git.names.len() - 1),
        })] == Some(dirs),
        host.canonical[dot_git] == CanonicalView::Resolved(target),
        0 <= k < policy.entries.len(),
        policy.entries[k].access != FileSystemAccessMode::Write,
        policy.entries[k].path == (PlaceView::Path { path: UriView::Native(path) }),
        depth <= path.names.len(),
        host.canonical[(PathView { root: path.root, names: path.names.take(depth as int) })]
            == CanonicalView::Resolved(existing),
        forall|deeper: nat|
            depth < deeper <= path.names.len() ==> host.canonical[(PathView {
                root: path.root,
                names: #[trigger] path.names.take(deeper as int),
            })] == CanonicalView::Missing,
        covered == dirs.git_dir || covered == dirs.common_dir,
        existing.root == covered.root,
        (existing.names + path.names.skip(depth as int)).is_prefix_of(covered.names),
        !policy.entries[k].skips_missing_path || existing.root != target.root || existing.names
            + path.names.skip(depth as int) != target.names,
    ensures
        grants(host, policy, dot_git) == Ok::<Option<Seq<EntryView>>, QuestionView>(None),
{
    every_ancestor_is_answered(host, path);
    a_path_comes_to_the_place_of_its_deepest_ancestor(host, path, depth, existing);
    a_restriction_above_a_directory_refuses_the_grant(host, policy, dot_git, dirs, target, k);
}

/// A grant elsewhere overrides a restriction that is carried over where its deepest ancestor leads
/// there: where the first `depth` names of the path that a rule lets be written resolve to
/// `existing`, no longer part of the path does, and `existing` with the remaining names behind it
/// lies at or below the place that a restriction in the resolved `.git` is carried over to, the
/// grant on the `.git` is refused.
pub proof fn a_grant_below_by_its_deepest_ancestor_overrides_a_restriction(
    host: FindingsView,
    policy: PolicyView,
    dot_git: PathView,
    dirs: GitDirsView,
    target: PathView,
    k: int,
    path: PathView,
    place: PathView,
    destination: PathView,
    c: int,
    other: PathView,
    depth: nat,
    existing: PathView,
)
    requires
        host.is_complete(),
        dot_git.names.len() > 0,
        host.git_dirs[(PathView {
            root: dot_git.root,
            names: dot_git.names.take(dot_git.names.len() - 1),
        })] == Some(dirs),
        host.canonical[dot_git] == CanonicalView::Resolved(target),
        0 <= k < policy.entries.len(),
        policy.entries[k].access != FileSystemAccessMode::Write,
        policy.entries[k].path == (PlaceView::Path { path: UriView::Native(path) }),
        resolve(host, path) == Ok::<_, QuestionView>(Some(place)),
        !(policy.entries[k].skips_missing_path && place == target),
        place.root == target.root,
        target.names.is_prefix_of(place.names),
        destination == dirs.git_dir || destination == dirs.common_dir,
        0 <= c < policy.entries.len(),
        policy.entries[c].access == FileSystemAccessMode::Write,
        policy.entries[c].path == (PlaceView::Path { path: UriView::Native(other) }),
        depth <= other.names.len(),
        host.canonical[(PathView { root: other.root, names: other.names.take(depth as int) })]
            == CanonicalView::Resolved(existing),
        forall|deeper: nat|
            depth < deeper <= other.names.len() ==> host.canonical[(PathView {
                root: other.root,
                names: #[trigger] other.names.take(deeper as int),
            })] == CanonicalView::Missing,
        existing.root == destination.root,
        (destination.names + place.names.skip(target.names.len() as int)).is_prefix_of(
            existing.names + other.names.skip(depth as int),
        ),
    ensures
        grants(host, policy, dot_git) == Ok::<Option<Seq<EntryView>>, QuestionView>(None),
{
    every_ancestor_is_answered(host, other);
    a_path_comes_to_the_place_of_its_deepest_ancestor(host, other, depth, existing);
    a_restriction_that_would_be_overridden_refuses_the_grant(
        host,
        policy,
        dot_git,
        dirs,
        target,
        k,
        path,
        place,
        destination,
        c,
    );
}

proof fn every_ancestor_is_answered(host: FindingsView, path: PathView)
    requires
        host.is_complete(),
    ensures
        forall|depth: nat|
            host.canonical.contains_key(
                (PathView { root: path.root, names: #[trigger] path.names.take(depth as int) }),
            ),
{
    assert forall|depth: nat|
        host.canonical.contains_key(
            (PathView { root: path.root, names: #[trigger] path.names.take(depth as int) }),
        ) by {
        let ancestor = PathView { root: path.root, names: path.names.take(depth as int) };
        assert(host.answers(QuestionView::Canonicalize { path: ancestor }));
    }
}

} // verus!
