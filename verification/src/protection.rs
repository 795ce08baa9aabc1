//! Laws of a whole expansion: what it grants takes effect, and opens no restricted place.

use vstd::prelude::*;
use crate::findings::{CanonicalView, FindingsView, GitDirsView, QuestionView};
use crate::laws::{
    adds_new_rules, adds_new_rules_twice, authorizes, expand_from_adds, grants_lie_in, lies_in,
    with_entries_adds,
};
use crate::model::{
    carried_from, covers_destination, expand, expand_entry, expand_from, granted_dot_git, grants,
    resolve_uri, with_entries, write_granted_below,
};
use crate::path::PathView;
use crate::permissions::{
    plain_entry, EntryView, FileSystemAccessMode, FileSystemSandboxKind, PlaceView, PolicyView,
    UriView,
};
use crate::restrictions::{no_write_below, restrictions_survive};

verus! {

/// An accepted grant opens both administrative directories of the worktree.
pub proof fn an_accepted_grant_opens_both_directories(
    findings: FindingsView,
    policy: PolicyView,
    dot_git: PathView,
    added: Seq<EntryView>,
)
    requires
        grants(findings, policy, dot_git) == Ok::<_, QuestionView>(Some(added)),
    ensures
        dot_git.parent() matches Some(checkout) && (findings.ask_git_dirs(checkout) matches Ok(
            Some(dirs),
        ) && added.len() >= 2 && added[0] == plain_entry(dirs.git_dir, FileSystemAccessMode::Write)
            && added[1] == plain_entry(dirs.common_dir, FileSystemAccessMode::Write)),
{
}

/// `reached` lies on the way from `policy` to `expanded`, and for it the grant on `dot_git` was
/// either refused, or accepted and all its rules stand in `expanded`.
pub open spec fn is_honored_by(
    findings: FindingsView,
    policy: PolicyView,
    expanded: PolicyView,
    dot_git: PathView,
    reached: PolicyView,
) -> bool {
    &&& adds_new_rules(policy.entries, reached.entries)
    &&& adds_new_rules(reached.entries, expanded.entries)
    &&& reached.kind == policy.kind
    &&& grants(findings, reached, dot_git) matches Ok(granted)
    &&& granted matches Some(added) ==> forall|j: int|
        0 <= j < added.len() ==> expanded.entries.contains(#[trigger] added[j])
}

/// The grant on `dot_git` was considered on the way from `policy` to `expanded`, and honored
/// unless it was refused.
pub open spec fn is_honored(
    findings: FindingsView,
    policy: PolicyView,
    expanded: PolicyView,
    dot_git: PathView,
) -> bool {
    exists|reached: PolicyView|
        is_honored_by(findings, policy, expanded, dot_git, reached)
}

proof fn expand_from_honors(
    f: FindingsView,
    original: PolicyView,
    policy: PolicyView,
    i: int,
    k: int,
    dot_git: PathView,
)
    requires
        0 <= i <= k < original.entries.len(),
        policy.kind == original.kind,
        adds_new_rules(original.entries, policy.entries),
        expand_from(f, original, policy, i) is Ok,
        granted_dot_git(original.entries[k]) == Some(dot_git),
        f.ask_can_write(original, dot_git) == Ok::<_, QuestionView>(true),
    ensures
        is_honored(f, original, expand_from(f, original, policy, i)->Ok_0, dot_git),
    decreases k - i,
{
    let expanded = expand_from(f, original, policy, i)->Ok_0;
    let next = expand_entry(f, original, policy, original.entries[i])->Ok_0;
    expand_from_adds(f, original, policy, i);
    expand_from_adds(f, original, next, i + 1);
    if i < k {
        match granted_dot_git(original.entries[i]) {
            None => {},
            Some(other) => match grants(f, policy, other) {
                Ok(Some(added)) => {
                    with_entries_adds(policy.entries, added);
                    adds_new_rules_twice(
                        original.entries,
                        policy.entries,
                        with_entries(policy.entries, added),
                    );
                },
                _ => {},
            },
        }
        expand_from_honors(f, original, next, i + 1, k, dot_git);
    } else {
        match grants(f, policy, dot_git) {
            Ok(Some(added)) => {
                with_entries_adds(policy.entries, added);
                assert forall|j: int| 0 <= j < added.len() implies expanded.entries.contains(
                    #[trigger] added[j],
                ) by {
                    assert(next.entries.contains(added[j]));
                    let m = choose|m: int|
                        0 <= m < next.entries.len() && next.entries[m] == added[j];
                    assert(expanded.entries.take(next.entries.len() as int)[m] == next.entries[m]);
                    assert(expanded.entries[m] == added[j]);
                }
            },
            _ => {},
        }
        assert(is_honored_by(f, original, expanded, dot_git, policy));
    }
}

/// Every effective explicit write grant on a `.git` is honored: unless it is refused, all the
/// rules that it stands for stand in the expanded policy.
pub proof fn effective_grants_are_honored(
    findings: FindingsView,
    policy: PolicyView,
    k: int,
    dot_git: PathView,
)
    requires
        policy.kind == FileSystemSandboxKind::Restricted,
        0 <= k < policy.entries.len(),
        granted_dot_git(policy.entries[k]) == Some(dot_git),
        findings.ask_can_write(policy, dot_git) == Ok::<_, QuestionView>(true),
        expand(findings, policy) is Ok,
    ensures
        is_honored(findings, policy, expand(findings, policy)->Ok_0, dot_git),
{
    assert(policy.entries.take(policy.entries.len() as int) =~= policy.entries);
    expand_from_honors(findings, policy, policy, 0, k, dot_git);
}

/// The rule lets a path of this host be written.
pub open spec fn opened_path(entry: EntryView) -> Option<PathView> {
    match entry.path {
        PlaceView::Path { path: UriView::Native(path) } => if entry.access
            == FileSystemAccessMode::Write {
            Some(path)
        } else {
            None
        },
        _ => None,
    }
}

/// The later rule is owed to a grant of the policy on the `.git` that resolves to `place`.
pub open spec fn is_granted_at(
    findings: FindingsView,
    policy: PolicyView,
    later: EntryView,
    place: PathView,
) -> bool {
    exists|g: int|
        {
            &&& 0 <= g < policy.entries.len()
            &&& authorizes(findings, policy, #[trigger] policy.entries[g], later)
            &&& findings.ask_canonical(granted_dot_git(policy.entries[g])->0) == Ok::<
                _,
                QuestionView,
            >(CanonicalView::Resolved(place))
        }
}

/// If the later rule opens a path, that path lies neither at nor below a place that the earlier
/// rule restricts. The one exception is a skippable default on the resolved `.git` whose grant
/// the later rule is owed to.
pub open spec fn spares_restriction(
    findings: FindingsView,
    policy: PolicyView,
    earlier: EntryView,
    later: EntryView,
) -> bool {
    opened_path(later) matches Some(opened) ==> {
        earlier.access != FileSystemAccessMode::Write ==> (earlier.path matches PlaceView::Path {
            path: uri,
        } ==> {
            &&& resolve_uri(findings, uri) matches Ok(Some(place))
            &&& !opened.starts_with(place) || earlier.skips_missing_path && is_granted_at(
                findings,
                policy,
                later,
                place,
            )
        })
    }
}

/// The earlier rule lets no place be written, or one that, resolved, lies neither at nor below
/// `restricted`.
pub open spec fn resolves_outside(
    findings: FindingsView,
    earlier: EntryView,
    restricted: PathView,
) -> bool {
    earlier.access == FileSystemAccessMode::Write ==> (earlier.path matches PlaceView::Path {
        path: uri,
    } ==> {
        &&& resolve_uri(findings, uri) matches Ok(Some(place))
        &&& !place.starts_with(restricted)
    })
}

/// The earlier rule lets a path be written that itself lies neither at nor below `restricted`.
pub open spec fn stands_outside(earlier: EntryView, restricted: PathView) -> bool {
    opened_path(earlier) matches Some(path) && !path.starts_with(restricted)
}

/// The path that a rule restricts.
pub open spec fn restricted_path(entry: EntryView) -> Option<PathView> {
    match entry.path {
        PlaceView::Path { path: UriView::Native(path) } => if entry.access
            != FileSystemAccessMode::Write {
            Some(path)
        } else {
            None
        },
        _ => None,
    }
}

/// Every rule behind those of the policy respects all the rules before it. What it opens is not
/// restricted by them. What it restricts is not overridden by them through a more specific
/// grant: for a rule of the policy its resolved place counts, for one behind them its path, a
/// directory that the host itself has named, may count instead.
pub open spec fn is_orderly(
    findings: FindingsView,
    policy: PolicyView,
    entries: Seq<EntryView>,
) -> bool {
    forall|k: int, j: int|
        #![trigger entries[k], entries[j]]
        0 <= k < j < entries.len() && policy.entries.len() <= j ==> {
            &&& spares_restriction(findings, policy, entries[k], entries[j])
            &&& restricted_path(entries[j]) matches Some(restricted) ==> {
                ||| resolves_outside(findings, entries[k], restricted)
                ||| policy.entries.len() <= k && stands_outside(entries[k], restricted)
            }
        }
}

/// The rule is a restriction below a destination that neither covers a destination nor is
/// overridden by a rule of `entries`.
spec fn well_projected(
    f: FindingsView,
    entries: Seq<EntryView>,
    dirs: GitDirsView,
    entry: EntryView,
) -> bool {
    match entry.path {
        PlaceView::Path { path: UriView::Native(path) } => {
            &&& entry.access != FileSystemAccessMode::Write
            &&& !covers_destination(dirs, path)
            &&& write_granted_below(f, entries, path, 0) == Ok::<_, QuestionView>(false)
        },
        _ => false,
    }
}

proof fn carried_from_well_projected(
    f: FindingsView,
    entries: Seq<EntryView>,
    dot_git: PathView,
    dirs: GitDirsView,
    i: int,
)
    requires
        0 <= i,
    ensures
        carried_from(f, entries, dot_git, dirs, i) matches Ok(Some(rules)) ==> forall|m: int|
            0 <= m < rules.len() ==> well_projected(f, entries, dirs, #[trigger] rules[m]),
    decreases entries.len() - i,
{
    if i < entries.len() {
        carried_from_well_projected(f, entries, dot_git, dirs, i + 1);
    }
}

/// The first `n` rules of an accepted grant keep a policy orderly.
proof fn with_entries_orderly(
    f: FindingsView,
    original: PolicyView,
    policy: PolicyView,
    g: int,
    dot_git: PathView,
    added: Seq<EntryView>,
    n: nat,
)
    requires
        0 <= g < original.entries.len(),
        granted_dot_git(original.entries[g]) == Some(dot_git),
        f.ask_can_write(original, dot_git) == Ok::<_, QuestionView>(true),
        grants(f, policy, dot_git) == Ok::<_, QuestionView>(Some(added)),
        is_orderly(f, original, policy.entries),
        original.entries.len() <= policy.entries.len(),
        n <= added.len(),
    ensures
        is_orderly(f, original, with_entries(policy.entries, added.take(n as int))),
    decreases n,
{
    if n == 0 {
        assert(added.take(0) =~= seq![]);
    } else {
        let m = (n - 1) as nat;
        with_entries_orderly(f, original, policy, g, dot_git, added, m);
        assert(added.take(n as int).drop_last() =~= added.take(m as int));
        let before = with_entries(policy.entries, added.take(m as int));
        let after = with_entries(policy.entries, added.take(n as int));
        let entry = added[m as int];
        assert(added.take(n as int).last() == entry);
        if !before.contains(entry) {
            with_entries_adds(policy.entries, added.take(m as int));
            grants_lie_in(f, policy, dot_git);
            let dirs = f.git_dirs[dot_git.parent()->0]->0;
            let target = f.canonical[dot_git]->Resolved_0;
            carried_from_well_projected(f, policy.entries, target, dirs, 0);
            let restrictions = carried_from(f, policy.entries, target, dirs, 0)->Ok_0->0;
            assert(is_granted_at(f, original, entry, target)) by {
                assert(grants(f, policy, dot_git)->Ok_0->0 == added);
                assert(lies_in(dirs, added[m as int]));
                assert(authorizes(f, original, original.entries[g], entry));
            }
            if m >= 2 {
                assert(entry == restrictions[m - 2]);
                assert(well_projected(f, policy.entries, dirs, entry));
            }
            assert forall|k: int| 0 <= k < before.len() implies spares_restriction(
                f,
                original,
                #[trigger] before[k],
                entry,
            ) && (restricted_path(entry) matches Some(restricted) ==> resolves_outside(
                f,
                before[k],
                restricted,
            ) || original.entries.len() <= k && stands_outside(before[k], restricted)) by {
                if k < policy.entries.len() {
                    assert(before.take(policy.entries.len() as int)[k] == before[k]);
                    assert(before[k] == policy.entries[k]);
                    if m < 2 && before[k].access != FileSystemAccessMode::Write {
                        restrictions_survive(f, policy, dot_git, added, k);
                    }
                    if m >= 2 && before[k].access == FileSystemAccessMode::Write {
                        let restricted = entry.path->path->Native_0;
                        no_write_below(f, policy.entries, restricted, 0, k);
                    }
                } else {
                    assert(added.take(m as int).contains(before[k]));
                    let a = choose|a: int|
                        0 <= a < added.take(m as int).len() && added.take(m as int)[a]
                            == before[k];
                    assert(added[a] == before[k]);
                    if a >= 2 {
                        assert(added[a] == restrictions[a - 2]);
                    }
                }
            }
            assert(after == before.push(entry));
        }
    }
}

proof fn expand_from_orderly(
    f: FindingsView,
    original: PolicyView,
    policy: PolicyView,
    i: int,
)
    requires
        0 <= i,
        original.entries.len() <= policy.entries.len(),
        is_orderly(f, original, policy.entries),
    ensures
        expand_from(f, original, policy, i) matches Ok(expanded) ==> is_orderly(
            f,
            original,
            expanded.entries,
        ),
    decreases original.entries.len() - i,
{
    if i < original.entries.len() {
        match expand_entry(f, original, policy, original.entries[i]) {
            Err(_) => {},
            Ok(next) => {
                match granted_dot_git(original.entries[i]) {
                    None => {},
                    Some(dot_git) => match grants(f, policy, dot_git) {
                        Ok(Some(added)) => {
                            if f.ask_can_write(original, dot_git) == Ok::<_, QuestionView>(true) {
                                with_entries_adds(policy.entries, added);
                                with_entries_orderly(
                                    f,
                                    original,
                                    policy,
                                    i,
                                    dot_git,
                                    added,
                                    added.len(),
                                );
                                assert(added.take(added.len() as int) =~= added);
                            }
                        },
                        _ => {},
                    },
                }
                expand_from_orderly(f, original, next, i + 1);
            },
        }
    }
}

/// No rule that an expansion adds opens a place that a rule before it restricts, be that a rule
/// of the policy or one that the expansion has added for another worktree; only the skippable
/// default on the `.git` that is granted gives way. And no restriction that it adds is overridden
/// by a grant before it.
pub proof fn restricted_places_stay_closed(findings: FindingsView, policy: PolicyView)
    ensures
        expand(findings, policy) matches Ok(expanded) ==> is_orderly(
            findings,
            policy,
            expanded.entries,
        ),
{
    expand_from_orderly(findings, policy, policy, 0);
}

} // verus!
