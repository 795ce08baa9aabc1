//! Laws of an expansion: what it keeps, what it may add, and when it adds nothing.

use vstd::prelude::*;
use crate::findings::{FindingsView, GitDirsView, QuestionView};
use crate::model::{
    carried_from, expand, expand_entry, expand_from, granted_dot_git, grants, resolve_uri,
    with_entries,
};
use crate::path::PathView;
use crate::permissions::{
    EntryView, FileSystemAccessMode, FileSystemSandboxKind, PlaceView, PolicyView, UriView,
};

verus! {

/// `longer` starts with the rules of `entries`, and no rule behind them repeats an earlier one.
pub open spec fn adds_new_rules(entries: Seq<EntryView>, longer: Seq<EntryView>) -> bool {
    &&& entries.len() <= longer.len()
    &&& longer.take(entries.len() as int) == entries
    &&& forall|i: int, j: int|
        #![trigger longer[i], longer[j]]
        0 <= i < j < longer.len() && entries.len() <= j ==> longer[i] != longer[j]
}

/// Adding new rules twice adds new rules.
pub(crate) proof fn adds_new_rules_twice(a: Seq<EntryView>, b: Seq<EntryView>, c: Seq<EntryView>)
    requires
        adds_new_rules(a, b),
        adds_new_rules(b, c),
    ensures
        adds_new_rules(a, c),
{
    assert(c.take(a.len() as int) =~= b.take(a.len() as int)) by {
        assert forall|i: int| 0 <= i < a.len() implies c[i] == b[i] by {
            assert(c.take(b.len() as int)[i] == b[i]);
        }
    }
    assert forall|i: int, j: int|
        #![trigger c[i], c[j]]
        0 <= i < j < c.len() && a.len() <= j implies c[i] != c[j] by {
        if j < b.len() {
            assert(c.take(b.len() as int)[i] == b[i]);
            assert(c.take(b.len() as int)[j] == b[j]);
        }
    }
}

/// Taking rules in adds new rules: all of those that are taken in stand there then, and nothing
/// else is added.
pub(crate) proof fn with_entries_adds(entries: Seq<EntryView>, added: Seq<EntryView>)
    ensures
        adds_new_rules(entries, with_entries(entries, added)),
        forall|k: int|
            0 <= k < added.len() ==> with_entries(entries, added).contains(#[trigger] added[k]),
        forall|j: int|
            entries.len() <= j < with_entries(entries, added).len() ==> added.contains(
                #[trigger] with_entries(entries, added)[j],
            ),
    decreases added.len(),
{
    if added.len() == 0 {
        assert(entries.take(entries.len() as int) =~= entries);
    } else {
        let before = with_entries(entries, added.drop_last());
        let after = with_entries(entries, added);
        with_entries_adds(entries, added.drop_last());
        assert(adds_new_rules(before, after)) by {
            assert(before.take(before.len() as int) =~= before);
            assert(after.take(before.len() as int) =~= before);
        }
        adds_new_rules_twice(entries, before, after);
        assert forall|k: int| 0 <= k < added.len() implies after.contains(#[trigger] added[k]) by {
            if k < added.len() - 1 {
                assert(before.contains(added.drop_last()[k]));
                let j = choose|j: int| 0 <= j < before.len() && before[j] == added[k];
                assert(after[j] == before[j]);
            } else if !before.contains(added[k]) {
                assert(after[before.len() as int] == added[k]);
            }
        }
        assert forall|j: int| entries.len() <= j < after.len() implies added.contains(
            #[trigger] after[j],
        ) by {
            if j < before.len() {
                assert(after[j] == before[j]);
                assert(added.drop_last().contains(before[j]));
                let k = choose|k: int|
                    0 <= k < added.drop_last().len() && added.drop_last()[k] == before[j];
                assert(added[k] == after[j]);
            } else {
                assert(added[added.len() - 1] == after[j]);
            }
        }
    }
}

/// Expanding from index `i` on adds new rules.
pub(crate) proof fn expand_from_adds(
    f: FindingsView,
    original: PolicyView,
    policy: PolicyView,
    i: int,
)
    requires
        0 <= i,
    ensures
        expand_from(f, original, policy, i) matches Ok(expanded) ==> {
            &&& expanded.kind == policy.kind
            &&& adds_new_rules(policy.entries, expanded.entries)
        },
    decreases original.entries.len() - i,
{
    assert(policy.entries.take(policy.entries.len() as int) =~= policy.entries);
    if i < original.entries.len() {
        match expand_entry(f, original, policy, original.entries[i]) {
            Err(_) => {},
            Ok(next) => {
                expand_from_adds(f, original, next, i + 1);
                match granted_dot_git(original.entries[i]) {
                    None => {},
                    Some(dot_git) => match grants(f, policy, dot_git) {
                        Ok(Some(added)) => {
                            with_entries_adds(policy.entries, added);
                        },
                        _ => {},
                    },
                }
                match expand_from(f, original, next, i + 1) {
                    Ok(expanded) => {
                        adds_new_rules_twice(policy.entries, next.entries, expanded.entries);
                    },
                    Err(_) => {},
                }
            },
        }
    }
}

/// An expansion keeps every rule of the policy, in its place, and only adds rules behind them,
/// none of which stood in the policy before and none of which it adds twice.
pub proof fn rules_are_only_added(findings: FindingsView, policy: PolicyView)
    ensures
        expand(findings, policy) matches Ok(expanded) ==> {
            &&& expanded.kind == policy.kind
            &&& adds_new_rules(policy.entries, expanded.entries)
        },
{
    assert(policy.entries.take(policy.entries.len() as int) =~= policy.entries);
    expand_from_adds(findings, policy, policy, 0);
}

/// A policy that does not confine the process stays as it is, and nothing is asked about it.
pub proof fn an_unconfined_policy_stays(findings: FindingsView, policy: PolicyView)
    requires
        policy.kind != FileSystemSandboxKind::Restricted,
    ensures
        expand(findings, policy) == Ok::<_, QuestionView>(policy),
{
}

/// The rule is no explicit write grant on a `.git`, or the grant is not effective, or it is
/// refused.
pub open spec fn brings_nothing(
    findings: FindingsView,
    policy: PolicyView,
    entry: EntryView,
) -> bool {
    granted_dot_git(entry) matches Some(dot_git) ==> {
        ||| findings.ask_can_write(policy, dot_git) == Ok::<_, QuestionView>(false)
        ||| findings.ask_can_write(policy, dot_git) == Ok::<_, QuestionView>(true) && grants(
            findings,
            policy,
            dot_git,
        ) == Ok::<Option<Seq<EntryView>>, QuestionView>(None)
    }
}

proof fn expand_from_stays(f: FindingsView, policy: PolicyView, i: int)
    requires
        0 <= i,
        forall|k: int|
            i <= k < policy.entries.len() ==> brings_nothing(
                f,
                policy,
                #[trigger] policy.entries[k],
            ),
    ensures
        expand_from(f, policy, policy, i) == Ok::<_, QuestionView>(policy),
    decreases policy.entries.len() - i,
{
    if i < policy.entries.len() {
        assert(brings_nothing(f, policy, policy.entries[i]));
        expand_from_stays(f, policy, i + 1);
    }
}

/// Where every explicit write grant on a `.git` is without effect or refused, the policy stays
/// as it is.
pub proof fn refused_grants_change_nothing(findings: FindingsView, policy: PolicyView)
    requires
        forall|k: int|
            0 <= k < policy.entries.len() ==> brings_nothing(
                findings,
                policy,
                #[trigger] policy.entries[k],
            ),
    ensures
        expand(findings, policy) == Ok::<_, QuestionView>(policy),
{
    expand_from_stays(findings, policy, 0);
}

/// Without an explicit write grant on a `.git` the policy stays as it is, whatever the host
/// could say, and nothing is asked.
pub proof fn without_an_explicit_grant_nothing_changes(findings: FindingsView, policy: PolicyView)
    requires
        forall|k: int|
            0 <= k < policy.entries.len() ==> granted_dot_git(
                #[trigger] policy.entries[k],
            ) is None,
    ensures
        expand(findings, policy) == Ok::<_, QuestionView>(policy),
{
    refused_grants_change_nothing(findings, policy);
}

proof fn expand_from_past_others(
    f: FindingsView,
    original: PolicyView,
    policy: PolicyView,
    i: int,
)
    requires
        0 <= i,
        forall|k: int|
            i <= k < original.entries.len() ==> granted_dot_git(
                #[trigger] original.entries[k],
            ) is None,
    ensures
        expand_from(f, original, policy, i) == Ok::<_, QuestionView>(policy),
    decreases original.entries.len() - i,
{
    if i < original.entries.len() {
        assert(granted_dot_git(original.entries[i]) is None);
        expand_from_past_others(f, original, policy, i + 1);
    }
}

proof fn expand_from_up_to(f: FindingsView, policy: PolicyView, i: int, only: int)
    requires
        0 <= i <= only < policy.entries.len(),
        forall|k: int|
            0 <= k < policy.entries.len() && k != only ==> granted_dot_git(
                #[trigger] policy.entries[k],
            ) is None,
    ensures
        expand_from(f, policy, policy, i) == expand_entry(
            f,
            policy,
            policy,
            policy.entries[only],
        ),
    decreases only - i,
{
    if i < only {
        assert(granted_dot_git(policy.entries[i]) is None);
        expand_from_up_to(f, policy, i + 1, only);
    } else {
        match expand_entry(f, policy, policy, policy.entries[only]) {
            Ok(next) => expand_from_past_others(f, policy, next, only + 1),
            Err(_) => {},
        }
    }
}

/// Where a confined policy holds one explicit write grant on a `.git`, that grant alone decides:
/// if it is effective, the policy gains exactly the rules that the grant stands for.
pub proof fn a_single_grant_decides(
    findings: FindingsView,
    policy: PolicyView,
    only: int,
    dot_git: PathView,
    added: Seq<EntryView>,
)
    requires
        policy.kind == FileSystemSandboxKind::Restricted,
        0 <= only < policy.entries.len(),
        granted_dot_git(policy.entries[only]) == Some(dot_git),
        forall|k: int|
            0 <= k < policy.entries.len() && k != only ==> granted_dot_git(
                #[trigger] policy.entries[k],
            ) is None,
        findings.ask_can_write(policy, dot_git) == Ok::<_, QuestionView>(true),
        grants(findings, policy, dot_git) == Ok::<_, QuestionView>(Some(added)),
    ensures
        expand(findings, policy) == Ok::<_, QuestionView>(
            (PolicyView { kind: policy.kind, entries: with_entries(policy.entries, added) }),
        ),
        forall|k: int|
            0 <= k < added.len() ==> with_entries(policy.entries, added).contains(
                #[trigger] added[k],
            ),
        forall|j: int|
            policy.entries.len() <= j < with_entries(policy.entries, added).len()
                ==> added.contains(#[trigger] with_entries(policy.entries, added)[j]),
{
    expand_from_up_to(findings, policy, 0, only);
    with_entries_adds(policy.entries, added);
}

/// The rule is a firm one, it applies at or below an administrative directory, and it lets be
/// written only the directory as a whole.
pub open spec fn lies_in(dirs: GitDirsView, entry: EntryView) -> bool {
    match entry.path {
        PlaceView::Path { path: UriView::Native(path) } => {
            &&& !entry.skips_missing_path
            &&& path.starts_with(dirs.git_dir) || path.starts_with(dirs.common_dir)
            &&& entry.access == FileSystemAccessMode::Write ==> path == dirs.git_dir || path
                == dirs.common_dir
        },
        _ => false,
    }
}

/// The rule is an effective write grant on the `.git` of a linked worktree, and `entry` lies in
/// the administrative directories of that worktree.
pub open spec fn authorizes(
    findings: FindingsView,
    policy: PolicyView,
    rule: EntryView,
    entry: EntryView,
) -> bool {
    &&& granted_dot_git(rule) matches Some(dot_git)
    &&& findings.ask_can_write(policy, dot_git) == Ok::<_, QuestionView>(true)
    &&& dot_git.parent() matches Some(checkout)
    &&& findings.ask_git_dirs(checkout) matches Ok(Some(dirs))
    &&& lies_in(dirs, entry)
}

/// Some rule of the policy authorizes `entry`.
pub open spec fn is_owed(findings: FindingsView, policy: PolicyView, entry: EntryView) -> bool {
    exists|k: int|
        0 <= k < policy.entries.len() && authorizes(
            findings,
            policy,
            #[trigger] policy.entries[k],
            entry,
        )
}

proof fn join_lies_below(base: PathView, suffix: Seq<Seq<u8>>)
    ensures
        base.join(suffix).starts_with(base),
{
    assert(base.join(suffix).names.take(base.names.len() as int) =~= base.names);
}

proof fn carried_lies_in(
    f: FindingsView,
    entries: Seq<EntryView>,
    dot_git: PathView,
    dirs: GitDirsView,
    i: int,
)
    requires
        0 <= i,
    ensures
        carried_from(f, entries, dot_git, dirs, i) matches Ok(Some(rules)) ==> forall|k: int|
            0 <= k < rules.len() ==> lies_in(dirs, #[trigger] rules[k]),
    decreases entries.len() - i,
{
    if i < entries.len() {
        carried_lies_in(f, entries, dot_git, dirs, i + 1);
        match entries[i].path {
            PlaceView::Path { path } => match resolve_uri(f, path) {
                Ok(Some(place)) => {
                    join_lies_below(dirs.git_dir, place.suffix_below(dot_git));
                    join_lies_below(dirs.common_dir, place.suffix_below(dot_git));
                },
                _ => {},
            },
            _ => {},
        }
    }
}

/// The rules that a grant stands for lie in the administrative directories of its worktree.
pub(crate) proof fn grants_lie_in(f: FindingsView, policy: PolicyView, dot_git: PathView)
    ensures
        grants(f, policy, dot_git) matches Ok(Some(added)) ==> {
            &&& dot_git.parent() matches Some(checkout)
            &&& f.ask_git_dirs(checkout) matches Ok(Some(dirs))
            &&& forall|k: int| 0 <= k < added.len() ==> lies_in(dirs, #[trigger] added[k])
        },
{
    match grants(f, policy, dot_git) {
        Ok(Some(added)) => {
            let dirs = f.git_dirs[dot_git.parent()->0]->0;
            let target = f.canonical[dot_git]->Resolved_0;
            carried_lies_in(f, policy.entries, target, dirs, 0);
            assert(dirs.git_dir.names.take(dirs.git_dir.names.len() as int)
                =~= dirs.git_dir.names);
            assert(dirs.common_dir.names.take(dirs.common_dir.names.len() as int)
                =~= dirs.common_dir.names);
            let restrictions = carried_from(f, policy.entries, target, dirs, 0)->Ok_0->0;
            assert forall|k: int| 0 <= k < added.len() implies lies_in(
                dirs,
                #[trigger] added[k],
            ) by {
                if k >= 2 {
                    assert(added[k] == restrictions[k - 2]);
                }
            }
        },
        _ => {},
    }
}

proof fn expand_from_authorized(f: FindingsView, original: PolicyView, policy: PolicyView, i: int)
    requires
        0 <= i,
        original.entries.len() <= policy.entries.len(),
        forall|j: int|
            original.entries.len() <= j < policy.entries.len() ==> is_owed(
                f,
                original,
                #[trigger] policy.entries[j],
            ),
    ensures
        expand_from(f, original, policy, i) matches Ok(expanded) ==> forall|j: int|
            original.entries.len() <= j < expanded.entries.len() ==> is_owed(
                f,
                original,
                #[trigger] expanded.entries[j],
            ),
    decreases original.entries.len() - i,
{
    if i < original.entries.len() {
        match expand_entry(f, original, policy, original.entries[i]) {
            Err(_) => {},
            Ok(next) => {
                match granted_dot_git(original.entries[i]) {
                    None => {},
                    Some(dot_git) => match grants(f, policy, dot_git) {
                        Ok(Some(added)) => {
                            grants_lie_in(f, policy, dot_git);
                            with_entries_adds(policy.entries, added);
                            if f.ask_can_write(original, dot_git) == Ok::<_, QuestionView>(true) {
                                assert forall|j: int|
                                    original.entries.len() <= j
                                        < next.entries.len() implies is_owed(
                                    f,
                                    original,
                                    #[trigger] next.entries[j],
                                ) by {
                                    if j < policy.entries.len() {
                                        assert(next.entries.take(policy.entries.len() as int)[j]
                                            == next.entries[j]);
                                        assert(policy.entries[j] == next.entries[j]);
                                    } else {
                                        assert(added.contains(next.entries[j]));
                                        assert(authorizes(
                                            f,
                                            original,
                                            original.entries[i],
                                            next.entries[j],
                                        ));
                                    }
                                }
                            }
                        },
                        _ => {},
                    },
                }
                expand_from_authorized(f, original, next, i + 1);
            },
        }
    }
}

/// Every rule that an expansion adds is owed to an effective explicit write grant on the `.git`
/// of a linked worktree, applies at or below one of its two administrative directories, and
/// lets nothing else be written than those directories: the source checkout is not opened.
pub proof fn only_administrative_directories_are_opened(
    findings: FindingsView,
    policy: PolicyView,
)
    ensures
        expand(findings, policy) matches Ok(expanded) ==> forall|j: int|
            policy.entries.len() <= j < expanded.entries.len() ==> is_owed(
                findings,
                policy,
                #[trigger] expanded.entries[j],
            ),
{
    expand_from_authorized(findings, policy, policy, 0);
}

} // verus!
