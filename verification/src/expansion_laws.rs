//! What an expansion makes of a policy, rule by rule, in terms of bytes and fields.

use vstd::prelude::*;
use crate::findings::{FindingsView, QuestionView};
use crate::laws::{
    authorizes, is_owed, only_administrative_directories_are_opened, rules_are_only_added,
    without_an_explicit_grant_nothing_changes,
};
use crate::model::{expand, expand_entry, expand_from, granted_dot_git, grants, with_entries};
use crate::path::PathView;
use crate::permissions::{
    EntryView, FileSystemAccessMode, FileSystemSandboxKind, PlaceView, PolicyView, UriView,
};

verus! {

/// A policy in which no rule lets be written exactly a native path with `.git` as its last name
/// stays as it is, whatever the host could say, and nothing is asked: a name that only ends in
/// `.git`, such as that of a bare repository, does not count.
pub proof fn only_a_path_that_ends_in_dot_git_counts(findings: FindingsView, policy: PolicyView)
    requires
        forall|k: int| #![trigger policy.entries[k]]
            0 <= k < policy.entries.len() ==> (policy.entries[k].path matches PlaceView::Path {
                path: UriView::Native(path),
            } ==> policy.entries[k].access != FileSystemAccessMode::Write || path.names.len() == 0
                || path.names[path.names.len() - 1] != seq![0x2eu8, 0x67u8, 0x69u8, 0x74u8]),
    ensures
        expand(findings, policy) == Ok::<_, QuestionView>(policy),
{
    without_an_explicit_grant_nothing_changes(findings, policy);
}

/// The first rule of a confined policy that lets be written a native path with `.git` as its last
/// name is asked about before anything else: whether the policy as it was handed in lets that path
/// be written.
pub proof fn the_first_explicit_grant_is_asked_about(
    findings: FindingsView,
    policy: PolicyView,
    k: int,
    path: PathView,
)
    requires
        policy.kind == FileSystemSandboxKind::Restricted,
        0 <= k < policy.entries.len(),
        forall|j: int| #![trigger policy.entries[j]]
            0 <= j < k ==> (policy.entries[j].path matches PlaceView::Path {
                path: UriView::Native(other),
            } ==> policy.entries[j].access != FileSystemAccessMode::Write || other.names.len() == 0
                || other.names[other.names.len() - 1] != seq![0x2eu8, 0x67u8, 0x69u8, 0x74u8]),
        policy.entries[k].access == FileSystemAccessMode::Write,
        policy.entries[k].path == (PlaceView::Path { path: UriView::Native(path) }),
        path.names.len() > 0,
        path.names[path.names.len() - 1] == seq![0x2eu8, 0x67u8, 0x69u8, 0x74u8],
        !findings.can_write.contains_key((policy, path)),
    ensures
        expand(findings, policy) == Err::<PolicyView, _>(QuestionView::CanWrite { policy, path }),
{
    past_other_rules(findings, policy, 0, k);
}

proof fn past_other_rules(f: FindingsView, policy: PolicyView, i: int, k: int)
    requires
        0 <= i <= k < policy.entries.len(),
        forall|j: int| 0 <= j < k ==> granted_dot_git(#[trigger] policy.entries[j]) is None,
    ensures
        expand_from(f, policy, policy, i) == expand_from(f, policy, policy, k),
    decreases k - i,
{
    if i < k {
        assert(granted_dot_git(policy.entries[i]) is None);
        past_other_rules(f, policy, i + 1, k);
    }
}

/// An expansion goes through the rules of the policy in order, each time from a policy to the
/// next. A rule that lets be written a native path with `.git` as its last name, and for which the
/// host says that the policy as it was handed in lets that path be written, brings the rules that
/// the grant on that path stands for under the policy reached so far; every other rule leaves the
/// policy reached as it is. The result gives the policies reached.
pub proof fn an_expansion_goes_from_rule_to_rule(
    findings: FindingsView,
    policy: PolicyView,
    expanded: PolicyView,
) -> (steps: Seq<PolicyView>)
    requires
        policy.kind == FileSystemSandboxKind::Restricted,
        expand(findings, policy) == Ok::<_, QuestionView>(expanded),
    ensures
        steps.len() == policy.entries.len() + 1,
        steps[0] == policy,
        steps[policy.entries.len() as int] == expanded,
        forall|i: int| #![trigger policy.entries[i]]
            0 <= i < policy.entries.len() ==> match policy.entries[i].path {
                PlaceView::Path { path: UriView::Native(path) } => if policy.entries[i].access
                    == FileSystemAccessMode::Write && path.names.len() > 0 && path.names[
                path.names.len() - 1] == seq![0x2eu8, 0x67u8, 0x69u8, 0x74u8] {
                    &&& findings.can_write.contains_key((policy, path))
                    &&& if findings.can_write[(policy, path)] {
                        &&& grants(findings, steps[i], path) matches Ok(granted)
                        &&& match granted {
                            Some(added) => steps[i + 1] == (PolicyView {
                                kind: policy.kind,
                                entries: with_entries(steps[i].entries, added),
                            }),
                            None => steps[i + 1] == steps[i],
                        }
                    } else {
                        steps[i + 1] == steps[i]
                    }
                } else {
                    steps[i + 1] == steps[i]
                },
                _ => steps[i + 1] == steps[i],
            },
{
    steps_from(findings, policy, policy, expanded, 0)
}

proof fn steps_from(
    f: FindingsView,
    original: PolicyView,
    policy: PolicyView,
    expanded: PolicyView,
    i: int,
) -> (steps: Seq<PolicyView>)
    requires
        0 <= i <= original.entries.len(),
        policy.kind == original.kind,
        expand_from(f, original, policy, i) == Ok::<_, QuestionView>(expanded),
    ensures
        steps.len() == original.entries.len() - i + 1,
        steps[0] == policy,
        steps[original.entries.len() - i] == expanded,
        forall|k: int| #![trigger original.entries[k]]
            i <= k < original.entries.len() ==> {
                &&& steps[k - i].kind == original.kind
                &&& expand_entry(f, original, steps[k - i], original.entries[k]) == Ok::<
                    _,
                    QuestionView,
                >(steps[k - i + 1])
            },
    decreases original.entries.len() - i,
{
    if i == original.entries.len() {
        seq![policy]
    } else {
        let next = expand_entry(f, original, policy, original.entries[i])->Ok_0;
        let later = steps_from(f, original, next, expanded, i + 1);
        let steps = seq![policy] + later;
        assert forall|k: int| #![trigger original.entries[k]]
            i <= k < original.entries.len() implies {
            &&& steps[k - i].kind == original.kind
            &&& expand_entry(f, original, steps[k - i], original.entries[k]) == Ok::<
                _,
                QuestionView,
            >(steps[k - i + 1])
        } by {
            assert(steps[k - i + 1] == later[k - i]);
            if k > i {
                assert(steps[k - i] == later[k - i - 1]);
            }
        }
        steps
    }
}

/// Bringing rules into others keeps those at the front as they are and puts behind them each of
/// the new ones that is not there yet, once, in the order in which they first stand among the new
/// ones.
pub proof fn new_rules_come_last_and_once(entries: Seq<EntryView>, added: Seq<EntryView>)
    ensures
        entries.is_prefix_of(with_entries(entries, added)),
        forall|m: int|
            0 <= m < added.len() ==> with_entries(entries, added).contains(#[trigger] added[m]),
        forall|j: int|
            entries.len() <= j < with_entries(entries, added).len() ==> added.contains(
                #[trigger] with_entries(entries, added)[j],
            ),
        forall|a: int, b: int|
            0 <= a < b < with_entries(entries, added).len() && entries.len() <= b ==> (
            #[trigger] with_entries(entries, added)[a]) != (#[trigger] with_entries(
                entries,
                added,
            )[b]),
        forall|a: int, b: int, m: int|
            #![trigger with_entries(entries, added)[a], with_entries(entries, added)[b], added[m]]
            entries.len() <= a < b < with_entries(entries, added).len() && 0 <= m < added.len()
                && added[m] == with_entries(entries, added)[b] ==> added.take(m).contains(
                with_entries(entries, added)[a],
            ),
    decreases added.len(),
{
    if added.len() == 0 {
        assert(entries.take(entries.len() as int) =~= entries);
    } else {
        let init = added.drop_last();
        let x = added.last();
        let before = with_entries(entries, init);
        let after = with_entries(entries, added);
        new_rules_come_last_and_once(entries, init);
        assert(forall|l: int| 0 <= l < init.len() ==> added[l] == #[trigger] init[l]);
        assert(after.take(entries.len() as int) =~= entries) by {
            assert(before.take(entries.len() as int) =~= entries);
        }
        assert forall|j: int| 0 <= j < before.len() implies after[j] == #[trigger] before[j] by {}
        if !before.contains(x) {
            assert(after[before.len() as int] == x);
        }
        assert forall|m: int| 0 <= m < added.len() implies after.contains(#[trigger] added[m]) by {
            if m < init.len() {
                assert(before.contains(init[m]));
            }
            if before.contains(added[m]) {
                let j = choose|j: int| 0 <= j < before.len() && before[j] == added[m];
                assert(after[j] == added[m]);
            }
        }
        assert forall|j: int| entries.len() <= j < after.len() implies added.contains(
            #[trigger] after[j],
        ) by {
            if j < before.len() {
                assert(init.contains(before[j]));
                let l = choose|l: int| 0 <= l < init.len() && init[l] == before[j];
                assert(added[l] == after[j]);
            } else {
                assert(added[added.len() - 1] == after[j]);
            }
        }
        assert forall|a: int, b: int|
            0 <= a < b < after.len() && entries.len() <= b implies (#[trigger] after[a]) != (
        #[trigger] after[b]) by {
            assert(after[a] == before[a]);
            if b < before.len() {
                assert(before[a] != before[b]);
            } else {
                assert(before.contains(before[a]));
            }
        }
        assert forall|a: int, b: int, m: int|
            #![trigger after[a], after[b], added[m]]
            entries.len() <= a < b < after.len() && 0 <= m < added.len() && added[m]
                == after[b] implies added.take(m).contains(after[a]) by {
            assert(after[a] == before[a]);
            if m < init.len() {
                assert(before.contains(init[m]));
                assert(b < before.len());
                assert(init[m] == before[b]);
                assert(init.take(m).contains(before[a]));
                assert(init.take(m) =~= added.take(m));
            } else {
                assert(init.contains(before[a]));
                assert(init =~= added.take(m));
            }
        }
    }
}

/// An expansion that hangs on a question got to some rule of the policy in the way described for
/// one that succeeds. That rule lets be written a native path with `.git` as its last name, and
/// the question is whether the policy as it was handed in lets that path be written, or what the
/// grant on it under the policy reached so far hangs on. The result gives the policies reached.
pub proof fn a_question_stops_the_expansion_at_a_rule(
    findings: FindingsView,
    policy: PolicyView,
    question: QuestionView,
) -> (steps: Seq<PolicyView>)
    requires
        expand(findings, policy) == Err::<PolicyView, _>(question),
    ensures
        policy.kind == FileSystemSandboxKind::Restricted,
        0 < steps.len() <= policy.entries.len(),
        steps[0] == policy,
        forall|i: int| #![trigger policy.entries[i]]
            0 <= i < steps.len() - 1 ==> match policy.entries[i].path {
                PlaceView::Path { path: UriView::Native(path) } => if policy.entries[i].access
                    == FileSystemAccessMode::Write && path.names.len() > 0 && path.names[
                path.names.len() - 1] == seq![0x2eu8, 0x67u8, 0x69u8, 0x74u8] {
                    &&& findings.can_write.contains_key((policy, path))
                    &&& if findings.can_write[(policy, path)] {
                        &&& grants(findings, steps[i], path) matches Ok(granted)
                        &&& match granted {
                            Some(added) => steps[i + 1] == (PolicyView {
                                kind: policy.kind,
                                entries: with_entries(steps[i].entries, added),
                            }),
                            None => steps[i + 1] == steps[i],
                        }
                    } else {
                        steps[i + 1] == steps[i]
                    }
                } else {
                    steps[i + 1] == steps[i]
                },
                _ => steps[i + 1] == steps[i],
            },
        policy.entries[steps.len() - 1].access == FileSystemAccessMode::Write,
        policy.entries[steps.len() - 1].path matches PlaceView::Path { path: UriView::Native(path) }
            && path.names.len() > 0 && path.names[path.names.len() - 1]
            == seq![0x2eu8, 0x67u8, 0x69u8, 0x74u8] && if findings.can_write.contains_key(
            (policy, path),
        ) {
            findings.can_write[(policy, path)] && grants(
                findings,
                steps[steps.len() - 1],
                path,
            ) == Err::<Option<Seq<EntryView>>, _>(question)
        } else {
            question == (QuestionView::CanWrite { policy, path })
        },
{
    steps_until(findings, policy, policy, question, 0)
}

proof fn steps_until(
    f: FindingsView,
    original: PolicyView,
    policy: PolicyView,
    question: QuestionView,
    i: int,
) -> (steps: Seq<PolicyView>)
    requires
        0 <= i <= original.entries.len(),
        policy.kind == original.kind,
        expand_from(f, original, policy, i) == Err::<PolicyView, _>(question),
    ensures
        0 < steps.len() <= original.entries.len() - i,
        steps[0] == policy,
        forall|k: int| #![trigger original.entries[k]]
            i <= k < i + steps.len() - 1 ==> {
                &&& steps[k - i].kind == original.kind
                &&& expand_entry(f, original, steps[k - i], original.entries[k]) == Ok::<
                    _,
                    QuestionView,
                >(steps[k - i + 1])
            },
        expand_entry(
            f,
            original,
            steps[steps.len() - 1],
            original.entries[i + steps.len() - 1],
        ) == Err::<PolicyView, _>(question),
    decreases original.entries.len() - i,
{
    match expand_entry(f, original, policy, original.entries[i]) {
        Err(_) => seq![policy],
        Ok(next) => {
            let later = steps_until(f, original, next, question, i + 1);
            let steps = seq![policy] + later;
            assert forall|k: int| #![trigger original.entries[k]]
                i <= k < i + steps.len() - 1 implies {
                &&& steps[k - i].kind == original.kind
                &&& expand_entry(f, original, steps[k - i], original.entries[k]) == Ok::<
                    _,
                    QuestionView,
                >(steps[k - i + 1])
            } by {
                assert(steps[k - i + 1] == later[k - i]);
                if k > i {
                    assert(steps[k - i] == later[k - i - 1]);
                }
            }
            assert(steps[steps.len() - 1] == later[later.len() - 1]);
            steps
        },
    }
}

/// An expansion keeps the kind and the rules of the policy, and every rule that it adds is owed to
/// a rule of the policy that lets be written a native path with exactly `.git` as its last name: a
/// path that the host says may be written under the policy, in a directory of a linked worktree.
/// The added rule is a firm one on a native path at or below an administrative directory of that
/// worktree, and lets be written only exactly such a directory. The result gives the index of the
/// rule that it is owed to.
pub proof fn every_added_rule_is_owed_to_an_explicit_grant(
    findings: FindingsView,
    policy: PolicyView,
    expanded: PolicyView,
    j: int,
) -> (k: int)
    requires
        expand(findings, policy) == Ok::<_, QuestionView>(expanded),
        policy.entries.len() <= j < expanded.entries.len(),
    ensures
        expanded.kind == policy.kind,
        policy.entries.is_prefix_of(expanded.entries),
        !expanded.entries.take(j).contains(expanded.entries[j]),
        !expanded.entries[j].skips_missing_path,
        0 <= k < policy.entries.len(),
        policy.entries[k].access == FileSystemAccessMode::Write,
        policy.entries[k].path matches PlaceView::Path { path: UriView::Native(path) }
            && path.names.len() > 0 && path.names[path.names.len() - 1]
            == seq![0x2eu8, 0x67u8, 0x69u8, 0x74u8] && findings.can_write.contains_key(
            (policy, path),
        ) && findings.can_write[(policy, path)] && (findings.git_dirs[(PathView {
            root: path.root,
            names: path.names.take(path.names.len() - 1),
        })] matches Some(dirs) && (expanded.entries[j].path matches PlaceView::Path {
            path: UriView::Native(place),
        } && (place.root == dirs.git_dir.root && dirs.git_dir.names.is_prefix_of(place.names)
            || place.root == dirs.common_dir.root && dirs.common_dir.names.is_prefix_of(
            place.names,
        )) && (expanded.entries[j].access == FileSystemAccessMode::Write ==> place == dirs.git_dir
            || place == dirs.common_dir))),
{
    rules_are_only_added(findings, policy);
    only_administrative_directories_are_opened(findings, policy);
    let rule = expanded.entries[j];
    assert(is_owed(findings, policy, rule));
    assert(!expanded.entries.take(j).contains(rule)) by {
        if expanded.entries.take(j).contains(rule) {
            let i = choose|i: int| 0 <= i < j && expanded.entries.take(j)[i] == rule;
            assert(expanded.entries[i] == rule);
        }
    }
    choose|k: int|
        0 <= k < policy.entries.len() && authorizes(
            findings,
            policy,
            #[trigger] policy.entries[k],
            rule,
        )
}

} // verus!
