//! When expanding a policy again changes nothing.

use vstd::prelude::*;
use crate::findings::{CanonicalView, FindingsView, GitDirsView, QuestionView, ReadAccess};
use crate::laws::{
    a_single_grant_decides, adds_new_rules, brings_nothing, expand_from_adds, is_owed,
    only_administrative_directories_are_opened, refused_grants_change_nothing,
    rules_are_only_added, with_entries_adds,
};
use crate::model::{
    carried, carried_from, expand, expand_entry, expand_from, granted_dot_git, grants, with_entries,
};
use crate::path::PathView;
use crate::permissions::{
    plain_entry, EntryView, FileSystemAccessMode, FileSystemSandboxKind, PlaceView, PolicyView,
};
use crate::protection::{
    an_accepted_grant_opens_both_directories, effective_grants_are_honored, is_honored_by,
};
use crate::restrictions::{
    a_grant_is_refused_exactly_when, blocks, cannot_be_projected, is_ambiguous, may_override,
    pattern_interferes, place_of, resolve_uri_decided, restrictions_survive,
};

verus! {

/// Under the longer policy the host lets no more be read, and makes no fewer patterns
/// unreadable, than under the shorter one.
pub open spec fn is_no_laxer(
    host: FindingsView,
    shorter: PolicyView,
    longer: PolicyView,
    path: PathView,
) -> bool {
    &&& host.read_access[(longer, path)] == ReadAccess::Allowed ==> host.read_access[(
        shorter,
        path,
    )] == ReadAccess::Allowed
    &&& forall|k: int|
        0 <= k < host.globs[shorter].len() ==> host.globs[longer].contains(
            #[trigger] host.globs[shorter][k],
        )
}

/// If the added rule restricts a place in the resolved `.git` that the other rule grants, the
/// expanded policy holds already what that restriction is carried over to.
pub open spec fn is_settled(
    host: FindingsView,
    expanded: PolicyView,
    rule: EntryView,
    added: EntryView,
) -> bool {
    match (granted_dot_git(rule), added.path) {
        (Some(dot_git), PlaceView::Path { path: uri }) => {
            added.access != FileSystemAccessMode::Write ==> match (
                host.canonical[dot_git],
                host.git_dirs[dot_git.parent()->0],
                place_of(host, uri),
            ) {
                (CanonicalView::Resolved(target), Some(dirs), Some(place)) => {
                    place.starts_with(target) ==> {
                        &&& expanded.entries.contains(
                            plain_entry(
                                dirs.git_dir.join(place.suffix_below(target)),
                                added.access,
                            ),
                        )
                        &&& expanded.entries.contains(
                            plain_entry(
                                dirs.common_dir.join(place.suffix_below(target)),
                                added.access,
                            ),
                        )
                    }
                },
                _ => true,
            }
        },
        _ => true,
    }
}

proof fn with_entries_present(entries: Seq<EntryView>, added: Seq<EntryView>)
    requires
        forall|m: int| 0 <= m < added.len() ==> entries.contains(#[trigger] added[m]),
    ensures
        with_entries(entries, added) == entries,
    decreases added.len(),
{
    if added.len() > 0 {
        assert forall|m: int| 0 <= m < added.drop_last().len() implies entries.contains(
            #[trigger] added.drop_last()[m],
        ) by {
            assert(added.drop_last()[m] == added[m]);
        }
        with_entries_present(entries, added.drop_last());
        assert(added.last() == added[added.len() - 1]);
    }
}

/// Each rule that is carried over is carried over from some rule of the policy.
proof fn carried_from_origin(
    f: FindingsView,
    entries: Seq<EntryView>,
    dot_git: PathView,
    dirs: GitDirsView,
    i: int,
    m: int,
) -> (k: int)
    requires
        0 <= i,
        carried_from(f, entries, dot_git, dirs, i) matches Ok(Some(rules)) && 0 <= m < rules.len(),
    ensures
        i <= k < entries.len(),
        carried(f, entries, dot_git, dirs, entries[k]) matches Ok(Some(own)) && own.contains(
            carried_from(f, entries, dot_git, dirs, i)->Ok_0->0[m],
        ),
    decreases entries.len() - i,
{
    let rules = carried_from(f, entries, dot_git, dirs, i)->Ok_0->0;
    let first = carried(f, entries, dot_git, dirs, entries[i])->Ok_0->0;
    let rest = carried_from(f, entries, dot_git, dirs, i + 1)->Ok_0->0;
    assert(rules == first + rest);
    if m < first.len() {
        assert(first[m] == rules[m]);
        i
    } else {
        assert(rest[m - first.len()] == rules[m]);
        carried_from_origin(f, entries, dot_git, dirs, i + 1, m - first.len())
    }
}

/// What makes a policy ambiguous makes a longer one ambiguous.
proof fn ambiguity_remains(
    host: FindingsView,
    shorter: PolicyView,
    longer: PolicyView,
    path: PathView,
    dot_git: PathView,
    dirs: GitDirsView,
)
    requires
        is_no_laxer(host, shorter, longer, path),
        adds_new_rules(shorter.entries, longer.entries),
        is_ambiguous(host, shorter, dot_git, dirs),
    ensures
        is_ambiguous(host, longer, dot_git, dirs),
{
    if exists|k: int|
        0 <= k < host.globs[shorter].len() && pattern_interferes(
            host,
            #[trigger] host.globs[shorter][k],
            dot_git,
            dirs,
        ) {
        let k = choose|k: int|
            0 <= k < host.globs[shorter].len() && pattern_interferes(
                host,
                #[trigger] host.globs[shorter][k],
                dot_git,
                dirs,
            );
        assert(host.globs[longer].contains(host.globs[shorter][k]));
        let j = choose|j: int|
            0 <= j < host.globs[longer].len() && host.globs[longer][j] == host.globs[shorter][k];
        assert(pattern_interferes(host, host.globs[longer][j], dot_git, dirs));
    } else {
        let a = shorter.entries;
        let b = longer.entries;
        let k = choose|k: int|
            0 <= k < a.len() && blocks(host, a, dot_git, dirs, #[trigger] a[k]);
        assert forall|c: int| 0 <= c < a.len() implies #[trigger] a[c] == b[c] by {
            assert(b.take(a.len() as int)[c] == b[c]);
        }
        assert forall|projected: PathView| #[trigger]
            cannot_be_projected(host, a, dirs, projected) implies cannot_be_projected(
            host,
            b,
            dirs,
            projected,
        ) by {
            if exists|c: int| 0 <= c < a.len() && may_override(host, #[trigger] a[c], projected) {
                let c = choose|c: int|
                    0 <= c < a.len() && may_override(host, #[trigger] a[c], projected);
                assert(may_override(host, b[c], projected));
            }
        }
        assert(blocks(host, b, dot_git, dirs, b[k]));
    }
}

/// Under the policy a write grant on the `.git` is effective and accepted.
pub open spec fn is_accepted(host: FindingsView, policy: PolicyView, dot_git: PathView) -> bool {
    host.can_write[(policy, dot_git)] && grants(host, policy, dot_git)->Ok_0 is Some
}

/// If the rule is an explicit write grant on a `.git` that is effective and accepted, all that it
/// stands for is there already.
pub open spec fn brings_nothing_new(
    host: FindingsView,
    policy: PolicyView,
    rule: EntryView,
) -> bool {
    granted_dot_git(rule) matches Some(dot_git) ==> (is_accepted(host, policy, dot_git)
        ==> forall|m: int|
        0 <= m < grants(host, policy, dot_git)->Ok_0->0.len() ==> policy.entries.contains(
            #[trigger] grants(host, policy, dot_git)->Ok_0->0[m],
        ))
}

/// A rule changes nothing if and only if it brings nothing new.
proof fn expand_entry_repeats(host: FindingsView, policy: PolicyView, rule: EntryView)
    requires
        host.is_complete(),
    ensures
        (expand_entry(host, policy, policy, rule) == Ok::<_, QuestionView>(policy))
            == brings_nothing_new(host, policy, rule),
{
    match granted_dot_git(rule) {
        None => {},
        Some(dot_git) => {
            assert(host.answers(QuestionView::CanWrite { policy, path: dot_git }));
            a_grant_is_refused_exactly_when(host, policy, dot_git);
            if is_accepted(host, policy, dot_git) {
                let added = grants(host, policy, dot_git)->Ok_0->0;
                with_entries_adds(policy.entries, added);
                if brings_nothing_new(host, policy, rule) {
                    with_entries_present(policy.entries, added);
                } else {
                    let m = choose|m: int|
                        0 <= m < added.len() && !policy.entries.contains(#[trigger] added[m]);
                    assert(with_entries(policy.entries, added).contains(added[m]));
                }
            }
        },
    }
}

/// A second look at an explicit grant of the policy brings nothing that is not there, if all the
/// rules that it was granted for `reached`, if any, stand in the expanded policy.
proof fn second_look(
    host: FindingsView,
    kept: nat,
    reached: PolicyView,
    expanded: PolicyView,
    rule: EntryView,
    dot_git: PathView,
)
    requires
        host.is_complete(),
        granted_dot_git(rule) == Some(dot_git),
        kept <= reached.entries.len(),
        adds_new_rules(reached.entries, expanded.entries),
        host.can_write[(expanded, dot_git)] ==> (grants(host, reached, dot_git) matches Ok(
            Some(added),
        ) ==> forall|j: int|
            0 <= j < added.len() ==> expanded.entries.contains(#[trigger] added[j])),
        grants(host, reached, dot_git)->Ok_0 is Some || is_no_laxer(
            host,
            reached,
            expanded,
            dot_git,
        ),
        is_accepted(host, expanded, dot_git) ==> forall|j: int|
            kept <= j < expanded.entries.len() ==> is_settled(
                host,
                expanded,
                rule,
                #[trigger] expanded.entries[j],
            ),
    ensures
        brings_nothing_new(host, expanded, rule),
{
    a_grant_is_refused_exactly_when(host, expanded, dot_git);
    if is_accepted(host, expanded, dot_git) {
        let again = grants(host, expanded, dot_git)->Ok_0->0;
        let dirs = host.git_dirs[dot_git.parent()->0]->0;
        let target = host.canonical[dot_git]->Resolved_0;
        a_grant_is_refused_exactly_when(host, reached, dot_git);
        if is_ambiguous(host, reached, target, dirs) {
            ambiguity_remains(host, reached, expanded, dot_git, target, dirs);
        }
        let added = grants(host, reached, dot_git)->Ok_0->0;
        an_accepted_grant_opens_both_directories(host, reached, dot_git, added);
        an_accepted_grant_opens_both_directories(host, expanded, dot_git, again);
        let entries = expanded.entries;
        let rules = carried_from(host, entries, target, dirs, 0)->Ok_0->0;
        assert forall|m: int| 0 <= m < again.len() implies entries.contains(
            #[trigger] again[m],
        ) by {
            if m < 2 {
                assert(entries.contains(added[m]));
            } else {
                assert(again[m] == rules[m - 2]);
                let o = carried_from_origin(host, entries, target, dirs, 0, m - 2);
                let own = carried(host, entries, target, dirs, entries[o])->Ok_0->0;
                let uri = entries[o].path->Path_path;
                assert(entries[o].path is Path);
                resolve_uri_decided(host, uri);
                let place = place_of(host, uri)->0;
                assert(place.starts_with(target));
                let suffix = place.suffix_below(target);
                let first = plain_entry(dirs.git_dir.join(suffix), entries[o].access);
                let second = plain_entry(dirs.common_dir.join(suffix), entries[o].access);
                assert(own == seq![first, second]);
                if o < reached.entries.len() {
                    assert(entries.take(reached.entries.len() as int)[o] == entries[o]);
                    assert(reached.entries[o] == entries[o]);
                    restrictions_survive(host, reached, dot_git, added, o);
                    assert(added.contains(first) && added.contains(second));
                    let a = choose|a: int| 0 <= a < added.len() && added[a] == first;
                    let b = choose|b: int| 0 <= b < added.len() && added[b] == second;
                    assert(entries.contains(added[a]) && entries.contains(added[b]));
                } else {
                    assert(is_settled(host, expanded, rule, entries[o]));
                }
            }
        }
    }
}

/// Where an expansion ends with the policy that it starts from, no rule on the way changes it;
/// and where no rule changes it, the expansion ends with it.
proof fn expand_from_repeats(host: FindingsView, expanded: PolicyView, i: int)
    requires
        0 <= i,
        host.is_complete(),
    ensures
        (expand_from(host, expanded, expanded, i) == Ok::<_, QuestionView>(expanded)) == (forall|
            k: int,
        |
            i <= k < expanded.entries.len() ==> brings_nothing_new(
                host,
                expanded,
                #[trigger] expanded.entries[k],
            )),
    decreases expanded.entries.len() - i,
{
    if i < expanded.entries.len() {
        let rule = expanded.entries[i];
        expand_entry_repeats(host, expanded, rule);
        expand_from_repeats(host, expanded, i + 1);
        if brings_nothing_new(host, expanded, rule) {
            if forall|k: int|
                i + 1 <= k < expanded.entries.len() ==> brings_nothing_new(
                    host,
                    expanded,
                    #[trigger] expanded.entries[k],
                ) {
                assert forall|k: int| i <= k < expanded.entries.len() implies brings_nothing_new(
                    host,
                    expanded,
                    #[trigger] expanded.entries[k],
                ) by {}
            }
        } else {
            let dot_git = granted_dot_git(rule)->0;
            let added = grants(host, expanded, dot_git)->Ok_0->0;
            assert(host.answers(QuestionView::CanWrite { policy: expanded, path: dot_git }));
            a_grant_is_refused_exactly_when(host, expanded, dot_git);
            with_entries_adds(expanded.entries, added);
            let longer = PolicyView {
                kind: expanded.kind,
                entries: with_entries(expanded.entries, added),
            };
            assert(longer.entries.len() > expanded.entries.len()) by {
                if longer.entries.len() == expanded.entries.len() {
                    assert(longer.entries.take(expanded.entries.len() as int) =~= longer.entries);
                }
            }
            expand_from_adds(host, expanded, longer, i + 1);
        }
    }
}

/// An expansion leaves a confined policy as it is if and only if none of its rules is an accepted
/// grant that brings something new.
pub proof fn a_policy_stays_exactly_when(host: FindingsView, policy: PolicyView)
    requires
        host.is_complete(),
        policy.kind == FileSystemSandboxKind::Restricted,
    ensures
        expand(host, policy) == Ok::<_, QuestionView>(policy) <==> forall|k: int|
            0 <= k < policy.entries.len() ==> brings_nothing_new(
                host,
                policy,
                #[trigger] policy.entries[k],
            ),
{
    expand_from_repeats(host, policy, 0);
}

/// What the host says of a `.git` that the policy grants, under the expanded policy, opens
/// nothing there that it did not open when the grant was without effect or refused.
pub open spec fn is_judged_alike(
    host: FindingsView,
    policy: PolicyView,
    expanded: PolicyView,
    dot_git: PathView,
) -> bool {
    &&& host.can_write[(expanded, dot_git)] ==> host.can_write[(policy, dot_git)]
    &&& forall|reached: PolicyView|
        adds_new_rules(policy.entries, reached.entries) && adds_new_rules(
            reached.entries,
            expanded.entries,
        ) && reached.kind == policy.kind && grants(host, reached, dot_git)->Ok_0 is None
            ==> #[trigger] is_no_laxer(host, reached, expanded, dot_git)
}

/// Expanding an expanded policy again changes nothing, provided that of each `.git` that the
/// policy grants the host finds it no more writable under the longer policy, and, where the grant
/// was refused, no more readable and no fewer patterns unreadable; that an added rule that is
/// itself an explicit grant brings nothing new; and that an added restriction that lies in a
/// `.git` whose grant is accepted is carried over already.
pub proof fn a_second_expansion_changes_nothing(
    host: FindingsView,
    policy: PolicyView,
    expanded: PolicyView,
)
    requires
        host.is_complete(),
        expand(host, policy) == Ok::<_, QuestionView>(expanded),
        forall|k: int|
            0 <= k < policy.entries.len() ==> (granted_dot_git(
                #[trigger] policy.entries[k],
            ) matches Some(dot_git) ==> is_judged_alike(host, policy, expanded, dot_git)),
        forall|j: int|
            policy.entries.len() <= j < expanded.entries.len() ==> brings_nothing_new(
                host,
                expanded,
                #[trigger] expanded.entries[j],
            ),
        forall|k: int, j: int|
            0 <= k < policy.entries.len() <= j < expanded.entries.len() && (granted_dot_git(
                #[trigger] policy.entries[k],
            ) matches Some(dot_git) && is_accepted(host, expanded, dot_git)) ==> is_settled(
                host,
                expanded,
                policy.entries[k],
                #[trigger] expanded.entries[j],
            ),
    ensures
        expand(host, expanded) == Ok::<_, QuestionView>(expanded),
{
    rules_are_only_added(host, policy);
    if policy.kind == FileSystemSandboxKind::Restricted {
        assert forall|k: int| 0 <= k < expanded.entries.len() implies brings_nothing_new(
            host,
            expanded,
            #[trigger] expanded.entries[k],
        ) by {
            if k < policy.entries.len() {
                assert(expanded.entries.take(policy.entries.len() as int)[k]
                    == expanded.entries[k]);
                assert(policy.entries[k] == expanded.entries[k]);
                match granted_dot_git(policy.entries[k]) {
                    None => {},
                    Some(dot_git) => {
                        assert(host.answers(QuestionView::CanWrite { policy, path: dot_git }));
                        assert(is_judged_alike(host, policy, expanded, dot_git));
                        if host.can_write[(policy, dot_git)] {
                            effective_grants_are_honored(host, policy, k, dot_git);
                            let reached = choose|reached: PolicyView|
                                is_honored_by(host, policy, expanded, dot_git, reached);
                            assert(grants(host, reached, dot_git)->Ok_0 is Some || is_no_laxer(
                                host,
                                reached,
                                expanded,
                                dot_git,
                            ));
                            second_look(
                                host,
                                policy.entries.len(),
                                reached,
                                expanded,
                                policy.entries[k],
                                dot_git,
                            );
                        }
                    },
                }
            }
        }
        expand_from_repeats(host, expanded, 0);
    }
}

/// A policy with one explicit write grant on a `.git` is expanded once and for all, except
/// exactly where an added rule is itself an accepted grant that brings something new, or where
/// the grant is accepted again and an added restriction lies in its resolved `.git` that is not
/// carried over yet.
pub proof fn a_single_grant_is_expanded_once(
    host: FindingsView,
    policy: PolicyView,
    expanded: PolicyView,
    only: int,
    dot_git: PathView,
)
    requires
        host.is_complete(),
        expand(host, policy) == Ok::<_, QuestionView>(expanded),
        0 <= only < policy.entries.len(),
        granted_dot_git(policy.entries[only]) == Some(dot_git),
        forall|k: int|
            0 <= k < policy.entries.len() && k != only ==> granted_dot_git(
                #[trigger] policy.entries[k],
            ) is None,
    ensures
        expand(host, expanded) == Ok::<_, QuestionView>(expanded) <==> {
            &&& forall|j: int|
                policy.entries.len() <= j < expanded.entries.len() ==> brings_nothing_new(
                    host,
                    expanded,
                    #[trigger] expanded.entries[j],
                )
            &&& is_accepted(host, expanded, dot_git) ==> forall|j: int|
                policy.entries.len() <= j < expanded.entries.len() ==> is_settled(
                    host,
                    expanded,
                    policy.entries[only],
                    #[trigger] expanded.entries[j],
                )
        },
{
    assert(host.answers(QuestionView::CanWrite { policy, path: dot_git }));
    a_grant_is_refused_exactly_when(host, policy, dot_git);
    rules_are_only_added(host, policy);
    if policy.kind == FileSystemSandboxKind::Restricted && is_accepted(host, policy, dot_git) {
        let added = grants(host, policy, dot_git)->Ok_0->0;
        a_single_grant_decides(host, policy, only, dot_git, added);
        assert forall|k: int| 0 <= k < policy.entries.len() implies #[trigger] expanded.entries[k]
            == policy.entries[k] by {
            assert(expanded.entries.take(policy.entries.len() as int)[k] == expanded.entries[k]);
        }
        expand_from_repeats(host, expanded, 0);
        if expand(host, expanded) == Ok::<_, QuestionView>(expanded) {
            assert(brings_nothing_new(host, expanded, expanded.entries[only]));
            if is_accepted(host, expanded, dot_git) {
                added_restrictions_are_settled(
                    host,
                    policy,
                    expanded,
                    policy.entries[only],
                    dot_git,
                );
            }
        } else {
            let k = choose|k: int|
                0 <= k < expanded.entries.len() && !brings_nothing_new(
                    host,
                    expanded,
                    #[trigger] expanded.entries[k],
                );
            if k == only && (is_accepted(host, expanded, dot_git) ==> forall|j: int|
                policy.entries.len() <= j < expanded.entries.len() ==> is_settled(
                    host,
                    expanded,
                    policy.entries[only],
                    #[trigger] expanded.entries[j],
                )) {
                second_look(
                    host,
                    policy.entries.len(),
                    policy,
                    expanded,
                    policy.entries[only],
                    dot_git,
                );
            }
        }
    } else if policy.kind == FileSystemSandboxKind::Restricted {
        assert forall|k: int| 0 <= k < policy.entries.len() implies brings_nothing(
            host,
            policy,
            #[trigger] policy.entries[k],
        ) by {}
        refused_grants_change_nothing(host, policy);
    }
}

/// Where a grant that is accepted again brings nothing new, every added restriction is settled.
proof fn added_restrictions_are_settled(
    host: FindingsView,
    policy: PolicyView,
    expanded: PolicyView,
    rule: EntryView,
    dot_git: PathView,
)
    requires
        host.is_complete(),
        expand(host, policy) == Ok::<_, QuestionView>(expanded),
        granted_dot_git(rule) == Some(dot_git),
        is_accepted(host, expanded, dot_git),
        brings_nothing_new(host, expanded, rule),
    ensures
        forall|j: int|
            policy.entries.len() <= j < expanded.entries.len() ==> is_settled(
                host,
                expanded,
                rule,
                #[trigger] expanded.entries[j],
            ),
{
    let entries = expanded.entries;
    a_grant_is_refused_exactly_when(host, expanded, dot_git);
    let again = grants(host, expanded, dot_git)->Ok_0->0;
    only_administrative_directories_are_opened(host, policy);
    rules_are_only_added(host, policy);
    assert forall|j: int| policy.entries.len() <= j < entries.len() implies is_settled(
        host,
        expanded,
        rule,
        #[trigger] entries[j],
    ) by {
        assert(is_owed(host, policy, entries[j]));
        assert(!entries[j].skips_missing_path);
        if entries[j].access != FileSystemAccessMode::Write {
            restrictions_survive(host, expanded, dot_git, again, j);
            match entries[j].path {
                PlaceView::Path { path: uri } => {
                    let place = place_of(host, uri)->0;
                    let target = host.canonical[dot_git]->Resolved_0;
                    let dirs = host.git_dirs[dot_git.parent()->0]->0;
                    if place.starts_with(target) {
                        let suffix = place.suffix_below(target);
                        let first = plain_entry(dirs.git_dir.join(suffix), entries[j].access);
                        let second = plain_entry(dirs.common_dir.join(suffix), entries[j].access);
                        assert(again.contains(first) && again.contains(second));
                        let a = choose|a: int| 0 <= a < again.len() && again[a] == first;
                        let b = choose|b: int| 0 <= b < again.len() && again[b] == second;
                        assert(entries.contains(again[a]) && entries.contains(again[b]));
                    }
                },
                _ => {},
            }
        }
    }
}

} // verus!
