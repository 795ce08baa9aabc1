//! Laws of a single grant: when it is refused, and how it keeps the restrictions of the policy.

use vstd::prelude::*;
use crate::findings::{CanonicalView, FindingsView, GitDirsView, QuestionView, ReadAccess};
use crate::glob::anchor;
use crate::model::{
    carried, carried_from, covers_destination, existing_prefix, globs_interfere, grants, overlap,
    resolve, resolve_uri, write_granted_below,
};
use crate::path::PathView;
use crate::permissions::{
    plain_entry, EntryView, FileSystemAccessMode, PlaceView, PolicyView, UriView,
};

verus! {

/// The place that a rule names, as a host that answers everything resolves it.
pub open spec fn place_of(host: FindingsView, uri: UriView) -> Option<PathView> {
    resolve_uri(host, uri)->Ok_0
}

/// The pattern can match at, above or below the resolved `.git` or a destination, or it is
/// anchored nowhere that can be resolved.
pub open spec fn pattern_interferes(
    host: FindingsView,
    pattern: PathView,
    dot_git: PathView,
    dirs: GitDirsView,
) -> bool {
    match anchor(pattern) {
        None => true,
        Some(directory) => match resolve(host, directory)->Ok_0 {
            None => true,
            Some(prefix) => overlap(dot_git, prefix) || overlap(dirs.git_dir, prefix) || overlap(
                dirs.common_dir,
                prefix,
            ),
        },
    }
}

/// The rule grants writing at or below the path, or at a place that cannot be resolved.
pub open spec fn may_override(host: FindingsView, entry: EntryView, path: PathView) -> bool {
    &&& entry.access == FileSystemAccessMode::Write
    &&& entry.path matches PlaceView::Path { path: uri }
    &&& place_of(host, uri) matches Some(place) ==> place.starts_with(path)
}

/// A restriction at `projected` would cover a destination, or an existing grant could override
/// it.
pub open spec fn cannot_be_projected(
    host: FindingsView,
    entries: Seq<EntryView>,
    dirs: GitDirsView,
    projected: PathView,
) -> bool {
    ||| covers_destination(dirs, projected)
    ||| exists|c: int|
        0 <= c < entries.len() && may_override(host, #[trigger] entries[c], projected)
}

/// The rule is a restriction that cannot be kept together with the grant.
pub open spec fn blocks(
    host: FindingsView,
    entries: Seq<EntryView>,
    dot_git: PathView,
    dirs: GitDirsView,
    entry: EntryView,
) -> bool {
    &&& entry.access != FileSystemAccessMode::Write
    &&& match entry.path {
        PlaceView::GlobPattern { .. } => false,
        PlaceView::Special { value } => value is Unmaterialized,
        PlaceView::Path { path } => match place_of(host, path) {
            None => true,
            Some(place) => {
                &&& !(entry.skips_missing_path && place == dot_git)
                &&& {
                    ||| covers_destination(dirs, place)
                    ||| place.starts_with(dot_git) && cannot_be_projected(
                        host,
                        entries,
                        dirs,
                        dirs.git_dir.join(place.suffix_below(dot_git)),
                    )
                    ||| place.starts_with(dot_git) && cannot_be_projected(
                        host,
                        entries,
                        dirs,
                        dirs.common_dir.join(place.suffix_below(dot_git)),
                    )
                }
            },
        },
    }
}

proof fn existing_prefix_decided(host: FindingsView, path: PathView, depth: nat)
    requires
        host.is_complete(),
    ensures
        existing_prefix(host, path, depth) is Ok,
    decreases depth,
{
    assert(host.answers(QuestionView::Canonicalize { path: path.ancestor(depth) }));
    if depth > 0 {
        existing_prefix_decided(host, path, (depth - 1) as nat);
    }
}

/// A host that answers everything resolves every place.
pub(crate) proof fn resolve_uri_decided(host: FindingsView, uri: UriView)
    requires
        host.is_complete(),
    ensures
        resolve_uri(host, uri) == Ok::<_, QuestionView>(place_of(host, uri)),
{
    match uri {
        UriView::Native(path) => existing_prefix_decided(host, path, path.names.len()),
        UriView::Foreign(_) => {},
    }
}

proof fn globs_interfere_decided(
    host: FindingsView,
    patterns: Seq<PathView>,
    dot_git: PathView,
    dirs: GitDirsView,
    i: int,
)
    requires
        host.is_complete(),
        0 <= i,
    ensures
        globs_interfere(host, patterns, dot_git, dirs, i) == Ok::<_, QuestionView>(
            (exists|k: int|
                i <= k < patterns.len() && pattern_interferes(
                    host,
                    #[trigger] patterns[k],
                    dot_git,
                    dirs,
                )),
        ),
    decreases patterns.len() - i,
{
    if i < patterns.len() {
        match anchor(patterns[i]) {
            None => {},
            Some(directory) => existing_prefix_decided(host, directory, directory.names.len()),
        }
        globs_interfere_decided(host, patterns, dot_git, dirs, i + 1);
        if pattern_interferes(host, patterns[i], dot_git, dirs) {
            assert(exists|k: int|
                i <= k < patterns.len() && pattern_interferes(
                    host,
                    #[trigger] patterns[k],
                    dot_git,
                    dirs,
                ));
        } else {
            assert((exists|k: int|
                i <= k < patterns.len() && pattern_interferes(
                    host,
                    #[trigger] patterns[k],
                    dot_git,
                    dirs,
                )) == (exists|k: int|
                i + 1 <= k < patterns.len() && pattern_interferes(
                    host,
                    #[trigger] patterns[k],
                    dot_git,
                    dirs,
                )));
        }
    }
}

proof fn write_granted_below_decided(
    host: FindingsView,
    entries: Seq<EntryView>,
    projected: PathView,
    i: int,
)
    requires
        host.is_complete(),
        0 <= i,
    ensures
        write_granted_below(host, entries, projected, i) == Ok::<_, QuestionView>(
            (exists|c: int|
                i <= c < entries.len() && may_override(host, #[trigger] entries[c], projected)),
        ),
    decreases entries.len() - i,
{
    if i < entries.len() {
        match entries[i].path {
            PlaceView::Path { path } => resolve_uri_decided(host, path),
            _ => {},
        }
        write_granted_below_decided(host, entries, projected, i + 1);
        if may_override(host, entries[i], projected) {
            assert(exists|c: int|
                i <= c < entries.len() && may_override(host, #[trigger] entries[c], projected));
        } else {
            assert((exists|c: int|
                i <= c < entries.len() && may_override(host, #[trigger] entries[c], projected)) == (
            exists|c: int|
                i + 1 <= c < entries.len() && may_override(
                    host,
                    #[trigger] entries[c],
                    projected,
                )));
        }
    }
}

proof fn carried_decided(
    host: FindingsView,
    entries: Seq<EntryView>,
    dot_git: PathView,
    dirs: GitDirsView,
    entry: EntryView,
)
    requires
        host.is_complete(),
    ensures
        carried(host, entries, dot_git, dirs, entry) is Ok,
        carried(host, entries, dot_git, dirs, entry)->Ok_0 is None <==> blocks(
            host,
            entries,
            dot_git,
            dirs,
            entry,
        ),
{
    match entry.path {
        PlaceView::Path { path } => {
            resolve_uri_decided(host, path);
            match place_of(host, path) {
                Some(place) => {
                    let suffix = place.suffix_below(dot_git);
                    write_granted_below_decided(host, entries, dirs.git_dir.join(suffix), 0);
                    write_granted_below_decided(host, entries, dirs.common_dir.join(suffix), 0);
                },
                None => {},
            }
        },
        _ => {},
    }
}

proof fn carried_from_decided(
    host: FindingsView,
    entries: Seq<EntryView>,
    dot_git: PathView,
    dirs: GitDirsView,
    i: int,
)
    requires
        host.is_complete(),
        0 <= i,
    ensures
        carried_from(host, entries, dot_git, dirs, i) is Ok,
        carried_from(host, entries, dot_git, dirs, i)->Ok_0 is None <==> exists|k: int|
            i <= k < entries.len() && blocks(host, entries, dot_git, dirs, #[trigger] entries[k]),
    decreases entries.len() - i,
{
    if i < entries.len() {
        carried_decided(host, entries, dot_git, dirs, entries[i]);
        carried_from_decided(host, entries, dot_git, dirs, i + 1);
        if blocks(host, entries, dot_git, dirs, entries[i]) {
            assert(exists|k: int|
                i <= k < entries.len() && blocks(
                    host,
                    entries,
                    dot_git,
                    dirs,
                    #[trigger] entries[k],
                ));
        } else {
            assert((exists|k: int|
                i <= k < entries.len() && blocks(
                    host,
                    entries,
                    dot_git,
                    dirs,
                    #[trigger] entries[k],
                )) == (exists|k: int|
                i + 1 <= k < entries.len() && blocks(
                    host,
                    entries,
                    dot_git,
                    dirs,
                    #[trigger] entries[k],
                )));
        }
    }
}

/// The policy leaves it open what a write grant on the resolved `.git` stands for: a pattern
/// interferes, or a restriction cannot be kept.
pub open spec fn is_ambiguous(
    host: FindingsView,
    policy: PolicyView,
    dot_git: PathView,
    dirs: GitDirsView,
) -> bool {
    ||| exists|k: int|
        0 <= k < host.globs[policy].len() && pattern_interferes(
            host,
            #[trigger] host.globs[policy][k],
            dot_git,
            dirs,
        )
    ||| exists|k: int|
        0 <= k < policy.entries.len() && blocks(
            host,
            policy.entries,
            dot_git,
            dirs,
            #[trigger] policy.entries[k],
        )
}

/// A grant is refused if and only if its `.git` cannot be read, is not that of a validated
/// linked worktree or cannot be resolved, or the policy leaves it open what the grant stands
/// for.
pub proof fn a_grant_is_refused_exactly_when(
    host: FindingsView,
    policy: PolicyView,
    dot_git: PathView,
)
    requires
        host.is_complete(),
    ensures
        grants(host, policy, dot_git) is Ok,
        grants(host, policy, dot_git)->Ok_0 is None <==> {
            ||| host.read_access[(policy, dot_git)] != ReadAccess::Allowed
            ||| dot_git.parent() is None
            ||| host.git_dirs[dot_git.parent()->0] is None
            ||| !(host.canonical[dot_git] is Resolved)
            ||| is_ambiguous(
                host,
                policy,
                host.canonical[dot_git]->Resolved_0,
                host.git_dirs[dot_git.parent()->0]->0,
            )
        },
{
    let checkout = dot_git.parent()->0;
    assert(host.answers(QuestionView::ReadAccess { policy, path: dot_git }));
    assert(host.answers(QuestionView::LinkedWorktreeGitDirs { checkout }));
    assert(host.answers(QuestionView::Canonicalize { path: dot_git }));
    assert(host.answers(QuestionView::UnreadableGlobs { policy }));
    match (host.git_dirs[checkout], host.canonical[dot_git]) {
        (Some(dirs), CanonicalView::Resolved(target)) => {
            globs_interfere_decided(host, host.globs[policy], target, dirs, 0);
            carried_from_decided(host, policy.entries, target, dirs, 0);
        },
        _ => {},
    }
}

/// The restriction at `projected` stands among the grants, no destination lies under it, and no
/// rule of the policy that grants writing applies at or below it.
pub open spec fn is_kept(
    findings: FindingsView,
    entries: Seq<EntryView>,
    dirs: GitDirsView,
    added: Seq<EntryView>,
    projected: PathView,
    access: FileSystemAccessMode,
) -> bool {
    &&& added.contains(plain_entry(projected, access))
    &&& !covers_destination(dirs, projected)
    &&& forall|c: int| #![trigger entries[c]]
        0 <= c < entries.len() && entries[c].access == FileSystemAccessMode::Write ==> (
        entries[c].path matches PlaceView::Path { path: uri } ==> {
            &&& resolve_uri(findings, uri) matches Ok(Some(place))
            &&& !place.starts_with(projected)
        })
}

/// Where no rule from index `i` on grants writing below a path, no single one does.
pub(crate) proof fn no_write_below(
    f: FindingsView,
    entries: Seq<EntryView>,
    projected: PathView,
    i: int,
    c: int,
)
    requires
        0 <= i <= c < entries.len(),
        write_granted_below(f, entries, projected, i) == Ok::<_, QuestionView>(false),
        entries[c].access == FileSystemAccessMode::Write,
    ensures
        entries[c].path matches PlaceView::Path { path: uri } ==> {
            &&& resolve_uri(f, uri) matches Ok(Some(place))
            &&& !place.starts_with(projected)
        },
    decreases c - i,
{
    if i < c {
        no_write_below(f, entries, projected, i + 1, c);
    }
}

proof fn carried_from_keeps(
    f: FindingsView,
    entries: Seq<EntryView>,
    dot_git: PathView,
    dirs: GitDirsView,
    i: int,
    k: int,
)
    requires
        0 <= i <= k < entries.len(),
        carried_from(f, entries, dot_git, dirs, i) matches Ok(Some(_)),
    ensures
        carried(f, entries, dot_git, dirs, entries[k]) matches Ok(Some(own)) && forall|j: int|
            0 <= j < own.len() ==> carried_from(f, entries, dot_git, dirs, i)->Ok_0->0.contains(
                #[trigger] own[j],
            ),
    decreases k - i,
{
    let all = carried_from(f, entries, dot_git, dirs, i)->Ok_0->0;
    let first = carried(f, entries, dot_git, dirs, entries[i])->Ok_0->0;
    let rest = carried_from(f, entries, dot_git, dirs, i + 1)->Ok_0->0;
    assert(all == first + rest);
    if i < k {
        carried_from_keeps(f, entries, dot_git, dirs, i + 1, k);
        let own = carried(f, entries, dot_git, dirs, entries[k])->Ok_0->0;
        assert forall|j: int| 0 <= j < own.len() implies all.contains(#[trigger] own[j]) by {
            assert(rest.contains(own[j]));
            let m = choose|m: int| 0 <= m < rest.len() && rest[m] == own[j];
            assert(all[first.len() + m] == own[j]);
        }
    } else {
        assert forall|j: int| 0 <= j < first.len() implies all.contains(#[trigger] first[j]) by {
            assert(all[j] == first[j]);
        }
    }
}

/// An accepted grant keeps every restriction of the policy. Each one has an unambiguous target,
/// and no administrative directory lies under it; one that applies in `.git` is kept below both
/// administrative directories, with the same access. Only a skippable default rule on `.git`
/// itself gives way.
pub proof fn restrictions_survive(
    findings: FindingsView,
    policy: PolicyView,
    dot_git: PathView,
    added: Seq<EntryView>,
    k: int,
)
    requires
        grants(findings, policy, dot_git) == Ok::<_, QuestionView>(Some(added)),
        0 <= k < policy.entries.len(),
        policy.entries[k].access != FileSystemAccessMode::Write,
    ensures
        match policy.entries[k].path {
            PlaceView::GlobPattern { .. } => true,
            PlaceView::Special { value } => !(value is Unmaterialized),
            PlaceView::Path { path } => {
                &&& dot_git.parent() matches Some(checkout)
                &&& findings.ask_git_dirs(checkout) matches Ok(Some(dirs))
                &&& findings.ask_canonical(dot_git) matches Ok(CanonicalView::Resolved(target))
                &&& resolve_uri(findings, path) matches Ok(Some(place))
                &&& {
                    ||| policy.entries[k].skips_missing_path && place == target
                    ||| {
                        &&& !covers_destination(dirs, place)
                        &&& place.starts_with(target) ==> {
                            &&& is_kept(
                                findings,
                                policy.entries,
                                dirs,
                                added,
                                dirs.git_dir.join(place.suffix_below(target)),
                                policy.entries[k].access,
                            )
                            &&& is_kept(
                                findings,
                                policy.entries,
                                dirs,
                                added,
                                dirs.common_dir.join(place.suffix_below(target)),
                                policy.entries[k].access,
                            )
                        }
                    }
                }
            },
        },
{
    let checkout = dot_git.parent()->0;
    let dirs = findings.git_dirs[checkout]->0;
    let target = findings.canonical[dot_git]->Resolved_0;
    let entries = policy.entries;
    let entry = entries[k];
    carried_from_keeps(findings, entries, target, dirs, 0, k);
    let all = carried_from(findings, entries, target, dirs, 0)->Ok_0->0;
    let own = carried(findings, entries, target, dirs, entry)->Ok_0->0;
    match entry.path {
        PlaceView::Path { path } => {
            let place = resolve_uri(findings, path)->Ok_0->0;
            if !(entry.skips_missing_path && place == target) && place.starts_with(target) {
                let suffix = place.suffix_below(target);
                let first = dirs.git_dir.join(suffix);
                let second = dirs.common_dir.join(suffix);
                assert(own == seq![
                    plain_entry(first, entry.access),
                    plain_entry(second, entry.access),
                ]);
                assert(own[0] == plain_entry(first, entry.access));
                assert(own[1] == plain_entry(second, entry.access));
                assert(all.contains(own[0]) && all.contains(own[1]));
                let a = choose|a: int| 0 <= a < all.len() && all[a] == own[0];
                let b = choose|b: int| 0 <= b < all.len() && all[b] == own[1];
                assert(added[a + 2] == own[0]);
                assert(added[b + 2] == own[1]);
                assert forall|c: int| #![trigger entries[c]]
                    0 <= c < entries.len() && entries[c].access
                        == FileSystemAccessMode::Write implies (
                entries[c].path matches PlaceView::Path { path: uri } ==> {
                    &&& resolve_uri(findings, uri) matches Ok(Some(place))
                    &&& !place.starts_with(first)
                    &&& !place.starts_with(second)
                }) by {
                    no_write_below(findings, entries, first, 0, c);
                    no_write_below(findings, entries, second, 0, c);
                }
            }
        },
        _ => {},
    }
}

proof fn insertion_shifts(entries: Seq<EntryView>, entry: EntryView, n: int)
    requires
        0 <= n <= entries.len(),
    ensures
        entries.insert(n, entry).len() == entries.len() + 1,
        entries.insert(n, entry)[n] == entry,
        forall|k: int| 0 <= k < n ==> entries.insert(n, entry)[k] == #[trigger] entries[k],
        forall|k: int|
            n <= k < entries.len() ==> entries.insert(n, entry)[k + 1] == #[trigger] entries[k],
{
}

/// One more rule that grants no writing changes nothing about which grants lie below a path.
proof fn write_granted_below_with(
    f: FindingsView,
    entries: Seq<EntryView>,
    entry: EntryView,
    n: int,
    projected: PathView,
    i: int,
)
    requires
        0 <= n <= entries.len(),
        0 <= i <= entries.len(),
        entry.access != FileSystemAccessMode::Write,
    ensures
        i <= n ==> write_granted_below(f, entries.insert(n, entry), projected, i)
            == write_granted_below(f, entries, projected, i),
        i >= n ==> write_granted_below(f, entries.insert(n, entry), projected, i + 1)
            == write_granted_below(f, entries, projected, i),
    decreases entries.len() - i,
{
    insertion_shifts(entries, entry, n);
    if i < entries.len() {
        write_granted_below_with(f, entries, entry, n, projected, i + 1);
    }
}

proof fn carried_with(
    f: FindingsView,
    entries: Seq<EntryView>,
    entry: EntryView,
    n: int,
    dot_git: PathView,
    dirs: GitDirsView,
    other: EntryView,
)
    requires
        0 <= n <= entries.len(),
        entry.access != FileSystemAccessMode::Write,
    ensures
        carried(f, entries.insert(n, entry), dot_git, dirs, other) == carried(
            f,
            entries,
            dot_git,
            dirs,
            other,
        ),
{
    match other.path {
        PlaceView::Path { path } => match resolve_uri(f, path) {
            Ok(Some(place)) => {
                let suffix = place.suffix_below(dot_git);
                write_granted_below_with(f, entries, entry, n, dirs.git_dir.join(suffix), 0);
                write_granted_below_with(f, entries, entry, n, dirs.common_dir.join(suffix), 0);
            },
            _ => {},
        },
        _ => {},
    }
}

/// One more rule that adds nothing to the grants changes nothing about what the others add.
pub(crate) proof fn carried_from_with(
    f: FindingsView,
    entries: Seq<EntryView>,
    entry: EntryView,
    n: int,
    dot_git: PathView,
    dirs: GitDirsView,
    i: int,
)
    requires
        0 <= n <= entries.len(),
        0 <= i <= entries.len(),
        entry.access != FileSystemAccessMode::Write,
        carried(f, entries, dot_git, dirs, entry) == Ok::<_, QuestionView>(
            Some(Seq::<EntryView>::empty()),
        ),
    ensures
        i <= n ==> carried_from(f, entries.insert(n, entry), dot_git, dirs, i) == carried_from(
            f,
            entries,
            dot_git,
            dirs,
            i,
        ),
        i >= n ==> carried_from(f, entries.insert(n, entry), dot_git, dirs, i + 1) == carried_from(
            f,
            entries,
            dot_git,
            dirs,
            i,
        ),
    decreases entries.len() - i,
{
    let longer = entries.insert(n, entry);
    insertion_shifts(entries, entry, n);
    carried_with(f, entries, entry, n, dot_git, dirs, entry);
    if i < entries.len() {
        carried_with(f, entries, entry, n, dot_git, dirs, entries[i]);
        carried_from_with(f, entries, entry, n, dot_git, dirs, i + 1);
    }
    if i == n {
        match carried_from(f, longer, dot_git, dirs, n + 1) {
            Ok(Some(rest)) => {
                assert(Seq::<EntryView>::empty() + rest =~= rest);
            },
            _ => {},
        }
    }
}

/// The policy with one more rule, which stands at index `n`.
pub open spec fn with_rule(policy: PolicyView, n: int, entry: EntryView) -> PolicyView {
    PolicyView { kind: policy.kind, entries: policy.entries.insert(n, entry) }
}

/// A skippable default rule on the resolved `.git`, wherever it stands in the policy, neither
/// blocks the grant nor is carried over: the grant stands for the same rules with it as without
/// it, where the host finds the `.git` as readable and the same patterns unreadable.
pub proof fn a_skippable_rule_on_dot_git_gives_way(
    findings: FindingsView,
    policy: PolicyView,
    dot_git: PathView,
    target: PathView,
    n: int,
    entry: EntryView,
    uri: UriView,
)
    requires
        0 <= n <= policy.entries.len(),
        entry.access != FileSystemAccessMode::Write,
        entry.skips_missing_path,
        entry.path == (PlaceView::Path { path: uri }),
        resolve_uri(findings, uri) == Ok::<_, QuestionView>(Some(target)),
        findings.ask_canonical(dot_git) == Ok::<_, QuestionView>(CanonicalView::Resolved(target)),
        findings.ask_read_access(with_rule(policy, n, entry), dot_git) == findings.ask_read_access(
            policy,
            dot_git,
        ),
        findings.ask_globs(with_rule(policy, n, entry)) == findings.ask_globs(policy),
    ensures
        grants(findings, with_rule(policy, n, entry), dot_git) == grants(findings, policy, dot_git),
{
    if dot_git.parent() is Some {
        match findings.ask_git_dirs(dot_git.parent()->0) {
            Ok(Some(dirs)) => {
                carried_from_with(findings, policy.entries, entry, n, target, dirs, 0);
            },
            _ => {},
        }
    }
}

/// A firm restriction on the resolved `.git` itself, wherever it stands in the policy, leaves the
/// grant without effect: no rules come of it, and where the host answers everything it is
/// refused.
pub proof fn a_firm_rule_on_dot_git_refuses_the_grant(
    findings: FindingsView,
    policy: PolicyView,
    dot_git: PathView,
    target: PathView,
    n: int,
    uri: UriView,
)
    requires
        0 <= n < policy.entries.len(),
        policy.entries[n].access != FileSystemAccessMode::Write,
        !policy.entries[n].skips_missing_path,
        policy.entries[n].path == (PlaceView::Path { path: uri }),
        resolve_uri(findings, uri) == Ok::<_, QuestionView>(Some(target)),
        findings.ask_canonical(dot_git) == Ok::<_, QuestionView>(CanonicalView::Resolved(target)),
    ensures
        grants(findings, policy, dot_git) matches Ok(granted) ==> granted is None,
        findings.is_complete() ==> grants(findings, policy, dot_git) == Ok::<
            Option<Seq<EntryView>>,
            QuestionView,
        >(None),
{
    match grants(findings, policy, dot_git) {
        Ok(Some(added)) => {
            restrictions_survive(findings, policy, dot_git, added, n);
            let dirs = findings.git_dirs[dot_git.parent()->0]->0;
            assert(target.names.take(target.names.len() as int) =~= target.names);
            assert(dirs.git_dir.join(target.suffix_below(target)) =~= dirs.git_dir);
            assert(dirs.git_dir.names.take(dirs.git_dir.names.len() as int)
                =~= dirs.git_dir.names);
        },
        _ => {},
    }
    if findings.is_complete() {
        a_grant_is_refused_exactly_when(findings, policy, dot_git);
    }
}

} // verus!
