//! What paths, patterns, rules and findings come down to, in terms of names, bytes and fields.

use vstd::prelude::*;
use crate::findings::{
    outcome, Canonical, CanonicalView, FindingsView, GitDirsView, LinkedWorktreeGitDirs, Question,
    QuestionView, ReadAccess,
};
use crate::glob::{anchor, has_wildcard, is_wildcard, lemma_literal_len, literal_names};
use crate::model::{existing_prefix, resolve, resolve_uri};
use crate::path::{AbsolutePath, PathView};
use crate::permissions::{
    FileSystemPath, FileSystemSandboxEntry, FileSystemSandboxPolicy, FileSystemSpecialPath,
    PathUri, PlaceView, PolicyView, SpecialView, UriView,
};

verus! {

/// A path lies at or below another exactly if both have the same root and the first names of the
/// one are all the names of the other.
pub proof fn lying_below_compares_names(path: PathView, base: PathView)
    ensures
        path.starts_with(base) <==> {
            &&& path.root == base.root
            &&& base.names.len() <= path.names.len()
            &&& forall|i: int|
                0 <= i < base.names.len() ==> #[trigger] path.names[i] == base.names[i]
        },
{
    let first = path.names.take(base.names.len() as int);
    if path.starts_with(base) {
        assert forall|i: int| 0 <= i < base.names.len() implies #[trigger] path.names[i]
            == base.names[i] by {
            assert(first[i] == path.names[i]);
        }
    } else if base.names.len() <= path.names.len() && forall|i: int|
        0 <= i < base.names.len() ==> #[trigger] path.names[i] == base.names[i] {
        assert(first =~= base.names);
    }
}

/// Appending names keeps the root and the names that are there and puts the new ones behind
/// them; what stands behind a path that another path lies below leads from the one to the other.
pub proof fn joining_appends_names(path: PathView, names: Seq<Seq<u8>>, base: PathView)
    ensures
        path.join(names).root == path.root,
        path.join(names).names.len() == path.names.len() + names.len(),
        forall|i: int|
            0 <= i < path.names.len() ==> #[trigger] path.join(names).names[i] == path.names[i],
        forall|i: int|
            0 <= i < names.len() ==> path.join(names).names[path.names.len() + i]
                == #[trigger] names[i],
        base.names.len() <= path.names.len() ==> path.suffix_below(base).len()
            == path.names.len() - base.names.len(),
        forall|i: int|
            base.names.len() <= i < path.names.len() ==> path.suffix_below(base)[i
                - base.names.len()] == #[trigger] path.names[i],
{
}

/// The parent of a path is the path without its last name; a bare root has none. An ancestor
/// keeps the root and the first names.
pub proof fn parents_lose_the_last_name(path: PathView, depth: nat)
    ensures
        path.names.len() == 0 <==> path.parent() is None,
        path.parent() matches Some(parent) ==> {
            &&& parent.root == path.root
            &&& parent.names.len() + 1 == path.names.len()
            &&& forall|i: int|
                0 <= i < parent.names.len() ==> #[trigger] parent.names[i] == path.names[i]
        },
        depth <= path.names.len() ==> {
            &&& path.ancestor(depth).root == path.root
            &&& path.ancestor(depth).names.len() == depth
            &&& forall|i: int|
                0 <= i < depth ==> #[trigger] path.ancestor(depth).names[i] == path.names[i]
        },
{
}

/// A path shows its root and each of its names, byte by byte.
pub proof fn a_path_shows_its_names(path: AbsolutePath)
    ensures
        path@.root == path.root@,
        path@.names.len() == path.names@.len(),
        forall|i: int| 0 <= i < path.names@.len() ==> #[trigger] path@.names[i] == path.names@[i]@,
{
}

/// A rule shows its place, its access and whether it is a default, and a policy shows its kind
/// and each of its rules.
pub proof fn a_policy_shows_its_rules(policy: FileSystemSandboxPolicy, rule: FileSystemSandboxEntry)
    ensures
        policy@.kind == policy.kind,
        policy@.entries.len() == policy.entries@.len(),
        forall|i: int|
            0 <= i < policy.entries@.len() ==> #[trigger] policy@.entries[i]
                == policy.entries@[i]@,
        rule@.access == rule.access,
        rule@.skips_missing_path == rule.skips_missing_path,
        rule@.path == rule.path@,
{
}

/// A place shows of which kind it is, and its path, pattern, text or name.
pub proof fn a_place_shows_what_it_names(place: FileSystemPath)
    ensures
        match place {
            FileSystemPath::Path { path: PathUri::Native(path) } => place@ == (PlaceView::Path {
                path: UriView::Native(path@),
            }),
            FileSystemPath::Path { path: PathUri::Foreign(text) } => place@ == (PlaceView::Path {
                path: UriView::Foreign(text@),
            }),
            FileSystemPath::GlobPattern { pattern } => place@ == (PlaceView::GlobPattern {
                pattern: pattern@,
            }),
            FileSystemPath::Special { value: FileSystemSpecialPath::Root } => place@ == (
            PlaceView::Special { value: SpecialView::Root }),
            FileSystemPath::Special { value: FileSystemSpecialPath::Minimal } => place@ == (
            PlaceView::Special { value: SpecialView::Minimal }),
            FileSystemPath::Special { value: FileSystemSpecialPath::Unmaterialized { name } } => {
                place@ == (PlaceView::Special {
                    value: SpecialView::Unmaterialized { name: name@ },
                })
            },
        },
{
}

/// A question shows of which kind it is and what it is about.
pub proof fn a_question_shows_its_subject(question: Question)
    ensures
        match question {
            Question::CanWrite { policy, path } => question@ == (QuestionView::CanWrite {
                policy: policy@,
                path: path@,
            }),
            Question::ReadAccess { policy, path } => question@ == (QuestionView::ReadAccess {
                policy: policy@,
                path: path@,
            }),
            Question::LinkedWorktreeGitDirs { checkout } => question@ == (
            QuestionView::LinkedWorktreeGitDirs { checkout: checkout@ }),
            Question::UnreadableGlobs { policy } => question@ == (QuestionView::UnreadableGlobs {
                policy: policy@,
            }),
            Question::Canonicalize { path } => question@ == (QuestionView::Canonicalize {
                path: path@,
            }),
        },
{
}

/// An answer of the host shows what it says, and a decision its value or its question.
pub proof fn an_answer_shows_what_it_says(
    canonical: Canonical,
    dirs: LinkedWorktreeGitDirs,
    decision: Result<bool, Question>,
)
    ensures
        match canonical {
            Canonical::NotAbsolute => canonical.deep_view() == CanonicalView::NotAbsolute,
            Canonical::Missing => canonical.deep_view() == CanonicalView::Missing,
            Canonical::Resolved(path) => canonical.deep_view() == CanonicalView::Resolved(path@),
        },
        dirs.deep_view().git_dir == dirs.git_dir@,
        dirs.deep_view().common_dir == dirs.common_dir@,
        match decision {
            Ok(value) => outcome(decision) == Ok::<_, QuestionView>(value),
            Err(question) => outcome(decision) == Err::<bool, _>(question@),
        },
{
}

/// A recorded answer is what asking gives; where none is recorded, asking gives the question
/// itself, about the same policy and the same path.
pub proof fn asking_gives_what_is_recorded(
    findings: FindingsView,
    policy: PolicyView,
    path: PathView,
)
    ensures
        findings.can_write.contains_key((policy, path)) ==> findings.ask_can_write(policy, path)
            == Ok::<_, QuestionView>(findings.can_write[(policy, path)]),
        !findings.can_write.contains_key((policy, path)) ==> findings.ask_can_write(policy, path)
            == Err::<bool, _>(QuestionView::CanWrite { policy, path }),
        findings.read_access.contains_key((policy, path)) ==> findings.ask_read_access(policy, path)
            == Ok::<_, QuestionView>(findings.read_access[(policy, path)]),
        !findings.read_access.contains_key((policy, path)) ==> findings.ask_read_access(
            policy,
            path,
        ) == Err::<ReadAccess, _>(QuestionView::ReadAccess { policy, path }),
        findings.git_dirs.contains_key(path) ==> findings.ask_git_dirs(path) == Ok::<
            _,
            QuestionView,
        >(findings.git_dirs[path]),
        !findings.git_dirs.contains_key(path) ==> findings.ask_git_dirs(path) == Err::<
            Option<GitDirsView>,
            _,
        >(QuestionView::LinkedWorktreeGitDirs { checkout: path }),
        findings.globs.contains_key(policy) ==> findings.ask_globs(policy) == Ok::<_, QuestionView>(
            findings.globs[policy],
        ),
        !findings.globs.contains_key(policy) ==> findings.ask_globs(policy) == Err::<
            Seq<PathView>,
            _,
        >(QuestionView::UnreadableGlobs { policy }),
        findings.canonical.contains_key(path) ==> findings.ask_canonical(path) == Ok::<
            _,
            QuestionView,
        >(findings.canonical[path]),
        !findings.canonical.contains_key(path) ==> findings.ask_canonical(path) == Err::<
            CanonicalView,
            _,
        >(QuestionView::Canonicalize { path }),
{
}

/// A host that answers everything has recorded an answer on every policy and every path.
pub proof fn a_complete_host_leaves_nothing_open(
    host: FindingsView,
    policy: PolicyView,
    path: PathView,
)
    requires
        host.is_complete(),
    ensures
        host.can_write.contains_key((policy, path)),
        host.read_access.contains_key((policy, path)),
        host.git_dirs.contains_key(path),
        host.globs.contains_key(policy),
        host.canonical.contains_key(path),
{
    assert(host.answers(QuestionView::CanWrite { policy, path }));
    assert(host.answers(QuestionView::ReadAccess { policy, path }));
    assert(host.answers(QuestionView::LinkedWorktreeGitDirs { checkout: path }));
    assert(host.answers(QuestionView::UnreadableGlobs { policy }));
    assert(host.answers(QuestionView::Canonicalize { path }));
}

/// A pattern whose root holds one of `*`, `?`, `[`, `]`, `{` and `}` is anchored nowhere.
pub proof fn a_wildcard_in_the_root_leaves_no_anchor(pattern: PathView, c: int)
    requires
        0 <= c < pattern.root.len(),
        pattern.root[c] == 0x2a || pattern.root[c] == 0x3f || pattern.root[c] == 0x5b
            || pattern.root[c] == 0x5d || pattern.root[c] == 0x7b || pattern.root[c] == 0x7d,
    ensures
        anchor(pattern) is None,
{
    assert(is_wildcard(pattern.root[c]));
}

/// A pattern without any of `*`, `?`, `[`, `]`, `{` and `}` is anchored in its parent.
pub proof fn a_pattern_without_wildcards_is_anchored_in_its_parent(pattern: PathView)
    requires
        forall|c: int| #![trigger pattern.root[c]]
            0 <= c < pattern.root.len() ==> pattern.root[c] != 0x2a && pattern.root[c] != 0x3f
                && pattern.root[c] != 0x5b && pattern.root[c] != 0x5d && pattern.root[c] != 0x7b
                && pattern.root[c] != 0x7d,
        forall|i: int, c: int| #![trigger pattern.names[i][c]]
            0 <= i < pattern.names.len() && 0 <= c < pattern.names[i].len()
                ==> pattern.names[i][c] != 0x2a && pattern.names[i][c] != 0x3f
                && pattern.names[i][c] != 0x5b && pattern.names[i][c] != 0x5d
                && pattern.names[i][c] != 0x7b && pattern.names[i][c] != 0x7d,
    ensures
        pattern.names.len() == 0 ==> anchor(pattern) is None,
        pattern.names.len() > 0 ==> anchor(pattern) == Some(
            (PathView {
                root: pattern.root,
                names: pattern.names.take(pattern.names.len() - 1),
            }),
        ),
{
    assert(!has_wildcard(pattern.root));
    assert forall|i: int| 0 <= i < pattern.names.len() implies !has_wildcard(
        #[trigger] pattern.names[i],
    ) by {}
    literal_names_up_to(pattern.names, pattern.names.len());
    assert(pattern.names.take(pattern.names.len() as int) =~= pattern.names);
    assert(pattern.names.skip(pattern.names.len() as int) =~= seq![]);
    assert(literal_names(pattern.names) =~= pattern.names);
}

proof fn literal_names_up_to(names: Seq<Seq<u8>>, k: nat)
    requires
        k <= names.len(),
        forall|i: int| 0 <= i < k ==> !has_wildcard(#[trigger] names[i]),
    ensures
        literal_names(names) == names.take(k as int) + literal_names(names.skip(k as int)),
    decreases k,
{
    if k == 0 {
        assert(names.take(0) + literal_names(names.skip(0)) =~= literal_names(names)) by {
            assert(names.skip(0) =~= names);
        }
    } else {
        let rest = names.drop_first();
        assert(!has_wildcard(names[0]));
        assert forall|i: int| 0 <= i < k - 1 implies !has_wildcard(#[trigger] rest[i]) by {
            assert(rest[i] == names[i + 1]);
        }
        literal_names_up_to(rest, (k - 1) as nat);
        assert(rest.skip(k - 1) =~= names.skip(k as int));
        assert(seq![names[0]] + (rest.take(k - 1) + literal_names(names.skip(k as int)))
            =~= names.take(k as int) + literal_names(names.skip(k as int)));
    }
}

/// A pattern is cut at the first of `*`, `?`, `[`, `]`, `{` and `}`, here at index `c` of the
/// name at index `k`, and anchored in the parent of what is left: all the names before it where
/// something is left of that name, one name fewer where nothing, or only a `.`, is left of it.
pub proof fn a_pattern_is_anchored_above_its_first_wildcard(pattern: PathView, k: int, c: int)
    requires
        forall|b: int| #![trigger pattern.root[b]]
            0 <= b < pattern.root.len() ==> pattern.root[b] != 0x2a && pattern.root[b] != 0x3f
                && pattern.root[b] != 0x5b && pattern.root[b] != 0x5d && pattern.root[b] != 0x7b
                && pattern.root[b] != 0x7d,
        0 <= k < pattern.names.len(),
        0 <= c < pattern.names[k].len(),
        forall|i: int, b: int| #![trigger pattern.names[i][b]]
            (0 <= i < k && 0 <= b < pattern.names[i].len()) || (i == k && 0 <= b < c)
                ==> pattern.names[i][b] != 0x2a && pattern.names[i][b] != 0x3f
                && pattern.names[i][b] != 0x5b && pattern.names[i][b] != 0x5d
                && pattern.names[i][b] != 0x7b && pattern.names[i][b] != 0x7d,
        pattern.names[k][c] == 0x2a || pattern.names[k][c] == 0x3f || pattern.names[k][c] == 0x5b
            || pattern.names[k][c] == 0x5d || pattern.names[k][c] == 0x7b || pattern.names[k][c]
            == 0x7d,
    ensures
        c >= 2 || (c == 1 && pattern.names[k][0] != 0x2e) ==> anchor(pattern) == Some(
            (PathView { root: pattern.root, names: pattern.names.take(k) }),
        ),
        c == 0 || (c == 1 && pattern.names[k][0] == 0x2e) ==> (if k == 0 {
            anchor(pattern) is None
        } else {
            anchor(pattern) == Some(
                (PathView { root: pattern.root, names: pattern.names.take(k - 1) }),
            )
        }),
{
    let names = pattern.names;
    assert(!has_wildcard(pattern.root));
    assert forall|i: int| 0 <= i < k implies !has_wildcard(#[trigger] names[i]) by {
        assert forall|b: int| 0 <= b < names[i].len() implies !is_wildcard(
            #[trigger] names[i][b],
        ) by {
            assert(names[i][b] == pattern.names[i][b]);
        }
    }
    literal_names_up_to(names, k as nat);
    let rest = names.skip(k);
    assert(rest[0] == names[k]);
    assert forall|b: int| 0 <= b < c implies !is_wildcard(#[trigger] names[k][b]) by {
        assert(names[k][b] == pattern.names[k][b]);
    }
    assert(is_wildcard(names[k][c]));
    lemma_literal_len(names[k], c as nat);
    let literal = names[k].take(c);
    if c == 1 && names[k][0] == 0x2e {
        assert(literal =~= seq![0x2eu8]);
    }
    if c >= 1 {
        assert(literal[0] == names[k][0]);
    }
    if c >= 2 || (c == 1 && names[k][0] != 0x2e) {
        assert(literal != seq![0x2eu8]) by {
            if literal == seq![0x2eu8] {
                assert(literal.len() == 1 && literal[0] == 0x2e);
            }
        }
        assert(literal_names(names) == names.take(k) + seq![literal]);
        assert((names.take(k) + seq![literal]).take(k) =~= names.take(k));
    } else {
        assert(literal_names(names) =~= names.take(k));
        if k > 0 {
            assert(names.take(k).take(k - 1) =~= names.take(k - 1));
        }
    }
}

/// The names of an anchor hold none of `*`, `?`, `[`, `]`, `{` and `}`, and they are the first
/// names of the pattern.
pub proof fn an_anchor_holds_no_wildcard(pattern: PathView, directory: PathView, i: int, c: int)
    requires
        anchor(pattern) == Some(directory),
        0 <= i < directory.names.len(),
        0 <= c < directory.names[i].len(),
    ensures
        directory.root == pattern.root,
        i < pattern.names.len(),
        directory.names[i] == pattern.names[i],
        directory.names[i][c] != 0x2a,
        directory.names[i][c] != 0x3f,
        directory.names[i][c] != 0x5b,
        directory.names[i][c] != 0x5d,
        directory.names[i][c] != 0x7b,
        directory.names[i][c] != 0x7d,
{
    crate::glob::anchor_holds_every_match(pattern);
    assert(!has_wildcard(directory.names[i]));
    assert(!is_wildcard(directory.names[i][c]));
    assert(pattern.names.take(directory.names.len() as int)[i] == pattern.names[i]);
}

/// A path comes to a place through its deepest ancestor that the host can resolve: where the
/// first `depth` names resolve to `target` and no longer part of the path does, the remaining
/// names follow those of `target`. The place of a rule on that path is the same.
pub proof fn a_path_comes_to_the_place_of_its_deepest_ancestor(
    findings: FindingsView,
    path: PathView,
    depth: nat,
    target: PathView,
)
    requires
        depth <= path.names.len(),
        findings.canonical.contains_key(
            (PathView { root: path.root, names: path.names.take(depth as int) }),
        ),
        findings.canonical[(PathView { root: path.root, names: path.names.take(depth as int) })]
            == CanonicalView::Resolved(target),
        forall|deeper: nat|
            depth < deeper <= path.names.len() ==> {
                &&& findings.canonical.contains_key(
                    (PathView {
                        root: path.root,
                        names: #[trigger] path.names.take(deeper as int),
                    }),
                )
                &&& findings.canonical[(PathView {
                    root: path.root,
                    names: path.names.take(deeper as int),
                })] == CanonicalView::Missing
            },
    ensures
        resolve(findings, path) == Ok::<_, QuestionView>(
            Some(
                (PathView {
                    root: target.root,
                    names: target.names + path.names.skip(depth as int),
                }),
            ),
        ),
        resolve_uri(findings, UriView::Native(path)) == Ok::<_, QuestionView>(
            Some(
                (PathView {
                    root: target.root,
                    names: target.names + path.names.skip(depth as int),
                }),
            ),
        ),
{
    climb(findings, path, path.names.len(), depth);
}

proof fn climb(findings: FindingsView, path: PathView, from: nat, to: nat)
    requires
        to <= from <= path.names.len(),
        forall|deeper: nat|
            to < deeper <= path.names.len() ==> {
                &&& findings.canonical.contains_key(
                    (PathView {
                        root: path.root,
                        names: #[trigger] path.names.take(deeper as int),
                    }),
                )
                &&& findings.canonical[(PathView {
                    root: path.root,
                    names: path.names.take(deeper as int),
                })] == CanonicalView::Missing
            },
    ensures
        existing_prefix(findings, path, from) == existing_prefix(findings, path, to),
    decreases from,
{
    if to < from {
        assert(path.names.take(from as int) == path.ancestor(from).names);
        climb(findings, path, (from - 1) as nat, to);
    }
}

/// A path has no place where no part of it resolves, or where a part that is no absolute path is
/// met before one that resolves; and where the host has not said yet whether a part resolves that
/// is met before one that does, that is what is asked. A foreign rule has no place.
pub proof fn a_path_without_a_resolved_ancestor_has_no_place(
    findings: FindingsView,
    path: PathView,
    depth: nat,
    text: Seq<u8>,
)
    requires
        depth <= path.names.len(),
        forall|deeper: nat|
            depth < deeper <= path.names.len() ==> {
                &&& findings.canonical.contains_key(
                    (PathView {
                        root: path.root,
                        names: #[trigger] path.names.take(deeper as int),
                    }),
                )
                &&& findings.canonical[(PathView {
                    root: path.root,
                    names: path.names.take(deeper as int),
                })] == CanonicalView::Missing
            },
    ensures
        resolve_uri(findings, UriView::Native(path)) == resolve(findings, path),
        resolve_uri(findings, UriView::Foreign(text)) == Ok::<Option<PathView>, QuestionView>(None),
        !findings.canonical.contains_key(
            (PathView { root: path.root, names: path.names.take(depth as int) }),
        ) ==> resolve(findings, path) == Err::<Option<PathView>, _>(
            QuestionView::Canonicalize {
                path: PathView { root: path.root, names: path.names.take(depth as int) },
            },
        ),
        findings.canonical.contains_key(
            (PathView { root: path.root, names: path.names.take(depth as int) }),
        ) && findings.canonical[(PathView {
            root: path.root,
            names: path.names.take(depth as int),
        })] == CanonicalView::NotAbsolute ==> resolve(findings, path) == Ok::<
            Option<PathView>,
            QuestionView,
        >(None),
        depth == 0 && findings.canonical.contains_key(
            (PathView { root: path.root, names: path.names.take(0) }),
        ) && findings.canonical[(PathView { root: path.root, names: path.names.take(0) })]
            == CanonicalView::Missing ==> resolve(findings, path) == Ok::<
            Option<PathView>,
            QuestionView,
        >(None),
{
    climb(findings, path, path.names.len(), depth);
}

} // verus!
