//! Laws of the exchange with the host: every question is open, recorded answers stand, and the
//! exchange comes to an end.

use vstd::prelude::*;
use crate::findings::{CanonicalView, FindingsView, GitDirsView, QuestionView};
use crate::glob::anchor;
use crate::model::{
    carried, carried_from, existing_prefix, expand, expand_entry, expand_from, globs_interfere,
    granted_dot_git, grants, grants_for_dirs, projections, resolve_uri, write_granted_below,
};
use crate::path::PathView;
use crate::permissions::{
    EntryView, FileSystemAccessMode, FileSystemSandboxKind, PlaceView, PolicyView, UriView,
};

verus! {

impl FindingsView {
    /// Where both findings answer a question, they answer it alike.
    pub open spec fn agrees_with(self, other: FindingsView) -> bool {
        &&& forall|k: (PolicyView, PathView)|
            #![trigger self.can_write[k]]
            #![trigger other.can_write[k]]
            self.can_write.contains_key(k) && other.can_write.contains_key(k) ==> self.can_write[k]
                == other.can_write[k]
        &&& forall|k: (PolicyView, PathView)|
            #![trigger self.read_access[k]]
            #![trigger other.read_access[k]]
            self.read_access.contains_key(k) && other.read_access.contains_key(k)
                ==> self.read_access[k] == other.read_access[k]
        &&& forall|k: PathView|
            #![trigger self.git_dirs[k]]
            #![trigger other.git_dirs[k]]
            self.git_dirs.contains_key(k) && other.git_dirs.contains_key(k) ==> self.git_dirs[k]
                == other.git_dirs[k]
        &&& forall|k: PolicyView|
            #![trigger self.globs[k]]
            #![trigger other.globs[k]]
            self.globs.contains_key(k) && other.globs.contains_key(k) ==> self.globs[k]
                == other.globs[k]
        &&& forall|k: PathView|
            #![trigger self.canonical[k]]
            #![trigger other.canonical[k]]
            self.canonical.contains_key(k) && other.canonical.contains_key(k) ==> self.canonical[k]
                == other.canonical[k]
    }

    /// Every question that these findings answer, the other findings answer, and alike.
    pub open spec fn is_part_of(self, other: FindingsView) -> bool {
        &&& self.agrees_with(other)
        &&& forall|question: QuestionView| #[trigger]
            self.answers(question) ==> other.answers(question)
    }

    /// Every question is answered: what a host can say at one moment.
    pub open spec fn is_complete(self) -> bool {
        forall|question: QuestionView| #[trigger] self.answers(question)
    }

    /// These findings and the host's answer to one more question.
    pub open spec fn learn(self, host: FindingsView, question: QuestionView) -> FindingsView {
        match question {
            QuestionView::CanWrite { policy, path } => FindingsView {
                can_write: self.can_write.insert((policy, path), host.can_write[(policy, path)]),
                ..self
            },
            QuestionView::ReadAccess { policy, path } => FindingsView {
                read_access: self.read_access.insert(
                    (policy, path),
                    host.read_access[(policy, path)],
                ),
                ..self
            },
            QuestionView::LinkedWorktreeGitDirs { checkout } => FindingsView {
                git_dirs: self.git_dirs.insert(checkout, host.git_dirs[checkout]),
                ..self
            },
            QuestionView::UnreadableGlobs { policy } => FindingsView {
                globs: self.globs.insert(policy, host.globs[policy]),
                ..self
            },
            QuestionView::Canonicalize { path } => FindingsView {
                canonical: self.canonical.insert(path, host.canonical[path]),
                ..self
            },
        }
    }
}

/// How two outcomes of one decision, each on its own findings, fit together: an open question of
/// either is not answered by its own findings; two values are equal; and an open question of one
/// is answered by the other's findings, unless both are held up by the same question.
spec fn fit<T>(
    f: FindingsView,
    g: FindingsView,
    a: Result<T, QuestionView>,
    b: Result<T, QuestionView>,
) -> bool {
    match (a, b) {
        (Ok(x), Ok(y)) => x == y,
        (Err(q), Ok(_)) => !f.answers(q) && g.answers(q),
        (Ok(_), Err(r)) => f.answers(r) && !g.answers(r),
        (Err(q), Err(r)) => !f.answers(q) && !g.answers(r) && (q == r || g.answers(q) || f.answers(
            r,
        )),
    }
}

proof fn fit_existing_prefix(f: FindingsView, g: FindingsView, path: PathView, depth: nat)
    requires
        f.agrees_with(g),
    ensures
        fit(f, g, existing_prefix(f, path, depth), existing_prefix(g, path, depth)),
    decreases depth,
{
    if depth > 0 {
        fit_existing_prefix(f, g, path, (depth - 1) as nat);
    }
}

proof fn fit_resolve_uri(f: FindingsView, g: FindingsView, uri: UriView)
    requires
        f.agrees_with(g),
    ensures
        fit(f, g, resolve_uri(f, uri), resolve_uri(g, uri)),
{
    match uri {
        UriView::Native(path) => fit_existing_prefix(f, g, path, path.names.len()),
        UriView::Foreign(_) => {},
    }
}

proof fn fit_globs_interfere(
    f: FindingsView,
    g: FindingsView,
    patterns: Seq<PathView>,
    dot_git: PathView,
    dirs: GitDirsView,
    i: int,
)
    requires
        f.agrees_with(g),
    ensures
        fit(
            f,
            g,
            globs_interfere(f, patterns, dot_git, dirs, i),
            globs_interfere(g, patterns, dot_git, dirs, i),
        ),
    decreases patterns.len() - i,
{
    if 0 <= i < patterns.len() {
        match anchor(patterns[i]) {
            None => {},
            Some(directory) => {
                fit_existing_prefix(f, g, directory, directory.names.len());
            },
        }
        fit_globs_interfere(f, g, patterns, dot_git, dirs, i + 1);
    }
}

proof fn fit_write_granted_below(
    f: FindingsView,
    g: FindingsView,
    entries: Seq<EntryView>,
    projected: PathView,
    i: int,
)
    requires
        f.agrees_with(g),
    ensures
        fit(
            f,
            g,
            write_granted_below(f, entries, projected, i),
            write_granted_below(g, entries, projected, i),
        ),
    decreases entries.len() - i,
{
    if 0 <= i < entries.len() {
        match entries[i].path {
            PlaceView::Path { path } => fit_resolve_uri(f, g, path),
            _ => {},
        }
        fit_write_granted_below(f, g, entries, projected, i + 1);
    }
}

proof fn fit_projections(
    f: FindingsView,
    g: FindingsView,
    entries: Seq<EntryView>,
    dirs: GitDirsView,
    suffix: Seq<Seq<u8>>,
    access: FileSystemAccessMode,
)
    requires
        f.agrees_with(g),
    ensures
        fit(
            f,
            g,
            projections(f, entries, dirs, suffix, access),
            projections(g, entries, dirs, suffix, access),
        ),
{
    fit_write_granted_below(f, g, entries, dirs.git_dir.join(suffix), 0);
    fit_write_granted_below(f, g, entries, dirs.common_dir.join(suffix), 0);
}

proof fn fit_carried(
    f: FindingsView,
    g: FindingsView,
    entries: Seq<EntryView>,
    dot_git: PathView,
    dirs: GitDirsView,
    entry: EntryView,
)
    requires
        f.agrees_with(g),
    ensures
        fit(
            f,
            g,
            carried(f, entries, dot_git, dirs, entry),
            carried(g, entries, dot_git, dirs, entry),
        ),
{
    match entry.path {
        PlaceView::Path { path } => {
            fit_resolve_uri(f, g, path);
            match resolve_uri(f, path) {
                Ok(Some(place)) => {
                    fit_projections(
                        f,
                        g,
                        entries,
                        dirs,
                        place.suffix_below(dot_git),
                        entry.access,
                    );
                },
                _ => {},
            }
            match resolve_uri(g, path) {
                Ok(Some(place)) => {
                    fit_projections(
                        f,
                        g,
                        entries,
                        dirs,
                        place.suffix_below(dot_git),
                        entry.access,
                    );
                },
                _ => {},
            }
        },
        _ => {},
    }
}

proof fn fit_carried_from(
    f: FindingsView,
    g: FindingsView,
    entries: Seq<EntryView>,
    dot_git: PathView,
    dirs: GitDirsView,
    i: int,
)
    requires
        f.agrees_with(g),
    ensures
        fit(
            f,
            g,
            carried_from(f, entries, dot_git, dirs, i),
            carried_from(g, entries, dot_git, dirs, i),
        ),
    decreases entries.len() - i,
{
    if 0 <= i < entries.len() {
        fit_carried(f, g, entries, dot_git, dirs, entries[i]);
        fit_carried_from(f, g, entries, dot_git, dirs, i + 1);
    }
}

proof fn fit_grants_for_dirs(
    f: FindingsView,
    g: FindingsView,
    policy: PolicyView,
    dot_git: PathView,
    dirs: GitDirsView,
)
    requires
        f.agrees_with(g),
    ensures
        fit(
            f,
            g,
            grants_for_dirs(f, policy, dot_git, dirs),
            grants_for_dirs(g, policy, dot_git, dirs),
        ),
{
    fit_globs_interfere(f, g, f.globs[policy], dot_git, dirs, 0);
    fit_globs_interfere(f, g, g.globs[policy], dot_git, dirs, 0);
    fit_carried_from(f, g, policy.entries, dot_git, dirs, 0);
}

proof fn fit_grants(f: FindingsView, g: FindingsView, policy: PolicyView, dot_git: PathView)
    requires
        f.agrees_with(g),
    ensures
        fit(f, g, grants(f, policy, dot_git), grants(g, policy, dot_git)),
{
    if dot_git.parent() is Some {
        let checkout = dot_git.parent()->0;
        match (f.ask_git_dirs(checkout), f.ask_canonical(dot_git)) {
            (Ok(Some(dirs)), Ok(CanonicalView::Resolved(target))) => {
                fit_grants_for_dirs(f, g, policy, target, dirs);
            },
            _ => {},
        }
        match (g.ask_git_dirs(checkout), g.ask_canonical(dot_git)) {
            (Ok(Some(dirs)), Ok(CanonicalView::Resolved(target))) => {
                fit_grants_for_dirs(f, g, policy, target, dirs);
            },
            _ => {},
        }
    }
}

proof fn fit_expand_entry(
    f: FindingsView,
    g: FindingsView,
    original: PolicyView,
    policy: PolicyView,
    entry: EntryView,
)
    requires
        f.agrees_with(g),
    ensures
        fit(
            f,
            g,
            expand_entry(f, original, policy, entry),
            expand_entry(g, original, policy, entry),
        ),
{
    match granted_dot_git(entry) {
        None => {},
        Some(dot_git) => {
            fit_grants(f, g, policy, dot_git);
        },
    }
}

proof fn fit_expand_from(
    f: FindingsView,
    g: FindingsView,
    original: PolicyView,
    policy: PolicyView,
    i: int,
)
    requires
        f.agrees_with(g),
    ensures
        fit(f, g, expand_from(f, original, policy, i), expand_from(g, original, policy, i)),
    decreases original.entries.len() - i,
{
    if 0 <= i < original.entries.len() {
        fit_expand_entry(f, g, original, policy, original.entries[i]);
        match (
            expand_entry(f, original, policy, original.entries[i]),
            expand_entry(g, original, policy, original.entries[i]),
        ) {
            (Ok(next), _) => {
                fit_expand_from(f, g, original, next, i + 1);
            },
            (_, Ok(next)) => {
                fit_expand_from(f, g, original, next, i + 1);
            },
            _ => {},
        }
    }
}

proof fn fit_expand(f: FindingsView, g: FindingsView, policy: PolicyView)
    requires
        f.agrees_with(g),
    ensures
        fit(f, g, expand(f, policy), expand(g, policy)),
{
    fit_expand_from(f, g, policy, policy, 0);
}

/// A question that comes back is one that the findings do not answer yet.
pub proof fn a_question_is_open(findings: FindingsView, policy: PolicyView)
    ensures
        expand(findings, policy) matches Err(question) ==> !findings.answers(question),
{
    fit_expand(findings, findings, policy);
}

/// Further answers never change an expansion that is complete.
pub proof fn a_complete_expansion_stands(
    findings: FindingsView,
    more: FindingsView,
    policy: PolicyView,
)
    requires
        findings.is_part_of(more),
        expand(findings, policy) is Ok,
    ensures
        expand(more, policy) == expand(findings, policy),
{
    fit_expand(findings, more, policy);
}

/// A host that answers every question holds up nothing.
pub proof fn a_complete_host_decides(host: FindingsView, policy: PolicyView)
    requires
        host.is_complete(),
    ensures
        expand(host, policy) is Ok,
{
    a_question_is_open(host, policy);
}

/// The findings come from the host and answer every question of the set.
spec fn knows(f: FindingsView, host: FindingsView, questions: Set<QuestionView>) -> bool {
    &&& f.is_part_of(host)
    &&& forall|question: QuestionView| #[trigger]
        questions.contains(question) ==> f.answers(question)
}

/// What is known of a set of questions is known of each part of it.
proof fn knows_parts(
    f: FindingsView,
    host: FindingsView,
    a: Set<QuestionView>,
    b: Set<QuestionView>,
)
    requires
        knows(f, host, a.union(b)),
    ensures
        knows(f, host, a),
        knows(f, host, b),
{
    assert forall|question: QuestionView| #[trigger] a.contains(question) implies f.answers(
        question,
    ) by {
        assert(a.union(b).contains(question));
    }
    assert forall|question: QuestionView| #[trigger] b.contains(question) implies f.answers(
        question,
    ) by {
        assert(a.union(b).contains(question));
    }
}

/// The questions on which the resolution of a path hangs.
proof fn needs_existing_prefix(host: FindingsView, path: PathView, depth: nat) -> (needed: Set<
    QuestionView,
>)
    requires
        host.is_complete(),
    ensures
        needed.finite(),
        forall|f: FindingsView| #[trigger]
            knows(f, host, needed) ==> existing_prefix(f, path, depth) == existing_prefix(
                host,
                path,
                depth,
            ),
    decreases depth,
{
    let question = QuestionView::Canonicalize { path: path.ancestor(depth) };
    let first = set![question];
    let rest = if depth > 0 {
        needs_existing_prefix(host, path, (depth - 1) as nat)
    } else {
        Set::empty()
    };
    let needed = first.union(rest);
    assert forall|f: FindingsView| #[trigger] knows(f, host, needed) implies existing_prefix(
        f,
        path,
        depth,
    ) == existing_prefix(host, path, depth) by {
        knows_parts(f, host, first, rest);
        assert(first.contains(question));
        assert(host.answers(question));
    }
    needed
}

/// The questions on which the resolution of a rule's place hangs.
proof fn needs_resolve_uri(host: FindingsView, uri: UriView) -> (needed: Set<QuestionView>)
    requires
        host.is_complete(),
    ensures
        needed.finite(),
        forall|f: FindingsView| #[trigger]
            knows(f, host, needed) ==> resolve_uri(f, uri) == resolve_uri(host, uri),
{
    match uri {
        UriView::Native(path) => needs_existing_prefix(host, path, path.names.len()),
        UriView::Foreign(_) => Set::empty(),
    }
}

/// The questions on which the check of the patterns hangs.
proof fn needs_globs_interfere(
    host: FindingsView,
    patterns: Seq<PathView>,
    dot_git: PathView,
    dirs: GitDirsView,
    i: int,
) -> (needed: Set<QuestionView>)
    requires
        host.is_complete(),
    ensures
        needed.finite(),
        forall|f: FindingsView| #[trigger]
            knows(f, host, needed) ==> globs_interfere(f, patterns, dot_git, dirs, i)
                == globs_interfere(host, patterns, dot_git, dirs, i),
    decreases patterns.len() - i,
{
    if 0 <= i < patterns.len() {
        match anchor(patterns[i]) {
            None => Set::empty(),
            Some(directory) => {
                let first = needs_existing_prefix(host, directory, directory.names.len());
                let rest = needs_globs_interfere(host, patterns, dot_git, dirs, i + 1);
                let needed = first.union(rest);
                assert forall|f: FindingsView| #[trigger]
                    knows(f, host, needed) implies globs_interfere(f, patterns, dot_git, dirs, i)
                    == globs_interfere(host, patterns, dot_git, dirs, i) by {
                    knows_parts(f, host, first, rest);
                }
                needed
            },
        }
    } else {
        Set::empty()
    }
}

/// The questions on which the search for an overriding grant hangs.
proof fn needs_write_granted_below(
    host: FindingsView,
    entries: Seq<EntryView>,
    projected: PathView,
    i: int,
) -> (needed: Set<QuestionView>)
    requires
        host.is_complete(),
    ensures
        needed.finite(),
        forall|f: FindingsView| #[trigger]
            knows(f, host, needed) ==> write_granted_below(f, entries, projected, i)
                == write_granted_below(host, entries, projected, i),
    decreases entries.len() - i,
{
    if 0 <= i < entries.len() {
        let first = match entries[i].path {
            PlaceView::Path { path } => needs_resolve_uri(host, path),
            _ => Set::empty(),
        };
        let rest = needs_write_granted_below(host, entries, projected, i + 1);
        let needed = first.union(rest);
        assert forall|f: FindingsView| #[trigger]
            knows(f, host, needed) implies write_granted_below(f, entries, projected, i)
            == write_granted_below(host, entries, projected, i) by {
            knows_parts(f, host, first, rest);
        }
        needed
    } else {
        Set::empty()
    }
}

/// The questions on which the projections of a restriction hang.
proof fn needs_projections(
    host: FindingsView,
    entries: Seq<EntryView>,
    dirs: GitDirsView,
    suffix: Seq<Seq<u8>>,
    access: FileSystemAccessMode,
) -> (needed: Set<QuestionView>)
    requires
        host.is_complete(),
    ensures
        needed.finite(),
        forall|f: FindingsView| #[trigger]
            knows(f, host, needed) ==> projections(f, entries, dirs, suffix, access) == projections(
                host,
                entries,
                dirs,
                suffix,
                access,
            ),
{
    let first = needs_write_granted_below(host, entries, dirs.git_dir.join(suffix), 0);
    let second = needs_write_granted_below(host, entries, dirs.common_dir.join(suffix), 0);
    let needed = first.union(second);
    assert forall|f: FindingsView| #[trigger] knows(f, host, needed) implies projections(
        f,
        entries,
        dirs,
        suffix,
        access,
    ) == projections(host, entries, dirs, suffix, access) by {
        knows_parts(f, host, first, second);
    }
    needed
}

/// The questions on which it hangs what a rule adds to the grants.
proof fn needs_carried(
    host: FindingsView,
    entries: Seq<EntryView>,
    dot_git: PathView,
    dirs: GitDirsView,
    entry: EntryView,
) -> (needed: Set<QuestionView>)
    requires
        host.is_complete(),
    ensures
        needed.finite(),
        forall|f: FindingsView| #[trigger]
            knows(f, host, needed) ==> carried(f, entries, dot_git, dirs, entry) == carried(
                host,
                entries,
                dot_git,
                dirs,
                entry,
            ),
{
    match entry.path {
        PlaceView::Path { path } => {
            let first = needs_resolve_uri(host, path);
            let second = match resolve_uri(host, path) {
                Ok(Some(place)) => needs_projections(
                    host,
                    entries,
                    dirs,
                    place.suffix_below(dot_git),
                    entry.access,
                ),
                _ => Set::empty(),
            };
            let needed = first.union(second);
            assert forall|f: FindingsView| #[trigger] knows(f, host, needed) implies carried(
                f,
                entries,
                dot_git,
                dirs,
                entry,
            ) == carried(host, entries, dot_git, dirs, entry) by {
                knows_parts(f, host, first, second);
            }
            needed
        },
        _ => Set::empty(),
    }
}

/// The questions on which it hangs what the rules from index `i` on add to the grants.
proof fn needs_carried_from(
    host: FindingsView,
    entries: Seq<EntryView>,
    dot_git: PathView,
    dirs: GitDirsView,
    i: int,
) -> (needed: Set<QuestionView>)
    requires
        host.is_complete(),
    ensures
        needed.finite(),
        forall|f: FindingsView| #[trigger]
            knows(f, host, needed) ==> carried_from(f, entries, dot_git, dirs, i) == carried_from(
                host,
                entries,
                dot_git,
                dirs,
                i,
            ),
    decreases entries.len() - i,
{
    if 0 <= i < entries.len() {
        let first = needs_carried(host, entries, dot_git, dirs, entries[i]);
        let rest = needs_carried_from(host, entries, dot_git, dirs, i + 1);
        let needed = first.union(rest);
        assert forall|f: FindingsView| #[trigger] knows(f, host, needed) implies carried_from(
            f,
            entries,
            dot_git,
            dirs,
            i,
        ) == carried_from(host, entries, dot_git, dirs, i) by {
            knows_parts(f, host, first, rest);
        }
        needed
    } else {
        Set::empty()
    }
}

/// The questions on which the grants for known directories hang.
proof fn needs_grants_for_dirs(
    host: FindingsView,
    policy: PolicyView,
    dot_git: PathView,
    dirs: GitDirsView,
) -> (needed: Set<QuestionView>)
    requires
        host.is_complete(),
    ensures
        needed.finite(),
        forall|f: FindingsView| #[trigger]
            knows(f, host, needed) ==> grants_for_dirs(f, policy, dot_git, dirs) == grants_for_dirs(
                host,
                policy,
                dot_git,
                dirs,
            ),
{
    let question = QuestionView::UnreadableGlobs { policy };
    assert(host.answers(question));
    let first = needs_globs_interfere(host, host.globs[policy], dot_git, dirs, 0);
    let second = needs_carried_from(host, policy.entries, dot_git, dirs, 0);
    let both = first.union(second);
    let needed = set![question].union(both);
    assert forall|f: FindingsView| #[trigger] knows(f, host, needed) implies grants_for_dirs(
        f,
        policy,
        dot_git,
        dirs,
    ) == grants_for_dirs(host, policy, dot_git, dirs) by {
        knows_parts(f, host, set![question], both);
        knows_parts(f, host, first, second);
        assert(set![question].contains(question));
        assert(f.globs[policy] == host.globs[policy]);
    }
    needed
}

/// The questions on which the grants for a `.git` hang.
proof fn needs_grants(host: FindingsView, policy: PolicyView, dot_git: PathView) -> (needed: Set<
    QuestionView,
>)
    requires
        host.is_complete(),
    ensures
        needed.finite(),
        forall|f: FindingsView| #[trigger]
            knows(f, host, needed) ==> grants(f, policy, dot_git) == grants(host, policy, dot_git),
{
    let read = QuestionView::ReadAccess { policy, path: dot_git };
    let canonical = QuestionView::Canonicalize { path: dot_git };
    assert(host.answers(read) && host.answers(canonical));
    let checkout = dot_git.parent()->0;
    let linked = QuestionView::LinkedWorktreeGitDirs { checkout };
    assert(host.answers(linked));
    let own = set![read, canonical, linked];
    let rest = match (host.git_dirs[checkout], host.canonical[dot_git]) {
        (Some(dirs), CanonicalView::Resolved(target)) => needs_grants_for_dirs(
            host,
            policy,
            target,
            dirs,
        ),
        _ => Set::empty(),
    };
    let needed = own.union(rest);
    assert forall|f: FindingsView| #[trigger] knows(f, host, needed) implies grants(
        f,
        policy,
        dot_git,
    ) == grants(host, policy, dot_git) by {
        knows_parts(f, host, own, rest);
        assert(own.contains(read) && own.contains(canonical) && own.contains(linked));
        assert(f.answers(read) && f.answers(canonical) && f.answers(linked));
        assert(f.read_access[(policy, dot_git)] == host.read_access[(policy, dot_git)]);
        assert(f.canonical[dot_git] == host.canonical[dot_git]);
        assert(f.git_dirs[checkout] == host.git_dirs[checkout]);
    }
    needed
}

/// The questions on which it hangs what one rule makes of a policy.
proof fn needs_expand_entry(
    host: FindingsView,
    original: PolicyView,
    policy: PolicyView,
    entry: EntryView,
) -> (needed: Set<QuestionView>)
    requires
        host.is_complete(),
    ensures
        needed.finite(),
        forall|f: FindingsView| #[trigger]
            knows(f, host, needed) ==> expand_entry(f, original, policy, entry) == expand_entry(
                host,
                original,
                policy,
                entry,
            ),
{
    match granted_dot_git(entry) {
        None => Set::empty(),
        Some(dot_git) => {
            let question = QuestionView::CanWrite { policy: original, path: dot_git };
            assert(host.answers(question));
            let rest = needs_grants(host, policy, dot_git);
            let needed = set![question].union(rest);
            assert forall|f: FindingsView| #[trigger] knows(f, host, needed) implies expand_entry(
                f,
                original,
                policy,
                entry,
            ) == expand_entry(host, original, policy, entry) by {
                knows_parts(f, host, set![question], rest);
                assert(set![question].contains(question));
                assert(f.can_write[(original, dot_git)] == host.can_write[(original, dot_git)]);
            }
            needed
        },
    }
}

/// The questions on which it hangs what the rules from index `i` on make of a policy.
proof fn needs_expand_from(
    host: FindingsView,
    original: PolicyView,
    policy: PolicyView,
    i: int,
) -> (needed: Set<QuestionView>)
    requires
        host.is_complete(),
    ensures
        needed.finite(),
        forall|f: FindingsView| #[trigger]
            knows(f, host, needed) ==> expand_from(f, original, policy, i) == expand_from(
                host,
                original,
                policy,
                i,
            ),
    decreases original.entries.len() - i,
{
    if 0 <= i < original.entries.len() {
        let first = needs_expand_entry(host, original, policy, original.entries[i]);
        let rest = match expand_entry(host, original, policy, original.entries[i]) {
            Ok(next) => needs_expand_from(host, original, next, i + 1),
            Err(_) => Set::empty(),
        };
        let needed = first.union(rest);
        assert forall|f: FindingsView| #[trigger] knows(f, host, needed) implies expand_from(
            f,
            original,
            policy,
            i,
        ) == expand_from(host, original, policy, i) by {
            knows_parts(f, host, first, rest);
        }
        needed
    } else {
        Set::empty()
    }
}

/// The host's answers to the questions that the findings answer or that the set holds.
spec fn part(host: FindingsView, f: FindingsView, questions: Set<QuestionView>) -> FindingsView {
    let chosen = |q: QuestionView| f.answers(q) || questions.contains(q);
    FindingsView {
        can_write: Map::new(
            |k: (PolicyView, PathView)| chosen(QuestionView::CanWrite { policy: k.0, path: k.1 }),
            |k: (PolicyView, PathView)| host.can_write[k],
        ),
        read_access: Map::new(
            |k: (PolicyView, PathView)| chosen(QuestionView::ReadAccess { policy: k.0, path: k.1 }),
            |k: (PolicyView, PathView)| host.read_access[k],
        ),
        git_dirs: Map::new(
            |k: PathView| chosen(QuestionView::LinkedWorktreeGitDirs { checkout: k }),
            |k: PathView| host.git_dirs[k],
        ),
        globs: Map::new(
            |k: PolicyView| chosen(QuestionView::UnreadableGlobs { policy: k }),
            |k: PolicyView| host.globs[k],
        ),
        canonical: Map::new(
            |k: PathView| chosen(QuestionView::Canonicalize { path: k }),
            |k: PathView| host.canonical[k],
        ),
    }
}

proof fn part_answers(
    host: FindingsView,
    f: FindingsView,
    questions: Set<QuestionView>,
    q: QuestionView,
)
    ensures
        part(host, f, questions).answers(q) == (f.answers(q) || questions.contains(q)),
{
}

/// A question that holds up a decision is one that the decision hangs on.
proof fn question_is_needed(
    host: FindingsView,
    policy: PolicyView,
    f: FindingsView,
    needed: Set<QuestionView>,
)
    requires
        host.is_complete(),
        f.is_part_of(host),
        forall|g: FindingsView| #[trigger]
            knows(g, host, needed) ==> expand(g, policy) == expand(host, policy),
    ensures
        expand(f, policy) matches Err(q) ==> needed.contains(q) && !f.answers(q),
{
    let g = part(host, f, needed);
    assert forall|q: QuestionView| #[trigger]
        g.answers(q) == (f.answers(q) || needed.contains(q)) by {
        part_answers(host, f, needed, q);
    }
    assert(g.is_part_of(host)) by {
        assert forall|q: QuestionView| #[trigger] g.answers(q) implies host.answers(q) by {}
    }
    assert(knows(g, host, needed));
    assert(f.agrees_with(g)) by {
        assert forall|q: QuestionView| #[trigger] f.answers(q) implies g.answers(q) && host.answers(
            q,
        ) by {}
        assert forall|k: (PolicyView, PathView)|
            #![trigger f.can_write[k]]
            #![trigger g.can_write[k]]
            f.can_write.contains_key(k) && g.can_write.contains_key(k) implies f.can_write[k]
            == g.can_write[k] by {
            assert(host.answers(QuestionView::CanWrite { policy: k.0, path: k.1 }));
        }
        assert forall|k: (PolicyView, PathView)|
            #![trigger f.read_access[k]]
            #![trigger g.read_access[k]]
            f.read_access.contains_key(k) && g.read_access.contains_key(k) implies f.read_access[k]
            == g.read_access[k] by {
            assert(host.answers(QuestionView::ReadAccess { policy: k.0, path: k.1 }));
        }
        assert forall|k: PathView|
            #![trigger f.git_dirs[k]]
            #![trigger g.git_dirs[k]]
            f.git_dirs.contains_key(k) && g.git_dirs.contains_key(k) implies f.git_dirs[k]
            == g.git_dirs[k] by {
            assert(host.answers(QuestionView::LinkedWorktreeGitDirs { checkout: k }));
        }
        assert forall|k: PolicyView|
            #![trigger f.globs[k]]
            #![trigger g.globs[k]]
            f.globs.contains_key(k) && g.globs.contains_key(k) implies f.globs[k] == g.globs[k] by {
            assert(host.answers(QuestionView::UnreadableGlobs { policy: k }));
        }
        assert forall|k: PathView|
            #![trigger f.canonical[k]]
            #![trigger g.canonical[k]]
            f.canonical.contains_key(k) && g.canonical.contains_key(k) implies f.canonical[k]
            == g.canonical[k] by {
            assert(host.answers(QuestionView::Canonicalize { path: k }));
        }
    }
    fit_expand(f, g, policy);
    a_complete_host_decides(host, policy);
}

/// Learning from the host adds the question to what is answered, and nothing else.
proof fn learn_answers(f: FindingsView, host: FindingsView, q: QuestionView, other: QuestionView)
    ensures
        f.learn(host, q).answers(other) == (f.answers(other) || other == q),
{
}

proof fn learn_stays_part(f: FindingsView, host: FindingsView, q: QuestionView)
    requires
        host.is_complete(),
        f.is_part_of(host),
    ensures
        f.learn(host, q).is_part_of(host),
{
    assert(f.learn(host, q).agrees_with(host));
}

/// What comes of at most `rounds` rounds in which the host answers the question that the
/// expansion hangs on.
pub open spec fn dialogue(
    host: FindingsView,
    policy: PolicyView,
    findings: FindingsView,
    rounds: nat,
) -> Result<PolicyView, QuestionView>
    decreases rounds,
{
    match expand(findings, policy) {
        Ok(expanded) => Ok(expanded),
        Err(question) => if rounds == 0 {
            Err(question)
        } else {
            dialogue(host, policy, findings.learn(host, question), (rounds - 1) as nat)
        },
    }
}

proof fn dialogue_ends_in(
    host: FindingsView,
    policy: PolicyView,
    f: FindingsView,
    needed: Set<QuestionView>,
    left: Set<QuestionView>,
)
    requires
        host.is_complete(),
        f.is_part_of(host),
        left.finite(),
        forall|q: QuestionView| #[trigger]
            left.contains(q) <==> needed.contains(q) && !f.answers(q),
        forall|g: FindingsView| #[trigger]
            knows(g, host, needed) ==> expand(g, policy) == expand(host, policy),
    ensures
        dialogue(host, policy, f, left.len()) == expand(host, policy),
    decreases left.len(),
{
    question_is_needed(host, policy, f, needed);
    match expand(f, policy) {
        Ok(_) => {
            a_complete_expansion_stands(f, host, policy);
        },
        Err(question) => {
            let next = f.learn(host, question);
            learn_stays_part(f, host, question);
            assert(left.contains(question));
            let fewer = left.remove(question);
            assert forall|q: QuestionView| #[trigger]
                fewer.contains(q) <==> needed.contains(q) && !next.answers(q) by {
                learn_answers(f, host, question, q);
            }
            dialogue_ends_in(host, policy, next, needed, fewer);
        },
    }
}

/// An exchange that starts without findings, with a host whose answers do not change meanwhile,
/// ends after finitely many questions, with the expansion that all that the host could say
/// leads to.
pub proof fn every_dialogue_ends(host: FindingsView, policy: PolicyView)
    requires
        host.is_complete(),
    ensures
        expand(host, policy) is Ok,
        exists|rounds: nat| #[trigger]
            dialogue(host, policy, FindingsView::empty(), rounds) == expand(host, policy),
{
    a_complete_host_decides(host, policy);
    let needed = if policy.kind == FileSystemSandboxKind::Restricted {
        needs_expand_from(host, policy, policy, 0)
    } else {
        Set::empty()
    };
    let start = FindingsView::empty();
    assert forall|q: QuestionView| !(#[trigger] start.answers(q)) by {}
    dialogue_ends_in(host, policy, start, needed, needed);
}

} // verus!
