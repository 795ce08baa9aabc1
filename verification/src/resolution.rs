//! Laws of resolving a path: which ancestor counts, and when two paths come to the same place.

use vstd::prelude::*;
use crate::findings::{CanonicalView, FindingsView, QuestionView};
use crate::model::{existing_prefix, resolve};
use crate::path::PathView;

verus! {

/// A path is resolved through its deepest ancestor that the host can resolve: where the ancestor
/// of `depth` names resolves and no deeper one does, the rest of the path is appended to what it
/// resolves to.
pub proof fn the_deepest_ancestor_counts(
    host: FindingsView,
    path: PathView,
    depth: nat,
    target: PathView,
)
    requires
        depth <= path.names.len(),
        host.ask_canonical(path.ancestor(depth)) == Ok::<_, QuestionView>(
            CanonicalView::Resolved(target),
        ),
        forall|deeper: nat|
            depth < deeper <= path.names.len() ==> host.ask_canonical(
                #[trigger] path.ancestor(deeper),
            ) == Ok::<_, QuestionView>(CanonicalView::Missing),
    ensures
        resolve(host, path) == Ok::<_, QuestionView>(
            Some(target.join(path.names.skip(depth as int))),
        ),
{
    descend(host, path, path.names.len(), depth);
}

proof fn descend(host: FindingsView, path: PathView, from: nat, to: nat)
    requires
        to <= from <= path.names.len(),
        forall|deeper: nat|
            to < deeper <= path.names.len() ==> host.ask_canonical(
                #[trigger] path.ancestor(deeper),
            ) == Ok::<_, QuestionView>(CanonicalView::Missing),
    ensures
        existing_prefix(host, path, from) == existing_prefix(host, path, to),
    decreases from,
{
    if to < from {
        assert(host.ask_canonical(path.ancestor(from)) == Ok::<_, QuestionView>(
            CanonicalView::Missing,
        ));
        descend(host, path, (from - 1) as nat, to);
    }
}

/// A path no part of which the host can resolve has no place.
pub proof fn without_a_resolvable_ancestor_there_is_no_place(host: FindingsView, path: PathView)
    requires
        forall|depth: nat|
            depth <= path.names.len() ==> host.ask_canonical(#[trigger] path.ancestor(depth))
                == Ok::<_, QuestionView>(CanonicalView::Missing),
    ensures
        resolve(host, path) == Ok::<Option<PathView>, QuestionView>(None),
{
    descend(host, path, path.names.len(), 0);
    assert(host.ask_canonical(path.ancestor(0)) == Ok::<_, QuestionView>(CanonicalView::Missing));
}

/// A path that comes to a place does so through one of its ancestors, below which nothing on the
/// path resolves.
proof fn deciding_ancestor(host: FindingsView, path: PathView, from: nat) -> (found: (
    nat,
    PathView,
))
    requires
        from <= path.names.len(),
        existing_prefix(host, path, from) matches Ok(Some(_)),
    ensures
        found.0 <= from,
        host.ask_canonical(path.ancestor(found.0)) == Ok::<_, QuestionView>(
            CanonicalView::Resolved(found.1),
        ),
        forall|deeper: nat|
            found.0 < deeper <= from ==> host.ask_canonical(#[trigger] path.ancestor(deeper))
                == Ok::<_, QuestionView>(CanonicalView::Missing),
        existing_prefix(host, path, from) == Ok::<_, QuestionView>(
            Some(found.1.join(path.names.skip(found.0 as int))),
        ),
    decreases from,
{
    match host.ask_canonical(path.ancestor(from)) {
        Ok(CanonicalView::Resolved(target)) => (from, target),
        _ => deciding_ancestor(host, path, (from - 1) as nat),
    }
}

/// Along the path the host's canonical forms are canonical themselves, and what is missing below
/// an ancestor is missing below the canonical form of that ancestor.
pub open spec fn is_consistent_along(host: FindingsView, path: PathView) -> bool {
    &&& forall|depth: nat|
        depth <= path.names.len() ==> (host.ask_canonical(
            #[trigger] path.ancestor(depth),
        ) matches Ok(CanonicalView::Resolved(target)) ==> host.ask_canonical(target) == Ok::<
            _,
            QuestionView,
        >(CanonicalView::Resolved(target)))
    &&& forall|depth: nat, deeper: nat|
        #![trigger path.ancestor(depth), path.ancestor(deeper)]
        depth < deeper <= path.names.len() && host.ask_canonical(path.ancestor(deeper)) == Ok::<
            _,
            QuestionView,
        >(CanonicalView::Missing) ==> (host.ask_canonical(path.ancestor(depth)) matches Ok(
            CanonicalView::Resolved(target),
        ) ==> host.ask_canonical(
            target.join(path.names.subrange(depth as int, deeper as int)),
        ) == Ok::<_, QuestionView>(CanonicalView::Missing))
}

/// A resolved place resolves to itself.
pub proof fn a_resolved_place_stays(host: FindingsView, path: PathView, place: PathView)
    requires
        is_consistent_along(host, path),
        resolve(host, path) == Ok::<_, QuestionView>(Some(place)),
    ensures
        resolve(host, place) == Ok::<_, QuestionView>(Some(place)),
{
    let (depth, target) = deciding_ancestor(host, path, path.names.len());
    let rest = path.names.skip(depth as int);
    let base = target.names.len();
    assert(place == target.join(rest));
    assert(place.ancestor(base) =~= target);
    assert(host.ask_canonical(target) == Ok::<_, QuestionView>(CanonicalView::Resolved(target)));
    assert forall|deeper: nat|
        base < deeper <= place.names.len() implies host.ask_canonical(
        #[trigger] place.ancestor(deeper),
    ) == Ok::<_, QuestionView>(CanonicalView::Missing) by {
        let along = (depth + (deeper - base)) as nat;
        assert(host.ask_canonical(path.ancestor(along)) == Ok::<_, QuestionView>(
            CanonicalView::Missing,
        ));
        assert(place.ancestor(deeper) =~= target.join(
            path.names.subrange(depth as int, along as int),
        ));
    }
    the_deepest_ancestor_counts(host, place, base, target);
    assert(place.names.skip(base as int) =~= rest);
}

proof fn aliases_descend(
    host: FindingsView,
    a: PathView,
    b: PathView,
    target: PathView,
    suffix: Seq<Seq<u8>>,
    n: nat,
)
    requires
        n <= suffix.len(),
        host.ask_canonical(a) == Ok::<_, QuestionView>(CanonicalView::Resolved(target)),
        host.ask_canonical(b) == Ok::<_, QuestionView>(CanonicalView::Resolved(target)),
        forall|m: nat|
            0 < m <= suffix.len() ==> host.ask_canonical(
                a.join(#[trigger] suffix.take(m as int)),
            ) == host.ask_canonical(b.join(suffix.take(m as int))),
    ensures
        existing_prefix(host, a.join(suffix), a.names.len() + n) == existing_prefix(
            host,
            b.join(suffix),
            b.names.len() + n,
        ),
    decreases n,
{
    assert(a.join(suffix).ancestor(a.names.len() + n) =~= a.join(suffix.take(n as int)));
    assert(b.join(suffix).ancestor(b.names.len() + n) =~= b.join(suffix.take(n as int)));
    assert(a.join(suffix).names.skip((a.names.len() + n) as int) =~= suffix.skip(n as int));
    assert(b.join(suffix).names.skip((b.names.len() + n) as int) =~= suffix.skip(n as int));
    if n == 0 {
        assert(a.join(suffix.take(0)) =~= a);
        assert(b.join(suffix.take(0)) =~= b);
    } else {
        aliases_descend(host, a, b, target, suffix, (n - 1) as nat);
    }
}

/// Two paths with the same canonical form come to the same place with any suffix, where the host
/// answers alike below both.
pub proof fn aliases_resolve_alike(
    host: FindingsView,
    a: PathView,
    b: PathView,
    target: PathView,
    suffix: Seq<Seq<u8>>,
)
    requires
        host.ask_canonical(a) == Ok::<_, QuestionView>(CanonicalView::Resolved(target)),
        host.ask_canonical(b) == Ok::<_, QuestionView>(CanonicalView::Resolved(target)),
        forall|m: nat|
            0 < m <= suffix.len() ==> host.ask_canonical(
                a.join(#[trigger] suffix.take(m as int)),
            ) == host.ask_canonical(b.join(suffix.take(m as int))),
    ensures
        resolve(host, a.join(suffix)) == resolve(host, b.join(suffix)),
{
    aliases_descend(host, a, b, target, suffix, suffix.len());
}

/// The host resolves the given names one by one: what a path comes to with one more name depends
/// only on what it comes to without it, what does not resolve does not resolve with one more
/// name either, and canonical forms are canonical themselves. So it is in a file system whose
/// links do not change meanwhile, for names other than `.` and `..`.
pub open spec fn walks(host: FindingsView, names: Seq<Seq<u8>>) -> bool {
    &&& forall|path: PathView, i: int|
        0 <= i < names.len() ==> host.ask_canonical(#[trigger] path.join(seq![names[i]])) == (
        match host.ask_canonical(path) {
            Ok(CanonicalView::Resolved(target)) => host.ask_canonical(target.join(seq![names[i]])),
            other => other,
        })
    &&& forall|path: PathView|
        #[trigger] host.ask_canonical(path) matches Ok(CanonicalView::Resolved(target))
            ==> host.ask_canonical(target) == Ok::<_, QuestionView>(
            CanonicalView::Resolved(target),
        )
}

/// Where the host resolves names one by one, a path and its canonical form come to the same with
/// the same names behind them.
proof fn canonical_form_stands_in(
    host: FindingsView,
    path: PathView,
    target: PathView,
    names: Seq<Seq<u8>>,
    n: nat,
)
    requires
        walks(host, names),
        n <= names.len(),
        host.ask_canonical(path) == Ok::<_, QuestionView>(CanonicalView::Resolved(target)),
    ensures
        host.ask_canonical(path.join(names.take(n as int))) == host.ask_canonical(
            target.join(names.take(n as int)),
        ),
    decreases n,
{
    if n == 0 {
        assert(path.join(names.take(0)) =~= path);
        assert(target.join(names.take(0)) =~= target);
    } else {
        canonical_form_stands_in(host, path, target, names, (n - 1) as nat);
        let shorter = names.take(n - 1);
        assert(path.join(names.take(n as int)) =~= path.join(shorter).join(seq![names[n - 1]]));
        assert(target.join(names.take(n as int)) =~= target.join(shorter).join(
            seq![names[n - 1]],
        ));
    }
}

/// Where the host resolves the names of a path one by one, the place that the path comes to
/// resolves to itself.
pub proof fn resolving_again_changes_nothing(host: FindingsView, path: PathView, place: PathView)
    requires
        walks(host, path.names),
        resolve(host, path) == Ok::<_, QuestionView>(Some(place)),
    ensures
        resolve(host, place) == Ok::<_, QuestionView>(Some(place)),
{
    assert forall|depth: nat, deeper: nat|
        #![trigger path.ancestor(depth), path.ancestor(deeper)]
        depth < deeper <= path.names.len() && host.ask_canonical(path.ancestor(deeper)) == Ok::<
            _,
            QuestionView,
        >(CanonicalView::Missing) implies (host.ask_canonical(path.ancestor(depth)) matches Ok(
        CanonicalView::Resolved(target),
    ) ==> host.ask_canonical(target.join(path.names.subrange(depth as int, deeper as int))) == Ok::<
        _,
        QuestionView,
    >(CanonicalView::Missing)) by {
        match host.ask_canonical(path.ancestor(depth)) {
            Ok(CanonicalView::Resolved(target)) => {
                let between = path.names.subrange(depth as int, deeper as int);
                assert(walks(host, between)) by {
                    assert forall|other: PathView, i: int|
                        0 <= i < between.len() implies host.ask_canonical(
                        #[trigger] other.join(seq![between[i]]),
                    ) == (match host.ask_canonical(other) {
                        Ok(CanonicalView::Resolved(target)) => host.ask_canonical(
                            target.join(seq![between[i]]),
                        ),
                        unresolved => unresolved,
                    }) by {
                        assert(between[i] == path.names[depth + i]);
                        assert(other.join(seq![path.names[depth + i]]) == other.join(
                            seq![between[i]],
                        ));
                    }
                }
                canonical_form_stands_in(
                    host,
                    path.ancestor(depth),
                    target,
                    between,
                    between.len(),
                );
                assert(between.take(between.len() as int) =~= between);
                assert(path.ancestor(depth).join(between) =~= path.ancestor(deeper));
            },
            _ => {},
        }
    }
    a_resolved_place_stays(host, path, place);
}

/// Where the host resolves the names of a suffix one by one, two paths with the same canonical
/// form come to the same place with that suffix, whether it exists there or not.
pub proof fn aliases_are_interchangeable(
    host: FindingsView,
    a: PathView,
    b: PathView,
    target: PathView,
    suffix: Seq<Seq<u8>>,
)
    requires
        walks(host, suffix),
        host.ask_canonical(a) == Ok::<_, QuestionView>(CanonicalView::Resolved(target)),
        host.ask_canonical(b) == Ok::<_, QuestionView>(CanonicalView::Resolved(target)),
    ensures
        resolve(host, a.join(suffix)) == resolve(host, b.join(suffix)),
{
    assert forall|m: nat| 0 < m <= suffix.len() implies host.ask_canonical(
        a.join(#[trigger] suffix.take(m as int)),
    ) == host.ask_canonical(b.join(suffix.take(m as int))) by {
        canonical_form_stands_in(host, a, target, suffix, m);
        canonical_form_stands_in(host, b, target, suffix, m);
    }
    aliases_resolve_alike(host, a, b, target, suffix);
}

} // verus!
