//! Absolute paths as a root and the names below it.

use vstd::prelude::*;

verus! {

/// What an absolute path is: its root, and the names that lead from the root to the place.
#[verifier::ext_equal]
pub struct PathView {
    pub root: Seq<u8>,
    pub names: Seq<Seq<u8>>,
}

impl PathView {
    /// The path leads to `base` or to a place below it, name by name.
    pub open spec fn starts_with(self, base: PathView) -> bool {
        &&& self.root == base.root
        &&& base.names.len() <= self.names.len()
        &&& self.names.take(base.names.len() as int) == base.names
    }

    /// The names that lead from `base` to this path.
    pub open spec fn suffix_below(self, base: PathView) -> Seq<Seq<u8>>
        recommends
            self.starts_with(base),
    {
        self.names.skip(base.names.len() as int)
    }

    /// The place that `suffix` leads to from here.
    pub open spec fn join(self, suffix: Seq<Seq<u8>>) -> PathView {
        PathView { root: self.root, names: self.names + suffix }
    }

    /// The ancestor that keeps the first `depth` names; the path itself at full depth.
    pub open spec fn ancestor(self, depth: nat) -> PathView
        recommends
            depth <= self.names.len(),
    {
        PathView { root: self.root, names: self.names.take(depth as int) }
    }

    /// The directory that holds the path; a bare root has none.
    pub open spec fn parent(self) -> Option<PathView> {
        if self.names.len() == 0 {
            None
        } else {
            Some(self.ancestor((self.names.len() - 1) as nat))
        }
    }
}

/// The text of a sequence of names.
pub open spec fn names_view(names: Seq<Vec<u8>>) -> Seq<Seq<u8>> {
    Seq::new(names.len(), |i: int| names[i]@)
}

/// An absolute path of the host. `root` is what the path starts from (`/` on Unix, a prefix
/// such as `C:\` on Windows); `names` are the names below it, each as the host encodes it.
#[derive(Debug)]
pub struct AbsolutePath {
    pub root: Vec<u8>,
    pub names: Vec<Vec<u8>>,
}

impl View for AbsolutePath {
    type V = PathView;

    open spec fn view(&self) -> PathView {
        PathView { root: self.root@, names: names_view(self.names@) }
    }
}

/// Whether two texts are the same.
pub(crate) fn bytes_equal(a: &Vec<u8>, b: &Vec<u8>) -> (same: bool)
    ensures
        same == (a@ == b@),
{
    if a.len() != b.len() {
        return false;
    }
    let mut i: usize = 0;
    while i < a.len()
        invariant
            i <= a.len(),
            a.len() == b.len(),
            forall|j: int| 0 <= j < i ==> a@[j] == b@[j],
        decreases a.len() - i,
    {
        if a[i] != b[i] {
            assert(a@[i as int] != b@[i as int]);
            return false;
        }
        i += 1;
    }
    assert(a@ =~= b@);
    true
}

/// A copy of a text.
pub(crate) fn copy_bytes(text: &Vec<u8>) -> (copy: Vec<u8>)
    ensures
        copy@ == text@,
{
    let copy = text.clone();
    assert(copy@ =~= text@);
    copy
}

/// Appends copies of the names from index `from` up to index `to`.
fn push_names(target: &mut Vec<Vec<u8>>, names: &Vec<Vec<u8>>, from: usize, to: usize)
    requires
        from <= to <= names@.len(),
    ensures
        names_view(final(target)@) == names_view(old(target)@) + names_view(names@).subrange(
            from as int,
            to as int,
        ),
{
    let mut i: usize = from;
    while i < to
        invariant
            from <= i <= to <= names@.len(),
            names_view(target@) == names_view(old(target)@) + names_view(names@).subrange(
                from as int,
                i as int,
            ),
        decreases to - i,
    {
        let ghost before = target@;
        target.push(copy_bytes(&names[i]));
        assert(names_view(target@) =~= names_view(before).push(names_view(names@)[i as int]));
        assert(names_view(names@).subrange(from as int, i + 1) =~= names_view(names@).subrange(
            from as int,
            i as int,
        ).push(names_view(names@)[i as int]));
        i += 1;
    }
}

impl AbsolutePath {
    /// The path with the given root and names.
    pub fn new(root: Vec<u8>, names: Vec<Vec<u8>>) -> (path: AbsolutePath)
        ensures
            path@ == (PathView { root: root@, names: names_view(names@) }),
    {
        AbsolutePath { root, names }
    }

    /// A copy of the path.
    pub fn copy(&self) -> (copy: AbsolutePath)
        ensures
            copy@ == self@,
    {
        let copy = self.ancestor(self.names.len());
        assert(self@.names.take(self@.names.len() as int) =~= self@.names);
        copy
    }

    /// Whether two paths are the same.
    pub fn equals(&self, other: &AbsolutePath) -> (same: bool)
        ensures
            same == (self@ == other@),
    {
        if self.names.len() != other.names.len() {
            assert(self@.names.len() != other@.names.len());
            return false;
        }
        let same = self.starts_with(other);
        assert(self@.names.take(other@.names.len() as int) =~= self@.names);
        same
    }

    /// Whether the path leads to `base` or to a place below it.
    pub fn starts_with(&self, base: &AbsolutePath) -> (below: bool)
        ensures
            below == self@.starts_with(base@),
    {
        if !bytes_equal(&self.root, &base.root) || base.names.len() > self.names.len() {
            return false;
        }
        let mut i: usize = 0;
        while i < base.names.len()
            invariant
                i <= base.names.len() <= self.names.len(),
                forall|j: int| 0 <= j < i ==> self@.names[j] == base@.names[j],
            decreases base.names.len() - i,
        {
            if !bytes_equal(&self.names[i], &base.names[i]) {
                assert(self@.names.take(base@.names.len() as int)[i as int]
                    != base@.names[i as int]);
                return false;
            }
            i += 1;
        }
        assert(self@.names.take(base@.names.len() as int) =~= base@.names);
        true
    }

    /// The last name of the path; a bare root has none.
    pub fn file_name(&self) -> (name: Option<&Vec<u8>>)
        ensures
            match name {
                Some(name) => self@.names.len() > 0 && name@ == self@.names.last(),
                None => self@.names.len() == 0,
            },
    {
        if self.names.len() == 0 {
            None
        } else {
            Some(&self.names[self.names.len() - 1])
        }
    }

    /// The ancestor that keeps the first `depth` names.
    pub fn ancestor(&self, depth: usize) -> (ancestor: AbsolutePath)
        requires
            depth <= self@.names.len(),
        ensures
            ancestor@ == self@.ancestor(depth as nat),
    {
        let mut names: Vec<Vec<u8>> = Vec::new();
        push_names(&mut names, &self.names, 0, depth);
        assert(names_view(names@) =~= self@.names.take(depth as int));
        AbsolutePath { root: copy_bytes(&self.root), names }
    }

    /// The directory that holds the path; a bare root has none.
    pub fn parent(&self) -> (parent: Option<AbsolutePath>)
        ensures
            match parent {
                Some(parent) => self@.parent() == Some(parent@),
                None => self@.parent() is None,
            },
    {
        if self.names.len() == 0 {
            None
        } else {
            Some(self.ancestor(self.names.len() - 1))
        }
    }

    /// This path followed by the names of `other` from index `skip` on.
    pub fn join_below(&self, other: &AbsolutePath, skip: usize) -> (joined: AbsolutePath)
        requires
            skip <= other@.names.len(),
        ensures
            joined@ == self@.join(other@.names.skip(skip as int)),
    {
        let mut names: Vec<Vec<u8>> = Vec::new();
        push_names(&mut names, &self.names, 0, self.names.len());
        push_names(&mut names, &other.names, skip, other.names.len());
        assert(names_view(names@) =~= self@.names + other@.names.skip(skip as int));
        AbsolutePath { root: copy_bytes(&self.root), names }
    }
}

} // verus!
