//! Sandbox profiles: which places of the file system a process may read and write.

use vstd::prelude::*;
use crate::path::{bytes_equal, copy_bytes, AbsolutePath, PathView};

verus! {

/// What a rule allows at its place and below.
#[derive(Debug, Clone, Copy, PartialEq, Eq, Structural)]
pub enum FileSystemAccessMode {
    /// Reading only.
    Read,
    /// Reading and writing.
    Write,
    /// Neither.
    Deny,
}

impl FileSystemAccessMode {
    /// Whether the mode allows writing.
    pub fn can_write(self) -> (writable: bool)
        ensures
            writable == (self == FileSystemAccessMode::Write),
    {
        self == FileSystemAccessMode::Write
    }
}

/// The place that an explicit rule names.
#[derive(Debug)]
pub enum PathUri {
    /// A path of this host.
    Native(AbsolutePath),
    /// A location that is no path of this host, by its text.
    Foreign(Vec<u8>),
}

/// A place that is named by its role.
#[derive(Debug)]
pub enum FileSystemSpecialPath {
    /// Everything.
    Root,
    /// What any process needs.
    Minimal,
    /// Any other role, by its name: it stands for no particular path yet.
    Unmaterialized { name: Vec<u8> },
}

/// What a rule applies to.
#[derive(Debug)]
pub enum FileSystemPath {
    /// One place and all below it.
    Path { path: PathUri },
    /// Every place that the pattern matches.
    GlobPattern { pattern: Vec<u8> },
    /// A place that is named by its role.
    Special { value: FileSystemSpecialPath },
}

/// One rule of a policy.
#[derive(Debug)]
pub struct FileSystemSandboxEntry {
    pub path: FileSystemPath,
    pub access: FileSystemAccessMode,
    /// The rule is a default that falls away where its place does not exist.
    pub skips_missing_path: bool,
}

/// Whether the rules of a policy confine the process.
#[derive(Debug, Clone, Copy, PartialEq, Eq, Structural)]
pub enum FileSystemSandboxKind {
    /// The process may do only what the rules allow.
    Restricted,
    /// The rules confine nothing here.
    Unrestricted,
}

/// The rules on the file system.
#[derive(Debug)]
pub struct FileSystemSandboxPolicy {
    pub kind: FileSystemSandboxKind,
    pub entries: Vec<FileSystemSandboxEntry>,
}

/// A whole profile. How it is enforced (`E`) and what it says of the network (`N`) play no part
/// in any decision on the file system: they are carried along as they are.
#[derive(Debug)]
pub struct PermissionProfile<E, N> {
    pub enforcement: E,
    pub file_system: FileSystemSandboxPolicy,
    pub network: N,
}

/// What a `PathUri` is.
#[verifier::ext_equal]
pub enum UriView {
    Native(PathView),
    Foreign(Seq<u8>),
}

/// What a `FileSystemSpecialPath` is.
#[verifier::ext_equal]
pub enum SpecialView {
    Root,
    Minimal,
    Unmaterialized { name: Seq<u8> },
}

/// What a `FileSystemPath` is.
#[verifier::ext_equal]
pub enum PlaceView {
    Path { path: UriView },
    GlobPattern { pattern: Seq<u8> },
    Special { value: SpecialView },
}

/// What a `FileSystemSandboxEntry` is.
#[verifier::ext_equal]
pub struct EntryView {
    pub path: PlaceView,
    pub access: FileSystemAccessMode,
    pub skips_missing_path: bool,
}

/// What a `FileSystemSandboxPolicy` is.
#[verifier::ext_equal]
pub struct PolicyView {
    pub kind: FileSystemSandboxKind,
    pub entries: Seq<EntryView>,
}

impl View for PathUri {
    type V = UriView;

    open spec fn view(&self) -> UriView {
        match self {
            PathUri::Native(path) => UriView::Native(path@),
            PathUri::Foreign(text) => UriView::Foreign(text@),
        }
    }
}

impl View for FileSystemSpecialPath {
    type V = SpecialView;

    open spec fn view(&self) -> SpecialView {
        match self {
            FileSystemSpecialPath::Root => SpecialView::Root,
            FileSystemSpecialPath::Minimal => SpecialView::Minimal,
            FileSystemSpecialPath::Unmaterialized { name } => SpecialView::Unmaterialized {
                name: name@,
            },
        }
    }
}

impl View for FileSystemPath {
    type V = PlaceView;

    open spec fn view(&self) -> PlaceView {
        match self {
            FileSystemPath::Path { path } => PlaceView::Path { path: path@ },
            FileSystemPath::GlobPattern { pattern } => PlaceView::GlobPattern { pattern: pattern@ },
            FileSystemPath::Special { value } => PlaceView::Special { value: value@ },
        }
    }
}

impl View for FileSystemSandboxEntry {
    type V = EntryView;

    open spec fn view(&self) -> EntryView {
        EntryView {
            path: self.path@,
            access: self.access,
            skips_missing_path: self.skips_missing_path,
        }
    }
}

impl DeepView for FileSystemSandboxEntry {
    type V = EntryView;

    open spec fn deep_view(&self) -> EntryView {
        self@
    }
}

impl View for FileSystemSandboxPolicy {
    type V = PolicyView;

    open spec fn view(&self) -> PolicyView {
        PolicyView { kind: self.kind, entries: self.entries.deep_view() }
    }
}

/// The plain rule that gives `access` at a path of this host.
pub open spec fn plain_entry(path: PathView, access: FileSystemAccessMode) -> EntryView {
    EntryView {
        path: PlaceView::Path { path: UriView::Native(path) },
        access,
        skips_missing_path: false,
    }
}

impl PathUri {
    /// A copy of the place.
    pub fn copy(&self) -> (copy: PathUri)
        ensures
            copy@ == self@,
    {
        match self {
            PathUri::Native(path) => PathUri::Native(path.copy()),
            PathUri::Foreign(text) => PathUri::Foreign(copy_bytes(text)),
        }
    }

    /// Whether two places are the same.
    pub fn equals(&self, other: &PathUri) -> (same: bool)
        ensures
            same == (self@ == other@),
    {
        match (self, other) {
            (PathUri::Native(a), PathUri::Native(b)) => a.equals(b),
            (PathUri::Foreign(a), PathUri::Foreign(b)) => bytes_equal(a, b),
            _ => false,
        }
    }
}

impl FileSystemSpecialPath {
    /// A copy of the role.
    pub fn copy(&self) -> (copy: FileSystemSpecialPath)
        ensures
            copy@ == self@,
    {
        match self {
            FileSystemSpecialPath::Root => FileSystemSpecialPath::Root,
            FileSystemSpecialPath::Minimal => FileSystemSpecialPath::Minimal,
            FileSystemSpecialPath::Unmaterialized { name } => {
                FileSystemSpecialPath::Unmaterialized { name: copy_bytes(name) }
            },
        }
    }

    /// Whether two roles are the same.
    pub fn equals(&self, other: &FileSystemSpecialPath) -> (same: bool)
        ensures
            same == (self@ == other@),
    {
        match (self, other) {
            (FileSystemSpecialPath::Root, FileSystemSpecialPath::Root) => true,
            (FileSystemSpecialPath::Minimal, FileSystemSpecialPath::Minimal) => true,
            (
                FileSystemSpecialPath::Unmaterialized { name: a },
                FileSystemSpecialPath::Unmaterialized { name: b },
            ) => bytes_equal(a, b),
            _ => false,
        }
    }
}

impl FileSystemPath {
    /// A copy of the place.
    pub fn copy(&self) -> (copy: FileSystemPath)
        ensures
            copy@ == self@,
    {
        match self {
            FileSystemPath::Path { path } => FileSystemPath::Path { path: path.copy() },
            FileSystemPath::GlobPattern { pattern } => {
                FileSystemPath::GlobPattern { pattern: copy_bytes(pattern) }
            },
            FileSystemPath::Special { value } => FileSystemPath::Special { value: value.copy() },
        }
    }

    /// Whether two places are the same.
    pub fn equals(&self, other: &FileSystemPath) -> (same: bool)
        ensures
            same == (self@ == other@),
    {
        match (self, other) {
            (FileSystemPath::Path { path: a }, FileSystemPath::Path { path: b }) => a.equals(b),
            (
                FileSystemPath::GlobPattern { pattern: a },
                FileSystemPath::GlobPattern { pattern: b },
            ) => bytes_equal(a, b),
            (FileSystemPath::Special { value: a }, FileSystemPath::Special { value: b }) => {
                a.equals(b)
            },
            _ => false,
        }
    }
}

impl FileSystemSandboxEntry {
    /// The plain rule that gives `access` at `path`.
    pub fn new(path: FileSystemPath, access: FileSystemAccessMode) -> (entry:
        FileSystemSandboxEntry)
        ensures
            entry@ == (EntryView { path: path@, access, skips_missing_path: false }),
    {
        FileSystemSandboxEntry { path, access, skips_missing_path: false }
    }

    /// The plain rule that gives `access` at a path of this host.
    pub fn at(path: AbsolutePath, access: FileSystemAccessMode) -> (entry: FileSystemSandboxEntry)
        ensures
            entry@ == plain_entry(path@, access),
    {
        FileSystemSandboxEntry::new(FileSystemPath::Path { path: PathUri::Native(path) }, access)
    }

    /// A copy of the rule.
    pub fn copy(&self) -> (copy: FileSystemSandboxEntry)
        ensures
            copy@ == self@,
    {
        FileSystemSandboxEntry {
            path: self.path.copy(),
            access: self.access,
            skips_missing_path: self.skips_missing_path,
        }
    }

    /// Whether two rules are the same.
    pub fn equals(&self, other: &FileSystemSandboxEntry) -> (same: bool)
        ensures
            same == (self@ == other@),
    {
        self.access == other.access && self.skips_missing_path == other.skips_missing_path
            && self.path.equals(&other.path)
    }
}

impl FileSystemSandboxPolicy {
    /// The policy that confines the process to what `entries` allow.
    pub fn restricted(entries: Vec<FileSystemSandboxEntry>) -> (policy: FileSystemSandboxPolicy)
        ensures
            policy@ == (PolicyView {
                kind: FileSystemSandboxKind::Restricted,
                entries: entries.deep_view(),
            }),
    {
        FileSystemSandboxPolicy { kind: FileSystemSandboxKind::Restricted, entries }
    }

    /// A copy of the policy.
    pub fn copy(&self) -> (copy: FileSystemSandboxPolicy)
        ensures
            copy@ == self@,
    {
        let mut entries: Vec<FileSystemSandboxEntry> = Vec::new();
        let mut i: usize = 0;
        while i < self.entries.len()
            invariant
                i <= self.entries.len(),
                entries.deep_view() == self@.entries.take(i as int),
            decreases self.entries.len() - i,
        {
            let ghost before = entries.deep_view();
            entries.push(self.entries[i].copy());
            assert(entries.deep_view() =~= before.push(self@.entries[i as int]));
            assert(self@.entries.take(i + 1) =~= self@.entries.take(i as int).push(
                self@.entries[i as int],
            ));
            i += 1;
        }
        assert(self@.entries.take(i as int) =~= self@.entries);
        FileSystemSandboxPolicy { kind: self.kind, entries }
    }

    /// Whether two policies are the same.
    pub fn equals(&self, other: &FileSystemSandboxPolicy) -> (same: bool)
        ensures
            same == (self@ == other@),
    {
        if self.kind != other.kind || self.entries.len() != other.entries.len() {
            assert(self@.kind != other@.kind || self@.entries.len() != other@.entries.len());
            return false;
        }
        let mut i: usize = 0;
        while i < self.entries.len()
            invariant
                i <= self.entries.len() == other.entries.len(),
                forall|j: int| 0 <= j < i ==> self@.entries[j] == other@.entries[j],
            decreases self.entries.len() - i,
        {
            if !self.entries[i].equals(&other.entries[i]) {
                assert(self@.entries[i as int] != other@.entries[i as int]);
                return false;
            }
            i += 1;
        }
        assert(self@.entries =~= other@.entries);
        true
    }

    /// Whether a rule stands in the policy.
    pub fn contains(&self, entry: &FileSystemSandboxEntry) -> (found: bool)
        ensures
            found == self@.entries.contains(entry@),
    {
        let mut i: usize = 0;
        while i < self.entries.len()
            invariant
                i <= self.entries.len(),
                forall|j: int| 0 <= j < i ==> self@.entries[j] != entry@,
            decreases self.entries.len() - i,
        {
            if self.entries[i].equals(entry) {
                assert(self@.entries[i as int] == entry@);
                return true;
            }
            i += 1;
        }
        false
    }
}

} // verus!
