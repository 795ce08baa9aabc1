//! Questions to the host, and what the host has answered so far.
//!
//! Only the host can resolve symbolic links, read worktree metadata and evaluate a policy in a
//! working directory. A decision that needs such a fact names the question; the host's answer is
//! recorded, and the decision is taken again with it.

use vstd::prelude::*;
use crate::path::{AbsolutePath, PathView};
use crate::permissions::{FileSystemSandboxPolicy, PolicyView};

verus! {

/// Whether a policy lets a path be read.
#[derive(Debug, Clone, Copy, PartialEq, Eq, Structural)]
pub enum ReadAccess {
    /// The rules against reading cannot be evaluated.
    Unknown,
    /// Some rule denies reading the path.
    Denied,
    /// No rule denies reading the path.
    Allowed,
}

/// What became of resolving a path to its canonical form.
#[derive(Debug)]
pub enum Canonical {
    /// The path cannot be taken as an absolute path of the host.
    NotAbsolute,
    /// Nothing can be resolved at the path.
    Missing,
    /// The path, free of symbolic links.
    Resolved(AbsolutePath),
}

/// What a `Canonical` is.
#[verifier::ext_equal]
pub enum CanonicalView {
    NotAbsolute,
    Missing,
    Resolved(PathView),
}

/// The administrative directories of a linked worktree.
#[derive(Debug)]
pub struct LinkedWorktreeGitDirs {
    /// The directory of this worktree alone.
    pub git_dir: AbsolutePath,
    /// The directory that all worktrees of the repository share.
    pub common_dir: AbsolutePath,
}

/// What a `LinkedWorktreeGitDirs` is.
#[verifier::ext_equal]
pub struct GitDirsView {
    pub git_dir: PathView,
    pub common_dir: PathView,
}

/// A question to the host.
#[derive(Debug)]
pub enum Question {
    /// Does the policy, in the working directory of the launch, let the path be written?
    CanWrite { policy: FileSystemSandboxPolicy, path: AbsolutePath },
    /// Does the policy, in the working directory of the launch, let the path be read?
    ReadAccess { policy: FileSystemSandboxPolicy, path: AbsolutePath },
    /// Does the directory lie in a validated linked worktree, and where is it administered?
    LinkedWorktreeGitDirs { checkout: AbsolutePath },
    /// Which patterns, resolved against the working directory of the launch, does the policy
    /// make unreadable?
    UnreadableGlobs { policy: FileSystemSandboxPolicy },
    /// What is the canonical form of the path?
    Canonicalize { path: AbsolutePath },
}

/// What a `Question` is.
#[verifier::ext_equal]
pub enum QuestionView {
    CanWrite { policy: PolicyView, path: PathView },
    ReadAccess { policy: PolicyView, path: PathView },
    LinkedWorktreeGitDirs { checkout: PathView },
    UnreadableGlobs { policy: PolicyView },
    Canonicalize { path: PathView },
}

impl View for Question {
    type V = QuestionView;

    open spec fn view(&self) -> QuestionView {
        match self {
            Question::CanWrite { policy, path } => QuestionView::CanWrite {
                policy: policy@,
                path: path@,
            },
            Question::ReadAccess { policy, path } => QuestionView::ReadAccess {
                policy: policy@,
                path: path@,
            },
            Question::LinkedWorktreeGitDirs { checkout } => QuestionView::LinkedWorktreeGitDirs {
                checkout: checkout@,
            },
            Question::UnreadableGlobs { policy } => QuestionView::UnreadableGlobs {
                policy: policy@,
            },
            Question::Canonicalize { path } => QuestionView::Canonicalize { path: path@ },
        }
    }
}

/// What a decision comes to: its value, or the question that it hangs on.
pub open spec fn outcome<T: DeepView>(answer: Result<T, Question>) -> Result<T::V, QuestionView> {
    match answer {
        Ok(value) => Ok(value.deep_view()),
        Err(question) => Err(question@),
    }
}

impl DeepView for AbsolutePath {
    type V = PathView;

    open spec fn deep_view(&self) -> PathView {
        self@
    }
}

impl DeepView for FileSystemSandboxPolicy {
    type V = PolicyView;

    open spec fn deep_view(&self) -> PolicyView {
        self@
    }
}

impl DeepView for ReadAccess {
    type V = ReadAccess;

    open spec fn deep_view(&self) -> ReadAccess {
        *self
    }
}

impl DeepView for Canonical {
    type V = CanonicalView;

    open spec fn deep_view(&self) -> CanonicalView {
        match self {
            Canonical::NotAbsolute => CanonicalView::NotAbsolute,
            Canonical::Missing => CanonicalView::Missing,
            Canonical::Resolved(path) => CanonicalView::Resolved(path@),
        }
    }
}

impl DeepView for LinkedWorktreeGitDirs {
    type V = GitDirsView;

    open spec fn deep_view(&self) -> GitDirsView {
        GitDirsView { git_dir: self.git_dir@, common_dir: self.common_dir@ }
    }
}

/// A subject of questions, told apart from other subjects by what it is.
pub trait Subject: DeepView {
    /// Whether two subjects are the same.
    fn same(&self, other: &Self) -> (same: bool)
        ensures
            same == (self.deep_view() == other.deep_view()),
    ;
}

impl Subject for AbsolutePath {
    fn same(&self, other: &Self) -> (same: bool) {
        self.equals(other)
    }
}

impl Subject for FileSystemSandboxPolicy {
    fn same(&self, other: &Self) -> (same: bool) {
        self.equals(other)
    }
}

impl Subject for (FileSystemSandboxPolicy, AbsolutePath) {
    fn same(&self, other: &Self) -> (same: bool) {
        self.0.equals(&other.0) && self.1.equals(&other.1)
    }
}

/// What rows of subjects and answers say; a later row replaces an earlier one.
pub open spec fn rows_view<K: DeepView, A: DeepView>(rows: Seq<(K, A)>) -> Map<K::V, A::V>
    decreases rows.len(),
{
    if rows.len() == 0 {
        Map::empty()
    } else {
        rows_view(rows.drop_last()).insert(rows.last().0.deep_view(), rows.last().1.deep_view())
    }
}

/// Recorded answers to one kind of question.
#[derive(Debug)]
pub struct Answers<K, A> {
    rows: Vec<(K, A)>,
}

impl<K: DeepView, A: DeepView> View for Answers<K, A> {
    type V = Map<K::V, A::V>;

    closed spec fn view(&self) -> Map<K::V, A::V> {
        rows_view(self.rows@)
    }
}

impl<K: Subject, A: DeepView> Answers<K, A> {
    /// No answers.
    pub fn new() -> (answers: Answers<K, A>)
        ensures
            answers@ == Map::<K::V, A::V>::empty(),
    {
        Answers { rows: Vec::new() }
    }

    /// Records an answer, in place of an earlier one on the same subject.
    pub fn record(&mut self, subject: K, answer: A)
        ensures
            final(self)@ == old(self)@.insert(subject.deep_view(), answer.deep_view()),
    {
        self.rows.push((subject, answer));
        assert(self.rows@.drop_last() =~= old(self).rows@);
    }

    /// The answer on a subject, if one is recorded.
    pub fn get(&self, subject: &K) -> (answer: Option<&A>)
        ensures
            match answer {
                Some(answer) => {
                    &&& self@.contains_key(subject.deep_view())
                    &&& self@[subject.deep_view()] == answer.deep_view()
                },
                None => !self@.contains_key(subject.deep_view()),
            },
    {
        let mut i: usize = self.rows.len();
        assert(self.rows@.take(i as int) =~= self.rows@);
        while i > 0
            invariant
                i <= self.rows.len(),
                self@.contains_key(subject.deep_view()) == rows_view(
                    self.rows@.take(i as int),
                ).contains_key(subject.deep_view()),
                self@[subject.deep_view()] == rows_view(
                    self.rows@.take(i as int),
                )[subject.deep_view()],
            decreases i,
        {
            let ghost rows = self.rows@.take(i as int);
            assert(rows.drop_last() =~= self.rows@.take(i - 1));
            i -= 1;
            if self.rows[i].0.same(subject) {
                return Some(&self.rows[i].1);
            }
        }
        None
    }
}

/// What the host has answered so far in one launch.
#[derive(Debug)]
pub struct Findings {
    can_write: Answers<(FileSystemSandboxPolicy, AbsolutePath), bool>,
    read_access: Answers<(FileSystemSandboxPolicy, AbsolutePath), ReadAccess>,
    git_dirs: Answers<AbsolutePath, Option<LinkedWorktreeGitDirs>>,
    globs: Answers<FileSystemSandboxPolicy, Vec<AbsolutePath>>,
    canonical: Answers<AbsolutePath, Canonical>,
}

/// What `Findings` are: for each kind of question, the answers by subject.
#[verifier::ext_equal]
pub struct FindingsView {
    pub can_write: Map<(PolicyView, PathView), bool>,
    pub read_access: Map<(PolicyView, PathView), ReadAccess>,
    pub git_dirs: Map<PathView, Option<GitDirsView>>,
    pub globs: Map<PolicyView, Seq<PathView>>,
    pub canonical: Map<PathView, CanonicalView>,
}

impl FindingsView {
    /// No findings.
    pub open spec fn empty() -> FindingsView {
        FindingsView {
            can_write: Map::empty(),
            read_access: Map::empty(),
            git_dirs: Map::empty(),
            globs: Map::empty(),
            canonical: Map::empty(),
        }
    }

    /// The question is answered.
    pub open spec fn answers(self, question: QuestionView) -> bool {
        match question {
            QuestionView::CanWrite { policy, path } => self.can_write.contains_key((policy, path)),
            QuestionView::ReadAccess { policy, path } => self.read_access.contains_key(
                (policy, path),
            ),
            QuestionView::LinkedWorktreeGitDirs { checkout } => self.git_dirs.contains_key(
                checkout,
            ),
            QuestionView::UnreadableGlobs { policy } => self.globs.contains_key(policy),
            QuestionView::Canonicalize { path } => self.canonical.contains_key(path),
        }
    }

    /// Whether the policy lets the path be written, or the question that asks it.
    pub open spec fn ask_can_write(self, policy: PolicyView, path: PathView) -> Result<
        bool,
        QuestionView,
    > {
        if self.can_write.contains_key((policy, path)) {
            Ok(self.can_write[(policy, path)])
        } else {
            Err(QuestionView::CanWrite { policy, path })
        }
    }

    /// Whether the policy lets the path be read, or the question that asks it.
    pub open spec fn ask_read_access(self, policy: PolicyView, path: PathView) -> Result<
        ReadAccess,
        QuestionView,
    > {
        if self.read_access.contains_key((policy, path)) {
            Ok(self.read_access[(policy, path)])
        } else {
            Err(QuestionView::ReadAccess { policy, path })
        }
    }

    /// The administrative directories of the worktree that the checkout lies in, if it is a
    /// linked one, or the question that asks for them.
    pub open spec fn ask_git_dirs(self, checkout: PathView) -> Result<
        Option<GitDirsView>,
        QuestionView,
    > {
        if self.git_dirs.contains_key(checkout) {
            Ok(self.git_dirs[checkout])
        } else {
            Err(QuestionView::LinkedWorktreeGitDirs { checkout })
        }
    }

    /// The patterns that the policy makes unreadable, or the question that asks for them.
    pub open spec fn ask_globs(self, policy: PolicyView) -> Result<Seq<PathView>, QuestionView> {
        if self.globs.contains_key(policy) {
            Ok(self.globs[policy])
        } else {
            Err(QuestionView::UnreadableGlobs { policy })
        }
    }

    /// The canonical form of the path, or the question that asks for it.
    pub open spec fn ask_canonical(self, path: PathView) -> Result<CanonicalView, QuestionView> {
        if self.canonical.contains_key(path) {
            Ok(self.canonical[path])
        } else {
            Err(QuestionView::Canonicalize { path })
        }
    }
}

impl View for Findings {
    type V = FindingsView;

    closed spec fn view(&self) -> FindingsView {
        FindingsView {
            can_write: self.can_write@,
            read_access: self.read_access@,
            git_dirs: self.git_dirs@,
            globs: self.globs@,
            canonical: self.canonical@,
        }
    }
}

impl Findings {
    /// No findings.
    pub fn new() -> (findings: Findings)
        ensures
            findings@ == FindingsView::empty(),
    {
        Findings {
            can_write: Answers::new(),
            read_access: Answers::new(),
            git_dirs: Answers::new(),
            globs: Answers::new(),
            canonical: Answers::new(),
        }
    }

    /// Records whether the policy lets the path be written.
    pub fn record_can_write(
        &mut self,
        policy: FileSystemSandboxPolicy,
        path: AbsolutePath,
        answer: bool,
    )
        ensures
            final(self)@ == (FindingsView {
                can_write: old(self)@.can_write.insert((policy@, path@), answer),
                ..old(self)@
            }),
    {
        self.can_write.record((policy, path), answer);
    }

    /// Records whether the policy lets the path be read.
    pub fn record_read_access(
        &mut self,
        policy: FileSystemSandboxPolicy,
        path: AbsolutePath,
        answer: ReadAccess,
    )
        ensures
            final(self)@ == (FindingsView {
                read_access: old(self)@.read_access.insert((policy@, path@), answer),
                ..old(self)@
            }),
    {
        self.read_access.record((policy, path), answer);
    }

    /// Records where the worktree that the checkout lies in is administered, if it is a linked
    /// one.
    pub fn record_git_dirs(&mut self, checkout: AbsolutePath, answer: Option<LinkedWorktreeGitDirs>)
        ensures
            final(self)@ == (FindingsView {
                git_dirs: old(self)@.git_dirs.insert(checkout@, answer.deep_view()),
                ..old(self)@
            }),
    {
        self.git_dirs.record(checkout, answer);
    }

    /// Records the patterns that the policy makes unreadable.
    pub fn record_globs(&mut self, policy: FileSystemSandboxPolicy, answer: Vec<AbsolutePath>)
        ensures
            final(self)@ == (FindingsView {
                globs: old(self)@.globs.insert(policy@, answer.deep_view()),
                ..old(self)@
            }),
    {
        self.globs.record(policy, answer);
    }

    /// Records the canonical form of the path.
    pub fn record_canonical(&mut self, path: AbsolutePath, answer: Canonical)
        ensures
            final(self)@ == (FindingsView {
                canonical: old(self)@.canonical.insert(path@, answer.deep_view()),
                ..old(self)@
            }),
    {
        self.canonical.record(path, answer);
    }

    /// Whether the policy lets the path be written, or the question that asks it.
    pub fn ask_can_write(&self, policy: &FileSystemSandboxPolicy, path: &AbsolutePath) -> (answer:
        Result<bool, Question>)
        ensures
            outcome(answer) == self@.ask_can_write(policy@, path@),
    {
        let subject = (policy.copy(), path.copy());
        match self.can_write.get(&subject) {
            Some(answer) => Ok(*answer),
            None => Err(Question::CanWrite { policy: subject.0, path: subject.1 }),
        }
    }

    /// Whether the policy lets the path be read, or the question that asks it.
    pub fn ask_read_access(&self, policy: &FileSystemSandboxPolicy, path: &AbsolutePath) -> (answer:
        Result<ReadAccess, Question>)
        ensures
            outcome(answer) == self@.ask_read_access(policy@, path@),
    {
        let subject = (policy.copy(), path.copy());
        match self.read_access.get(&subject) {
            Some(answer) => Ok(*answer),
            None => Err(Question::ReadAccess { policy: subject.0, path: subject.1 }),
        }
    }

    /// The administrative directories of the worktree that the checkout lies in, if it is a
    /// linked one, or the question that asks for them.
    pub fn ask_git_dirs(&self, checkout: &AbsolutePath) -> (answer: Result<
        &Option<LinkedWorktreeGitDirs>,
        Question,
    >)
        ensures
            outcome(answer) == self@.ask_git_dirs(checkout@),
    {
        match self.git_dirs.get(checkout) {
            Some(answer) => Ok(answer),
            None => Err(Question::LinkedWorktreeGitDirs { checkout: checkout.copy() }),
        }
    }

    /// The patterns that the policy makes unreadable, or the question that asks for them.
    pub fn ask_globs(&self, policy: &FileSystemSandboxPolicy) -> (answer: Result<
        &Vec<AbsolutePath>,
        Question,
    >)
        ensures
            outcome(answer) == self@.ask_globs(policy@),
    {
        match self.globs.get(policy) {
            Some(answer) => Ok(answer),
            None => Err(Question::UnreadableGlobs { policy: policy.copy() }),
        }
    }

    /// The canonical form of the path, or the question that asks for it.
    pub fn ask_canonical(&self, path: &AbsolutePath) -> (answer: Result<&Canonical, Question>)
        ensures
            outcome(answer) == self@.ask_canonical(path@),
    {
        match self.canonical.get(path) {
            Some(answer) => Ok(answer),
            None => Err(Question::Canonicalize { path: path.copy() }),
        }
    }
}

} // verus!
