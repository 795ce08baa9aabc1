# worktree_permissions

A sandbox profile may grant writing to the `.git` of a checkout. In a linked Git worktree `.git`
is only a pointer: what Git writes lies in the directory that administers the worktree and in the
directory that all worktrees of the repository share. This library decides which rules such a
grant stands for on the host where a process is about to be launched, and proves what those rules
can and cannot open.

Facts that only the host knows (canonical paths, worktree metadata, how a policy evaluates in a
working directory) are asked for one at a time: `with_worktree_git_write_permissions` returns
either the expanded profile or the question that the decision hangs on. The caller records the
answer in `Findings` and calls again; findings are kept for one launch only.

- `path`, `glob`, `permissions`: paths, the directory that a pattern is anchored in, profiles.
- `findings`: questions and recorded answers.
- `model`: what an expansion is, as a function of a policy and of the findings.
- `worktree`: the decisions.
- `resolution`: which place a path comes to.
- `dialogue`, `laws`, `restrictions`, `protection`: what holds of every exchange with the host, of
  every grant and of every expansion.
- `repetition`: when expanding again changes nothing.

`app/` answers the questions from the file system and the policy of a launch.
