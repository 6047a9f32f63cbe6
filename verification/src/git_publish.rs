//! Publishing the YAML snapshots through git: which commands run, in which
//! order, and what the run reports.
use vstd::prelude::*;
use crate::text::{chars_of, string_of, trim_chars, trimmed};
use crate::types::text;

verus! {

/// What a publish run did.
#[derive(Debug, Clone, Copy, PartialEq, Eq)]
pub struct PublishResult {
    pub committed: bool,
    pub pushed: bool,
}

/// A git command that changes the repository.
#[derive(Debug, Clone, Copy, PartialEq, Eq, Structural)]
pub enum GitStep {
    Add,
    Commit,
    Push,
}

/// The commands a publish run performs after `git status`, in order, and
/// what it reports once they all succeeded.
#[derive(Debug, Clone, PartialEq, Eq)]
pub struct PublishPlan {
    pub steps: Vec<GitStep>,
    pub result: PublishResult,
}

/// The commands of a publish run: none for a clean tree; otherwise add and
/// commit, then push when `push` is asked.
pub open spec fn publish_steps(dirty: bool, push: bool) -> Seq<GitStep> {
    if !dirty {
        Seq::empty()
    } else if push {
        seq![GitStep::Add, GitStep::Commit, GitStep::Push]
    } else {
        seq![GitStep::Add, GitStep::Commit]
    }
}

/// Plans a publish run once `git status` has said whether the paths are
/// dirty: a clean tree is left alone and nothing is committed; a dirty one is
/// added and committed, and pushed exactly when `push` is asked.
pub fn commit_and_push(dirty: bool, push: bool) -> (r: PublishPlan)
    ensures
        r.steps@ == publish_steps(dirty, push),
        r.result == (PublishResult { committed: dirty, pushed: dirty && push }),
{
    let mut steps: Vec<GitStep> = Vec::new();
    if dirty {
        steps.push(GitStep::Add);
        steps.push(GitStep::Commit);
        if push {
            steps.push(GitStep::Push);
        }
    }
    assert(steps@ =~= publish_steps(dirty, push));
    PublishPlan { steps, result: PublishResult { committed: dirty, pushed: dirty && push } }
}

/// The output of `git status --porcelain` lists a change: it is not blank.
pub open spec fn status_is_dirty(output: Seq<char>) -> bool {
    trimmed(output).len() > 0
}

/// Whether the paths are dirty, read from the output of
/// `git status --porcelain -- <paths>`: any line means a change.
pub fn is_dirty(output: &str) -> (r: bool)
    ensures
        r == status_is_dirty(output@),
{
    let t = trim_chars(chars_of(output).as_slice());
    t.len() > 0
}

/// The views of a list of strings.
pub open spec fn texts(v: Seq<String>) -> Seq<Seq<char>> {
    v.map_values(|s: String| s@)
}

fn with_paths(head: Vec<String>, paths: &Vec<String>) -> (r: Vec<String>)
    ensures
        texts(r@) == texts(head@) + texts(paths@),
{
    let mut r = head;
    let ghost h = texts(r@);
    let mut i: usize = 0;
    while i < paths.len()
        invariant
            i <= paths@.len(),
            texts(r@) == h + texts(paths@.take(i as int)),
        decreases paths@.len() - i,
    {
        let ghost before = r@;
        r.push(paths[i].clone());
        assert(texts(r@) =~= texts(before).push(paths@[i as int]@));
        assert(texts(paths@.take(i + 1)) =~= texts(paths@.take(i as int)).push(paths@[i as int]@));
        i = i + 1;
    }
    assert(paths@.take(paths@.len() as int) =~= paths@);
    r
}

/// `git status --porcelain -- <paths>`.
pub fn status_args(paths: &Vec<String>) -> (r: Vec<String>)
    ensures
        texts(r@) == seq!["status"@, "--porcelain"@, "--"@] + texts(paths@),
{
    let head = vec![text("status"), text("--porcelain"), text("--")];
    let r = with_paths(head, paths);
    assert(texts(head@) =~= seq!["status"@, "--porcelain"@, "--"@]);
    r
}

/// `git add -- <paths>`.
pub fn add_args(paths: &Vec<String>) -> (r: Vec<String>)
    ensures
        texts(r@) == seq!["add"@, "--"@] + texts(paths@),
{
    let head = vec![text("add"), text("--")];
    let r = with_paths(head, paths);
    assert(texts(head@) =~= seq!["add"@, "--"@]);
    r
}

/// The arguments of one step: `add -- <paths>`, `commit -m <message>` or
/// `push`.
pub fn step_args(step: GitStep, paths: &Vec<String>, message: &str) -> (r: Vec<String>)
    ensures
        texts(r@) == match step {
            GitStep::Add => seq!["add"@, "--"@] + texts(paths@),
            GitStep::Commit => seq!["commit"@, "-m"@, message@],
            GitStep::Push => seq!["push"@],
        },
{
    match step {
        GitStep::Add => add_args(paths),
        GitStep::Commit => {
            let r = vec![text("commit"), text("-m"), text(message)];
            assert(texts(r@) =~= seq!["commit"@, "-m"@, message@]);
            r
        },
        GitStep::Push => {
            let r = vec![text("push")];
            assert(texts(r@) =~= seq!["push"@]);
            r
        },
    }
}

/// Whether a sync run publishes its snapshot.
#[derive(Debug, PartialEq, Eq)]
pub enum PublishDecision {
    /// Publishing is off: nothing to do.
    Skip,
    /// Publish; the operator named this remote (trimmed).
    Publish { remote: String },
    /// Publishing is on but no remote was confirmed: refuse.
    Refuse,
}

/// Publishing is only done with a confirmed remote: off means skip; on with a
/// non-blank confirmation means publish to it, trimmed; on without one means
/// refuse.
pub fn publish_decision(enabled: bool, confirm: Option<&str>) -> (r: PublishDecision)
    ensures
        !enabled ==> r == PublishDecision::Skip,
        enabled ==> match confirm {
            Some(c) if trimmed(c@).len() > 0 => r matches PublishDecision::Publish { remote } && remote@
                == trimmed(c@),
            _ => r == PublishDecision::Refuse,
        },
{
    if !enabled {
        return PublishDecision::Skip;
    }
    match confirm {
        Some(c) => {
            let t = trim_chars(chars_of(c).as_slice());
            if t.len() > 0 {
                PublishDecision::Publish { remote: string_of(t.as_slice()) }
            } else {
                PublishDecision::Refuse
            }
        },
        None => PublishDecision::Refuse,
    }
}

/// Why publishing was refused.
pub open spec fn refusal_text() -> Seq<char> {
    "INVENTORY_PUBLISH/`--publish` ist aktiv, aber `--confirm-publish-to` (bzw. env INVENTORY_PUBLISH_CONFIRM) ist leer. Refusing to push device inventory to remote. Set --confirm-publish-to '<remote>' to acknowledge."@
}

/// The message given when publishing is refused.
pub fn refusal_message() -> (r: String)
    ensures
        r@ == refusal_text(),
{
    text(
        "INVENTORY_PUBLISH/`--publish` ist aktiv, aber `--confirm-publish-to` (bzw. env INVENTORY_PUBLISH_CONFIRM) ist leer. Refusing to push device inventory to remote. Set --confirm-publish-to '<remote>' to acknowledge.",
    )
}

/// The commit message of a sync run for `source`: `auto-sync <source>`.
pub fn publish_message(source: &str) -> (r: String)
    ensures
        r@ == "auto-sync "@ + source@,
{
    let mut r = text("auto-sync ");
    r.append(source);
    assert(r@ =~= "auto-sync "@ + source@);
    r
}

} // verus!
