use vstd::prelude::*;

use crate::commands::{split_command, texts, words};

verus! {

/// One configured repository.
pub struct Project {
    /// Where the repository is cloned from.
    pub url: String,
    /// The directory that the clone creates.
    pub name: String,
    /// The marker after which the update value is written.
    pub replace_prefix: String,
    /// Path of the file to edit, relative to the clone.
    pub yaml_path: Option<String>,
    /// Command run in the clone before the change and after the commit.
    pub test_cmd: Option<String>,
}

/// The projects to update, in order.
pub struct Config {
    pub projects: Vec<Project>,
}

/// Settings that hold for the whole run.
pub struct RunConfig {
    /// The version string written into each file.
    pub update: String,
    pub author_name: String,
    pub author_email: String,
    /// Go on past a failed command instead of stopping.
    pub keep_going: bool,
    /// Collect a command's output and show it only when it fails.
    pub quiet: bool,
}

/// The file edited when a project names none.
pub open spec fn default_target() -> Seq<char> {
    ".gitlab.yml"@
}

impl Project {
    /// The path of the file to edit, relative to the clone.
    pub open spec fn target_spec(&self) -> Seq<char> {
        match self.yaml_path {
            Some(p) => p@,
            None => default_target(),
        }
    }

    /// The path of the file to edit, relative to the clone: the configured
    /// one, or `.gitlab.yml`.
    pub fn target_file(&self) -> (r: String)
        ensures
            r@ == self.target_spec(),
    {
        match &self.yaml_path {
            Some(p) => p.clone(),
            None => String::from_str(".gitlab.yml"),
        }
    }

    /// Whether a test command is configured.
    pub fn has_test(&self) -> (r: bool)
        ensures
            r == self.test_cmd is Some,
    {
        self.test_cmd.is_some()
    }

    /// The test command split at whitespace into program and arguments, if
    /// one is configured.
    pub fn test_invocation(&self) -> (r: Option<Vec<String>>)
        ensures
            match self.test_cmd {
                None => r is None,
                Some(c) => r is Some && texts(r->0@) == words(c@),
            },
    {
        match &self.test_cmd {
            Some(c) => Some(split_command(c.as_str())),
            None => None,
        }
    }
}

/// The steps of one project's update, in the order they run.
#[derive(Clone, Copy, Debug, PartialEq, Eq, Structural)]
pub enum Step {
    Clone,
    PreTest,
    Rewrite,
    Branch,
    Add,
    Commit,
    PostTest,
    Push,
}

/// What the run does after a step.
#[derive(Clone, Copy, Debug, PartialEq, Eq, Structural)]
pub enum Next {
    /// Run this step of the same project.
    Run(Step),
    /// Leave this project and go to the next one.
    NextProject,
    /// Stop the whole run.
    Halt,
}

/// The step that follows `step` when the project goes on; the test steps
/// are there only when a test command is configured.
pub open spec fn step_after(step: Step, has_test: bool) -> Option<Step> {
    match step {
        Step::Clone => if has_test {
            Some(Step::PreTest)
        } else {
            Some(Step::Rewrite)
        },
        Step::PreTest => Some(Step::Rewrite),
        Step::Rewrite => Some(Step::Branch),
        Step::Branch => Some(Step::Add),
        Step::Add => Some(Step::Commit),
        Step::Commit => if has_test {
            Some(Step::PostTest)
        } else {
            Some(Step::Push)
        },
        Step::PostTest => Some(Step::Push),
        Step::Push => None,
    }
}

/// Steps whose failure is subject to the continuation policy: the
/// version-control commands. A failed test command does not change what
/// follows.
pub open spec fn is_guarded(step: Step) -> bool {
    match step {
        Step::Clone | Step::Branch | Step::Add | Step::Commit | Step::Push => true,
        _ => false,
    }
}

/// The policy: a step that succeeded or is not guarded leads to the
/// following step (or to the next project after the push). A failed clone
/// leaves nothing to work on: it moves to the next project when `keep_going`
/// is set and stops the run otherwise. Any other failed guarded step leads to
/// the following step when `keep_going` is set and leaves the project
/// otherwise.
pub open spec fn decision(step: Step, succeeded: bool, has_test: bool, keep_going: bool) -> Next {
    if succeeded || !is_guarded(step) || (keep_going && step != Step::Clone) {
        match step_after(step, has_test) {
            Some(s) => Next::Run(s),
            None => Next::NextProject,
        }
    } else if step == Step::Clone && !keep_going {
        Next::Halt
    } else {
        Next::NextProject
    }
}

/// The step that follows `step` when the project goes on.
pub fn following_step(step: Step, has_test: bool) -> (r: Option<Step>)
    ensures
        r == step_after(step, has_test),
{
    match step {
        Step::Clone => if has_test {
            Some(Step::PreTest)
        } else {
            Some(Step::Rewrite)
        },
        Step::PreTest => Some(Step::Rewrite),
        Step::Rewrite => Some(Step::Branch),
        Step::Branch => Some(Step::Add),
        Step::Add => Some(Step::Commit),
        Step::Commit => if has_test {
            Some(Step::PostTest)
        } else {
            Some(Step::Push)
        },
        Step::PostTest => Some(Step::Push),
        Step::Push => None,
    }
}

/// What comes after `step`, given whether it succeeded, whether the project
/// has a test command, and whether the run goes on past failures.
pub fn decide(step: Step, succeeded: bool, has_test: bool, keep_going: bool) -> (r: Next)
    ensures
        r == decision(step, succeeded, has_test, keep_going),
{
    let guarded = match step {
        Step::Clone | Step::Branch | Step::Add | Step::Commit | Step::Push => true,
        _ => false,
    };
    let is_clone = step == Step::Clone;
    if succeeded || !guarded || (keep_going && !is_clone) {
        match following_step(step, has_test) {
            Some(s) => Next::Run(s),
            None => Next::NextProject,
        }
    } else if is_clone && !keep_going {
        Next::Halt
    } else {
        Next::NextProject
    }
}

/// Where the run stands: which project, and which of its steps runs next.
#[derive(Clone, Copy, Debug, PartialEq, Eq, Structural)]
pub struct Position {
    pub project: usize,
    pub step: Step,
}

/// Where the run goes from `pos` among `n` projects; `None` when it ends.
pub open spec fn next_position(
    pos: Position,
    n: nat,
    succeeded: bool,
    has_test: bool,
    keep_going: bool,
) -> Option<Position> {
    match decision(pos.step, succeeded, has_test, keep_going) {
        Next::Run(s) => Some(Position { project: pos.project, step: s }),
        Next::NextProject => if pos.project + 1 < n {
            Some(Position { project: (pos.project + 1) as usize, step: Step::Clone })
        } else {
            None
        },
        Next::Halt => None,
    }
}

impl Config {
    /// The first position of the run: the clone of the first project, if
    /// there is one.
    pub fn start(&self) -> (r: Option<Position>)
        ensures
            self.projects.len() == 0 ==> r is None,
            self.projects.len() > 0 ==> r == Some(Position { project: 0, step: Step::Clone }),
    {
        if self.projects.len() == 0 {
            None
        } else {
            Some(Position { project: 0, step: Step::Clone })
        }
    }

    /// The position after the step at `pos` has run and reported whether it
    /// succeeded; `None` when the run ends.
    pub fn advance(&self, run: &RunConfig, pos: Position, succeeded: bool) -> (r: Option<Position>)
        requires
            pos.project < self.projects.len(),
        ensures
            r == next_position(
                pos,
                self.projects.len() as nat,
                succeeded,
                self.projects[pos.project as int].test_cmd is Some,
                run.keep_going,
            ),
    {
        let has_test = self.projects[pos.project].has_test();
        match decide(pos.step, succeeded, has_test, run.keep_going) {
            Next::Run(s) => Some(Position { project: pos.project, step: s }),
            Next::NextProject => if pos.project + 1 < self.projects.len() {
                Some(Position { project: pos.project + 1, step: Step::Clone })
            } else {
                None
            },
            Next::Halt => None,
        }
    }
}

/// Whether the step works inside the clone: every step but the clone
/// itself, which runs in the fresh working directory.
pub fn in_project_dir(step: Step) -> (r: bool)
    ensures
        r == (step != Step::Clone),
{
    step != Step::Clone
}

/// Without the continuation flag, a failed clone ends the whole run: no
/// further step of this project and no other project.
pub proof fn lemma_failed_clone_halts(pos: Position, n: nat, has_test: bool)
    requires
        pos.step == Step::Clone,
    ensures
        decision(pos.step, false, has_test, false) == Next::Halt,
        next_position(pos, n, false, has_test, false) is None,
{
}

/// Without the continuation flag, a failed branch, add, commit or push
/// leaves the project: the run goes on with the next project, if any.
pub proof fn lemma_failed_step_leaves_project(pos: Position, n: nat, has_test: bool)
    requires
        is_guarded(pos.step),
        pos.step != Step::Clone,
    ensures
        decision(pos.step, false, has_test, false) == Next::NextProject,
        pos.project + 1 < n ==> next_position(pos, n, false, has_test, false) == Some(
            Position { project: (pos.project + 1) as usize, step: Step::Clone },
        ),
        pos.project + 1 >= n ==> next_position(pos, n, false, has_test, false) is None,
{
}

/// With the continuation flag set, the outcome of any step but the clone
/// changes nothing: the project goes on with the following step as if the
/// step had succeeded. So a failed commit is still followed by the push.
pub proof fn lemma_keep_going_ignores_failure(step: Step, has_test: bool)
    requires
        step != Step::Clone,
    ensures
        decision(step, false, has_test, true) == decision(step, true, has_test, true),
        step_after(step, has_test) matches Some(s) ==> decision(step, false, has_test, true)
            == Next::Run(s),
        step == Step::Commit ==> step_after(step, has_test) == Some(
            if has_test {
                Step::PostTest
            } else {
                Step::Push
            },
        ),
        step == Step::PostTest ==> step_after(step, has_test) == Some(Step::Push),
{
}

/// With the continuation flag set, a failed clone skips the rest of its
/// project: the run goes on with the clone of the next project, if any.
pub proof fn lemma_keep_going_failed_clone_skips_project(pos: Position, n: nat, has_test: bool)
    requires
        pos.step == Step::Clone,
    ensures
        decision(pos.step, false, has_test, true) == Next::NextProject,
        pos.project + 1 < n ==> next_position(pos, n, false, has_test, true) == Some(
            Position { project: (pos.project + 1) as usize, step: Step::Clone },
        ),
        pos.project + 1 >= n ==> next_position(pos, n, false, has_test, true) is None,
{
}

/// The outcome of a test command never changes what follows it.
pub proof fn lemma_test_outcome_ignored(step: Step, has_test: bool, keep_going: bool)
    requires
        step == Step::PreTest || step == Step::PostTest,
    ensures
        decision(step, false, has_test, keep_going) == decision(step, true, has_test, keep_going),
{
}

/// A configured test command runs right after the clone, before the file
/// is edited, and again right after the commit, before the push; without
/// one neither test step is ever reached.
pub proof fn lemma_test_steps(step: Step, has_test: bool)
    ensures
        has_test ==> step_after(Step::Clone, has_test) == Some(Step::PreTest),
        has_test ==> step_after(Step::PreTest, has_test) == Some(Step::Rewrite),
        has_test ==> step_after(Step::Commit, has_test) == Some(Step::PostTest),
        has_test ==> step_after(Step::PostTest, has_test) == Some(Step::Push),
        !has_test ==> step_after(step, has_test) != Some(Step::PreTest) && step_after(
            step,
            has_test,
        ) != Some(Step::PostTest),
{
}

/// The steps come in a fixed order and each project ends after the push:
/// from the clone, with every step succeeding, the run passes through the
/// edit, branch, add, commit and push, in that order.
pub proof fn lemma_step_order(has_test: bool)
    ensures
        step_after(Step::Rewrite, has_test) == Some(Step::Branch),
        step_after(Step::Branch, has_test) == Some(Step::Add),
        step_after(Step::Add, has_test) == Some(Step::Commit),
        step_after(Step::Push, has_test) is None,
        !has_test ==> step_after(Step::Clone, has_test) == Some(Step::Rewrite),
        !has_test ==> step_after(Step::Commit, has_test) == Some(Step::Push),
        decision(Step::Push, true, has_test, false) == Next::NextProject,
{
}

/// Projects are handled one at a time and in order: the run either stays
/// with the current project, or moves to the clone of the very next one, and
/// never leaves the list.
pub proof fn lemma_projects_in_order(
    pos: Position,
    n: nat,
    succeeded: bool,
    has_test: bool,
    keep_going: bool,
)
    requires
        pos.project < n <= usize::MAX,
    ensures
        next_position(pos, n, succeeded, has_test, keep_going) matches Some(q) ==> q.project < n
            && (q.project == pos.project || (q.project == pos.project + 1 && q.step
            == Step::Clone)),
{
}

} // verus!
