//! The deploy pipeline as a sequence of decisions. The program around the
//! library does what the job asks for (make a scratch directory, build into
//! it, run the script, remove the directory) and reports back what came of
//! it; the job decides what is next and what the deploy comes to.

use vstd::prelude::*;
use vstd::string::*;
use crate::fleen_app::{FleenApp, FleenError, FleenErrorView};
use crate::site_path::SitePath;

verus! {

/// What the job asks the program to do next.
#[derive(Debug)]
pub enum DeployAction {
    /// Make a new scratch directory.
    CreateScratch,
    /// Build the site into the scratch directory.
    Build(SitePath),
    /// Look whether the deploy script exists at the path.
    FindScript(SitePath),
    /// Run the script at the first path with the second as its working
    /// directory, and wait for it.
    RunScript(SitePath, SitePath),
    /// Remove the scratch directory.
    RemoveScratch(SitePath),
    /// Report the result: what the script printed, or what went wrong.
    Finish(Result<String, FleenError>),
}

/// What running the deploy script came to.
#[derive(Debug)]
pub enum ScriptRun {
    /// The script ran: what it printed, where that is text, and whether it
    /// exited with success.
    Exited(Option<String>, bool),
    /// The script could not be started.
    NotStarted(String),
}

/// What the program reports back.
#[derive(Debug)]
pub enum DeployEvent {
    /// The scratch directory and its path, or why there is none.
    ScratchCreated(Result<SitePath, String>),
    /// The build into the scratch directory succeeded or failed.
    Built(Result<(), FleenError>),
    /// Whether the deploy script exists.
    ScriptFound(bool),
    /// The script was run.
    ScriptRan(ScriptRun),
    /// The scratch directory was removed, or could not be.
    ScratchRemoved(Result<(), String>),
}

/// The result of a deploy as plain values.
pub open spec fn result_view(r: Result<String, FleenError>) -> Result<Seq<char>, FleenErrorView> {
    match r {
        Ok(text) => Ok(text@),
        Err(e) => Err(e@),
    }
}

/// A `DeployAction` as plain values.
pub ghost enum ActionView {
    CreateScratch,
    Build(Seq<Seq<char>>),
    FindScript(Seq<Seq<char>>),
    RunScript(Seq<Seq<char>>, Seq<Seq<char>>),
    RemoveScratch(Seq<Seq<char>>),
    Finish(Result<Seq<char>, FleenErrorView>),
}

impl View for DeployAction {
    type V = ActionView;

    open spec fn view(&self) -> ActionView {
        match *self {
            DeployAction::CreateScratch => ActionView::CreateScratch,
            DeployAction::Build(dir) => ActionView::Build(dir@),
            DeployAction::FindScript(script) => ActionView::FindScript(script@),
            DeployAction::RunScript(script, dir) => ActionView::RunScript(script@, dir@),
            DeployAction::RemoveScratch(dir) => ActionView::RemoveScratch(dir@),
            DeployAction::Finish(result) => ActionView::Finish(result_view(result)),
        }
    }
}

/// A `DeployEvent` as plain values.
pub ghost enum EventView {
    ScratchCreated(Result<Seq<Seq<char>>, Seq<char>>),
    Built(Result<(), FleenErrorView>),
    ScriptFound(bool),
    ScriptExited(Option<Seq<char>>, bool),
    ScriptNotStarted(Seq<char>),
    ScratchRemoved(Result<(), Seq<char>>),
}

impl View for DeployEvent {
    type V = EventView;

    open spec fn view(&self) -> EventView {
        match *self {
            DeployEvent::ScratchCreated(Ok(dir)) => EventView::ScratchCreated(Ok(dir@)),
            DeployEvent::ScratchCreated(Err(cause)) => EventView::ScratchCreated(Err(cause@)),
            DeployEvent::Built(Ok(_)) => EventView::Built(Ok(())),
            DeployEvent::Built(Err(e)) => EventView::Built(Err(e@)),
            DeployEvent::ScriptFound(found) => EventView::ScriptFound(found),
            DeployEvent::ScriptRan(ScriptRun::Exited(Some(text), success)) =>
                EventView::ScriptExited(Some(text@), success),
            DeployEvent::ScriptRan(ScriptRun::Exited(None, success)) => EventView::ScriptExited(
                None,
                success,
            ),
            DeployEvent::ScriptRan(ScriptRun::NotStarted(cause)) => EventView::ScriptNotStarted(
                cause@,
            ),
            DeployEvent::ScratchRemoved(Ok(_)) => EventView::ScratchRemoved(Ok(())),
            DeployEvent::ScratchRemoved(Err(cause)) => EventView::ScratchRemoved(Err(cause@)),
        }
    }
}

/// Where a deploy stands.
#[derive(Debug)]
enum DeployState {
    AwaitScratch,
    AwaitBuild(SitePath),
    AwaitScript(SitePath),
    AwaitRun(SitePath),
    AwaitRemoval(SitePath, Result<String, FleenError>),
    Done(Result<String, FleenError>),
}

/// Where a deploy stands, as plain values.
pub ghost enum StateView {
    /// The scratch directory was asked for.
    AwaitScratch,
    /// The build into the scratch directory was asked for.
    AwaitBuild(Seq<Seq<char>>),
    /// The look for the script was asked for.
    AwaitScript(Seq<Seq<char>>),
    /// The script was started.
    AwaitRun(Seq<Seq<char>>),
    /// The removal of the scratch directory was asked for; the result is
    /// what the deploy came to so far.
    AwaitRemoval(Seq<Seq<char>>, Result<Seq<char>, FleenErrorView>),
    /// The deploy is over.
    Done(Result<Seq<char>, FleenErrorView>),
}

/// The state of a job and the root of its site, as plain values.
pub ghost struct JobView {
    pub root: Seq<Seq<char>>,
    pub state: StateView,
}

/// The path of the deploy script of the site at `root`.
pub open spec fn script_path(root: Seq<Seq<char>>) -> Seq<Seq<char>> {
    root.push("_scripts"@).push("deploy.sh"@)
}

/// What the job asks for in a state.
pub open spec fn pending(root: Seq<Seq<char>>, state: StateView) -> ActionView {
    match state {
        StateView::AwaitScratch => ActionView::CreateScratch,
        StateView::AwaitBuild(dir) => ActionView::Build(dir),
        StateView::AwaitScript(_) => ActionView::FindScript(script_path(root)),
        StateView::AwaitRun(dir) => ActionView::RunScript(script_path(root), dir),
        StateView::AwaitRemoval(dir, _) => ActionView::RemoveScratch(dir),
        StateView::Done(result) => ActionView::Finish(result),
    }
}

/// What a run of the script comes to: its output where it exited with
/// success, a deploy error with its output where it did not.
pub open spec fn script_result(output: Option<Seq<char>>, success: bool) -> Result<
    Seq<char>,
    FleenErrorView,
> {
    let text = match output {
        Some(text) => text,
        None => "Error reading deploy script output"@,
    };
    if success {
        Ok(text)
    } else {
        Err(FleenErrorView::DeployError(text))
    }
}

/// What the deploy comes to once the scratch directory is gone: a failed
/// removal is reported, but never in the place of an earlier error.
pub open spec fn after_removal(
    result: Result<Seq<char>, FleenErrorView>,
    removal: Result<(), Seq<char>>,
) -> Result<Seq<char>, FleenErrorView> {
    match (result, removal) {
        (Ok(_), Err(cause)) => Err(FleenErrorView::Io(cause)),
        _ => result,
    }
}

/// The state that follows `state` on `event`. An event that the state does
/// not wait for changes nothing.
pub open spec fn next_state(state: StateView, event: EventView) -> StateView {
    match (state, event) {
        (StateView::AwaitScratch, EventView::ScratchCreated(Ok(dir))) => StateView::AwaitBuild(
            dir,
        ),
        (StateView::AwaitScratch, EventView::ScratchCreated(Err(_))) => StateView::Done(
            Err(FleenErrorView::TargetDir),
        ),
        (StateView::AwaitBuild(dir), EventView::Built(Ok(_))) => StateView::AwaitScript(dir),
        (StateView::AwaitBuild(dir), EventView::Built(Err(e))) => StateView::AwaitRemoval(
            dir,
            Err(e),
        ),
        (StateView::AwaitScript(dir), EventView::ScriptFound(true)) => StateView::AwaitRun(dir),
        (StateView::AwaitScript(dir), EventView::ScriptFound(false)) => StateView::AwaitRemoval(
            dir,
            Err(FleenErrorView::ScriptMissing),
        ),
        (StateView::AwaitRun(dir), EventView::ScriptExited(output, success)) =>
            StateView::AwaitRemoval(dir, script_result(output, success)),
        (StateView::AwaitRun(dir), EventView::ScriptNotStarted(cause)) => StateView::AwaitRemoval(
            dir,
            Err(FleenErrorView::DeployError(cause)),
        ),
        (StateView::AwaitRemoval(_, result), EventView::ScratchRemoved(removal)) =>
            StateView::Done(after_removal(result, removal)),
        _ => state,
    }
}

/// One deploy of a site.
#[derive(Debug)]
pub struct DeployJob {
    root: SitePath,
    state: DeployState,
}

impl View for DeployState {
    type V = StateView;

    closed spec fn view(&self) -> StateView {
        match *self {
            DeployState::AwaitScratch => StateView::AwaitScratch,
            DeployState::AwaitBuild(dir) => StateView::AwaitBuild(dir@),
            DeployState::AwaitScript(dir) => StateView::AwaitScript(dir@),
            DeployState::AwaitRun(dir) => StateView::AwaitRun(dir@),
            DeployState::AwaitRemoval(dir, result) => StateView::AwaitRemoval(
                dir@,
                result_view(result),
            ),
            DeployState::Done(result) => StateView::Done(result_view(result)),
        }
    }
}

impl View for DeployJob {
    type V = JobView;

    closed spec fn view(&self) -> JobView {
        JobView { root: self.root@, state: self.state@ }
    }
}

fn copy_result(result: &Result<String, FleenError>) -> (copy: Result<String, FleenError>)
    ensures
        result_view(copy) == result_view(*result),
{
    match result {
        Ok(text) => Ok(text.clone()),
        Err(e) => Err(e.duplicate()),
    }
}

impl DeployJob {
    /// A deploy of the site at `root` that has not asked for anything yet.
    pub fn new(root: SitePath) -> (job: DeployJob)
        ensures
            job@ == (JobView { root: root@, state: StateView::AwaitScratch }),
    {
        DeployJob { root, state: DeployState::AwaitScratch }
    }

    /// Whether the deploy is over.
    pub fn is_done(&self) -> (r: bool)
        ensures
            r == (self@.state is Done),
    {
        match &self.state {
            DeployState::Done(_) => true,
            _ => false,
        }
    }

    /// What the job waits for: the action to carry out and to report on.
    pub fn pending(&self) -> (action: DeployAction)
        ensures
            action@ == pending(self@.root, self@.state),
    {
        match &self.state {
            DeployState::AwaitScratch => DeployAction::CreateScratch,
            DeployState::AwaitBuild(dir) => DeployAction::Build(dir.duplicate()),
            DeployState::AwaitScript(_) => DeployAction::FindScript(
                self.root.child("_scripts").child("deploy.sh"),
            ),
            DeployState::AwaitRun(dir) => DeployAction::RunScript(
                self.root.child("_scripts").child("deploy.sh"),
                dir.duplicate(),
            ),
            DeployState::AwaitRemoval(dir, _) => DeployAction::RemoveScratch(dir.duplicate()),
            DeployState::Done(result) => DeployAction::Finish(copy_result(result)),
        }
    }

    /// Takes the report on the action asked for last, and says what is
    /// next. A report that the job does not wait for changes nothing: the
    /// same action is asked for again.
    pub fn step(&mut self, event: DeployEvent) -> (action: DeployAction)
        ensures
            final(self)@.root == old(self)@.root,
            final(self)@.state == next_state(old(self)@.state, event@),
            action@ == pending(final(self)@.root, final(self)@.state),
    {
        let mut state = DeployState::AwaitScratch;
        core::mem::swap(&mut self.state, &mut state);
        let next = match (state, event) {
            (DeployState::AwaitScratch, DeployEvent::ScratchCreated(Ok(dir))) =>
                DeployState::AwaitBuild(dir),
            (DeployState::AwaitScratch, DeployEvent::ScratchCreated(Err(_))) => DeployState::Done(
                Err(FleenError::TargetDir),
            ),
            (DeployState::AwaitBuild(dir), DeployEvent::Built(Ok(_))) => DeployState::AwaitScript(
                dir,
            ),
            (DeployState::AwaitBuild(dir), DeployEvent::Built(Err(e))) =>
                DeployState::AwaitRemoval(dir, Err(e)),
            (DeployState::AwaitScript(dir), DeployEvent::ScriptFound(true)) =>
                DeployState::AwaitRun(dir),
            (DeployState::AwaitScript(dir), DeployEvent::ScriptFound(false)) =>
                DeployState::AwaitRemoval(dir, Err(FleenError::ScriptMissing)),
            (DeployState::AwaitRun(dir), DeployEvent::ScriptRan(ScriptRun::Exited(output, success))) => {
                let text = match output {
                    Some(text) => text,
                    None => "Error reading deploy script output".to_owned(),
                };
                if success {
                    DeployState::AwaitRemoval(dir, Ok(text))
                } else {
                    DeployState::AwaitRemoval(dir, Err(FleenError::DeployError(text)))
                }
            },
            (DeployState::AwaitRun(dir), DeployEvent::ScriptRan(ScriptRun::NotStarted(cause))) =>
                DeployState::AwaitRemoval(dir, Err(FleenError::DeployError(cause))),
            (DeployState::AwaitRemoval(_, result), DeployEvent::ScratchRemoved(removal)) => {
                match (result, removal) {
                    (Ok(_), Err(cause)) => DeployState::Done(Err(FleenError::Io(cause))),
                    (result, _) => DeployState::Done(result),
                }
            },
            (state, _) => state,
        };
        self.state = next;
        self.pending()
    }
}

impl FleenApp {
    /// Starts a deploy of this site: the job that decides its steps.
    pub fn build_and_deploy(&self) -> (job: DeployJob)
        ensures
            job@ == (JobView { root: self@.root, state: StateView::AwaitScratch }),
    {
        DeployJob::new(self.root().duplicate())
    }
}

/// The state of a job after it took the reports `events`.
pub open spec fn state_after(events: Seq<EventView>) -> StateView
    decreases events.len(),
{
    if events.len() == 0 {
        StateView::AwaitScratch
    } else {
        next_state(state_after(events.drop_last()), events.last())
    }
}

/// All that a job has asked for after it took the reports `events`: the
/// scratch directory first, then one action for each report.
pub open spec fn actions_asked(root: Seq<Seq<char>>, events: Seq<EventView>) -> Seq<ActionView>
    decreases events.len(),
{
    if events.len() == 0 {
        seq![ActionView::CreateScratch]
    } else {
        actions_asked(root, events.drop_last()).push(pending(root, state_after(events)))
    }
}

/// Whether the removal of `dir` is asked for after action `j` and before
/// action `k`.
pub open spec fn removed_between(actions: Seq<ActionView>, j: int, k: int, dir: Seq<Seq<char>>)
    -> bool {
    exists|i: int| j < i < k && #[trigger] actions[i] == ActionView::RemoveScratch(dir)
}

spec fn no_finish(actions: Seq<ActionView>) -> bool {
    forall|k: int| 0 <= k < actions.len() ==> !(#[trigger] actions[k] is Finish)
}

spec fn builds_only(actions: Seq<ActionView>, dir: Seq<Seq<char>>) -> bool {
    forall|j: int|
        0 <= j < actions.len() && (#[trigger] actions[j] is Build) ==> actions[j]
            == ActionView::Build(dir)
}

spec fn no_build(actions: Seq<ActionView>) -> bool {
    forall|j: int| 0 <= j < actions.len() ==> !(#[trigger] actions[j] is Build)
}

spec fn all_removed(actions: Seq<ActionView>) -> bool {
    forall|j: int|
        0 <= j < actions.len() && (#[trigger] actions[j] is Build) ==> removed_between(
            actions,
            j,
            actions.len() as int,
            actions[j]->Build_0,
        )
}

spec fn removed_before_finish(actions: Seq<ActionView>) -> bool {
    forall|j: int, k: int|
        0 <= j < k < actions.len() && (#[trigger] actions[j] is Build) && (
        #[trigger] actions[k] is Finish) ==> removed_between(actions, j, k, actions[j]->Build_0)
}

spec fn job_invariant(state: StateView, actions: Seq<ActionView>) -> bool {
    &&& actions.len() > 0
    &&& removed_before_finish(actions)
    &&& match state {
        StateView::AwaitScratch => no_finish(actions) && no_build(actions),
        StateView::AwaitBuild(dir) => no_finish(actions) && builds_only(actions, dir),
        StateView::AwaitScript(dir) => no_finish(actions) && builds_only(actions, dir),
        StateView::AwaitRun(dir) => no_finish(actions) && builds_only(actions, dir),
        StateView::AwaitRemoval(dir, _) => no_finish(actions) && builds_only(actions, dir)
            && actions.last() == ActionView::RemoveScratch(dir),
        StateView::Done(_) => all_removed(actions),
    }
}

proof fn lemma_job_invariant(root: Seq<Seq<char>>, events: Seq<EventView>)
    ensures
        job_invariant(state_after(events), actions_asked(root, events)),
    decreases events.len(),
{
    if events.len() == 0 {
    } else {
        let before = events.drop_last();
        lemma_job_invariant(root, before);
        let was = state_after(before);
        let earlier = actions_asked(root, before);
        let state = state_after(events);
        let asked = pending(root, state);
        let actions = actions_asked(root, events);
        let n = earlier.len() as int;
        assert(actions == earlier.push(asked));
        assert(forall|i: int| 0 <= i < n ==> actions[i] == earlier[i]);
        assert forall|j: int, k: int|
            0 <= j < k < actions.len() && (#[trigger] actions[j] is Build) && (
            #[trigger] actions[k] is Finish) implies removed_between(
            actions,
            j,
            k,
            actions[j]->Build_0,
        ) by {
            let dir = actions[j]->Build_0;
            if k < n {
                assert(earlier[j] is Build && earlier[k] is Finish);
                assert(removed_between(earlier, j, k, dir));
                let i = choose|i: int|
                    j < i < k && #[trigger] earlier[i] == ActionView::RemoveScratch(dir);
                assert(actions[i] == ActionView::RemoveScratch(dir));
            } else {
                assert(earlier[j] is Build);
                match was {
                    StateView::AwaitRemoval(at, _) => {
                        assert(earlier[j] == ActionView::Build(at));
                        assert(actions[n - 1] == ActionView::RemoveScratch(dir));
                    },
                    StateView::Done(_) => {
                        assert(removed_between(earlier, j, n, dir));
                        let i = choose|i: int|
                            j < i < n && #[trigger] earlier[i] == ActionView::RemoveScratch(dir);
                        assert(actions[i] == ActionView::RemoveScratch(dir));
                    },
                    _ => {},
                }
            }
        }
        match state {
            StateView::Done(_) => {
                assert forall|j: int|
                    0 <= j < actions.len() && (#[trigger] actions[j] is Build) implies removed_between(
                    actions,
                    j,
                    actions.len() as int,
                    actions[j]->Build_0,
                ) by {
                    let dir = actions[j]->Build_0;
                    assert(earlier[j] is Build);
                    match was {
                        StateView::AwaitRemoval(at, _) => {
                            assert(earlier[j] == ActionView::Build(at));
                            assert(actions[n - 1] == ActionView::RemoveScratch(dir));
                        },
                        StateView::Done(_) => {
                            assert(removed_between(earlier, j, n, dir));
                            let i = choose|i: int|
                                j < i < n && #[trigger] earlier[i] == ActionView::RemoveScratch(
                                    dir,
                                );
                            assert(actions[i] == ActionView::RemoveScratch(dir));
                        },
                        _ => {},
                    }
                }
            },
            _ => {},
        }
    }
}

/// The scratch directory never outlives the deploy: whenever a job reports
/// a result after it asked for a build into a scratch directory, it has
/// asked for the removal of that directory in between. This holds of every
/// sequence of reports, so of a failed build, a missing script, a script
/// that fails or cannot be started, and of success.
pub proof fn lemma_scratch_is_removed(
    root: Seq<Seq<char>>,
    events: Seq<EventView>,
    j: int,
    k: int,
)
    requires
        0 <= j < k < actions_asked(root, events).len(),
        actions_asked(root, events)[j] is Build,
        actions_asked(root, events)[k] is Finish,
    ensures
        removed_between(
            actions_asked(root, events),
            j,
            k,
            actions_asked(root, events)[j]->Build_0,
        ),
{
    lemma_job_invariant(root, events);
}

/// A job reports a result only once the scratch directory is settled: the
/// result of a deploy whose scratch directory was made comes with the
/// report on its removal, and the first error stays the error.
pub proof fn lemma_deploy_outcomes(dir: Seq<Seq<char>>, event: EventView)
    ensures
        next_state(StateView::AwaitBuild(dir), event) !is Done,
        next_state(StateView::AwaitScript(dir), event) !is Done,
        next_state(StateView::AwaitRun(dir), event) !is Done,
        forall|e: FleenErrorView, removal: Result<(), Seq<char>>|
            next_state(
                StateView::AwaitRemoval(dir, Err(e)),
                EventView::ScratchRemoved(removal),
            ) == StateView::Done(Err(e)),
{
}

} // verus!
