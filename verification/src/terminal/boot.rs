//! Starting agents and shells: the order of the work, what is shown of it, and what a tab holds
//! once it is done.

use crate::terminal::lifecycle;
use crate::terminal::panel::TerminalPanel;
use crate::terminal::session;
use crate::terminal::session::{
    AgentStatus, SetupStep, StepStatus, TabKind, TerminalTab, WorkspaceSession,
};
use crate::terminal::workspace;
use crate::text;
use crate::theme::Color;
use vstd::prelude::*;

verus! {

broadcast use vstd::std_specs::hash::group_hash_axioms;

/// A step of an agent's installation.
#[derive(Debug)]
pub struct InstallStep {
    pub label: String,
    /// A command that tells by its exit code 0 that the step is not needed.
    pub skip_if: Option<String>,
    pub work: InstallWork,
}

/// What a step does: one piece of work, or several after each other.
#[derive(Debug)]
pub enum InstallWork {
    Single { op: InstallOp },
    Group { ops: Vec<InstallOp> },
}

/// One piece of work in the sandbox.
#[derive(Debug)]
pub enum InstallOp {
    Cmd { command: String },
    Download { label: String, url: String, path: String, extract: bool },
    Rename { from: String, to: String },
    Chmod { path: String, mode: u32 },
}

impl InstallStep {
    /// How many pieces of work the step has.
    pub open spec fn op_count(self) -> nat {
        match self.work {
            InstallWork::Single { .. } => 1,
            InstallWork::Group { ops } => ops@.len(),
        }
    }

    fn count(&self) -> (n: usize)
        ensures
            n == self.op_count(),
    {
        match &self.work {
            InstallWork::Single { .. } => 1,
            InstallWork::Group { ops } => ops.len(),
        }
    }
}

/// What the start of an agent is planned from.
#[derive(Debug)]
pub struct BootPlan {
    pub steps: Vec<InstallStep>,
    /// The saved state to start from, where one is given.
    pub checkpoint_from: Option<String>,
    /// The name of the agent's installed state.
    pub checkpoint_name: String,
    /// Whether that state exists.
    pub installed: bool,
}

/// Where the start of an agent stands. Every phase but the last two waits for a piece of work.
#[derive(Clone, Copy, Debug, PartialEq, Eq, Structural)]
pub enum BootPhase {
    /// The sandbox for the installation comes up.
    PreparingSandbox,
    /// The command that tells whether a step is needed runs.
    Checking { step: usize },
    /// A piece of work of a step runs.
    Installing { step: usize, op: usize },
    /// The login profile is written.
    WritingProfile,
    /// The installed state is saved.
    Saving,
    /// The sandbox of the installation stops.
    Stopping,
    /// The agent's own sandbox comes up.
    StartingWorkspace,
    /// The agent's terminal opens.
    OpeningShell,
    /// The agent draws its first screen.
    WaitingForScreen,
    /// The agent is up.
    Up,
    /// The start failed in a step of the preparation.
    Failed { step: usize },
}

/// How a piece of work ended.
#[derive(Clone, Copy, Debug, PartialEq, Eq, Structural)]
pub enum BootEvent {
    /// It was done; of a check: the step is not needed.
    Done,
    /// It failed; of a check: the step is needed.
    Failed,
}

/// A phase with the steps that were passed on the way to it, each as the step that is done and
/// the one that begins.
#[derive(Debug)]
pub struct Advance {
    pub phase: BootPhase,
    pub shown: Vec<(usize, usize)>,
}

impl BootPlan {
    /// Whether the agent has to be installed first.
    pub open spec fn needs_install(self) -> bool {
        workspace::install_needed(self.checkpoint_from is Some, self.steps@.len(), self.installed)
    }

    /// The saved state that the agent's sandbox starts from.
    pub open spec fn boot_from(self) -> Option<Seq<char>> {
        if self.checkpoint_from is Some {
            workspace::opt(self.checkpoint_from)
        } else if self.steps@.len() > 0 {
            Some(self.checkpoint_name@)
        } else {
            None
        }
    }

    /// The step of the preparation in which the agent's sandbox comes up.
    pub open spec fn start_step(self) -> int {
        if self.needs_install() {
            self.steps@.len() as int + 2
        } else {
            0
        }
    }

    /// What happens once the steps before `step` are done: the next one that has anything to do,
    /// and what is shown on the way to it.
    pub open spec fn entering(self, step: int) -> (BootPhase, Seq<(usize, usize)>)
        decreases self.steps@.len() - step,
    {
        if step < 0 || step >= self.steps@.len() {
            (BootPhase::WritingProfile, seq![])
        } else {
            let here = (step as usize, (step + 1) as usize);
            if self.steps@[step].skip_if is Some {
                (BootPhase::Checking { step: step as usize }, seq![here])
            } else if self.steps@[step].op_count() > 0 {
                (BootPhase::Installing { step: step as usize, op: 0 }, seq![here])
            } else {
                let rest = self.entering(step + 1);
                (rest.0, seq![here] + rest.1)
            }
        }
    }

    /// The first phase.
    pub open spec fn first_phase(self) -> BootPhase {
        if self.needs_install() {
            BootPhase::PreparingSandbox
        } else {
            BootPhase::StartingWorkspace
        }
    }

    /// What follows when the work of a phase ends.
    pub open spec fn following(self, phase: BootPhase, event: BootEvent) -> (
        BootPhase,
        Seq<(usize, usize)>,
    ) {
        let n = self.steps@.len() as int;
        let failed = event == BootEvent::Failed;
        match phase {
            BootPhase::PreparingSandbox => if failed {
                (BootPhase::Failed { step: 0 }, seq![])
            } else {
                self.entering(0)
            },
            BootPhase::Checking { step } => if failed && self.steps@[step as int].op_count() > 0 {
                (BootPhase::Installing { step, op: 0 }, seq![])
            } else {
                self.entering(step + 1)
            },
            BootPhase::Installing { step, op } => if failed {
                (BootPhase::Failed { step: (step + 1) as usize }, seq![])
            } else if op + 1 < self.steps@[step as int].op_count() {
                (BootPhase::Installing { step, op: (op + 1) as usize }, seq![])
            } else {
                self.entering(step + 1)
            },
            BootPhase::WritingProfile => (BootPhase::Saving, seq![(n as usize, (n + 1) as usize)]),
            BootPhase::Saving => (BootPhase::Stopping, seq![]),
            BootPhase::Stopping => (
                BootPhase::StartingWorkspace,
                seq![((n + 1) as usize, (n + 2) as usize)],
            ),
            BootPhase::StartingWorkspace => if failed {
                (BootPhase::Failed { step: self.start_step() as usize }, seq![])
            } else {
                (BootPhase::OpeningShell, seq![])
            },
            BootPhase::OpeningShell => if failed {
                (BootPhase::Failed { step: self.start_step() as usize }, seq![])
            } else {
                (BootPhase::WaitingForScreen, seq![])
            },
            BootPhase::WaitingForScreen => if failed {
                (BootPhase::WaitingForScreen, seq![])
            } else {
                (BootPhase::Up, seq![])
            },
            BootPhase::Up => (BootPhase::Up, seq![]),
            BootPhase::Failed { step } => (BootPhase::Failed { step }, seq![]),
        }
    }

    /// A phase names a step and a piece of work that are there.
    pub open spec fn fits(self, phase: BootPhase) -> bool {
        match phase {
            BootPhase::Checking { step } => step < self.steps@.len(),
            BootPhase::Installing { step, op } => step < self.steps@.len() && op
                < self.steps@[step as int].op_count(),
            _ => true,
        }
    }

    /// How far a phase is: first the number of steps behind it, then what is done of its step.
    pub open spec fn progress(self, phase: BootPhase) -> (int, int) {
        let n = self.steps@.len() as int;
        match phase {
            BootPhase::PreparingSandbox => (-1, 0),
            BootPhase::Checking { step } => (step as int, 0),
            BootPhase::Installing { step, op } => (step as int, op + 1),
            BootPhase::WritingProfile => (n, 0),
            BootPhase::Saving => (n, 1),
            BootPhase::Stopping => (n, 2),
            BootPhase::StartingWorkspace => (n, 3),
            BootPhase::OpeningShell => (n, 4),
            BootPhase::WaitingForScreen => (n, 5),
            BootPhase::Up => (n, 6),
            BootPhase::Failed { .. } => (n, 7),
        }
    }

    /// Where the start begins.
    pub fn begin(&self) -> (phase: BootPhase)
        ensures
            phase == self.first_phase(),
            self.fits(phase),
    {
        if self.checkpoint_from.is_none() && self.steps.len() > 0 && !self.installed {
            BootPhase::PreparingSandbox
        } else {
            BootPhase::StartingWorkspace
        }
    }

    /// The saved state that the agent's sandbox starts from.
    pub fn boot_source(&self) -> (r: Option<String>)
        ensures
            workspace::opt(r) == self.boot_from(),
            self.checkpoint_from matches Some(name) ==> r is Some && r->0@ == name@,
            self.checkpoint_from is None && self.steps@.len() > 0 ==> r is Some && r->0@
                == self.checkpoint_name@,
            self.checkpoint_from is None && self.steps@.len() == 0 ==> r is None,
    {
        match &self.checkpoint_from {
            Some(name) => Some(name.clone()),
            None => if self.steps.len() > 0 {
                Some(self.checkpoint_name.clone())
            } else {
                None
            },
        }
    }

    fn enter(&self, from: usize) -> (a: Advance)
        requires
            from <= self.steps@.len(),
        ensures
            (a.phase, a.shown@) == self.entering(from as int),
            self.fits(a.phase),
    {
        let mut shown: Vec<(usize, usize)> = Vec::new();
        let mut step: usize = from;
        assert(shown@ + self.entering(from as int).1 =~= self.entering(from as int).1);
        while step < self.steps.len()
            invariant
                from <= step <= self.steps@.len(),
                self.entering(from as int).0 == self.entering(step as int).0,
                self.entering(from as int).1 == shown@ + self.entering(step as int).1,
            decreases self.steps@.len() - step,
        {
            let ghost before = shown@;
            let ghost rest = self.entering(step as int);
            shown.push((step, step + 1));
            if self.steps[step].skip_if.is_some() {
                assert(before + rest.1 =~= shown@);
                return Advance { phase: BootPhase::Checking { step }, shown };
            }
            if self.steps[step].count() > 0 {
                assert(before + rest.1 =~= shown@);
                return Advance { phase: BootPhase::Installing { step, op: 0 }, shown };
            }
            assert(before + rest.1 =~= shown@ + self.entering(step + 1).1);
            step += 1;
        }
        assert(shown@ + self.entering(step as int).1 =~= shown@);
        Advance { phase: BootPhase::WritingProfile, shown }
    }

    /// What follows when the work of a phase ends.
    pub fn advance(&self, phase: BootPhase, event: BootEvent) -> (a: Advance)
        requires
            self.fits(phase),
            self.steps@.len() + 2 <= usize::MAX,
        ensures
            (a.phase, a.shown@) == self.following(phase, event),
            self.fits(a.phase),
    {
        let n: usize = self.steps.len();
        let failed = event == BootEvent::Failed;
        let start_step: usize = if self.checkpoint_from.is_none() && n > 0 && !self.installed {
            n + 2
        } else {
            0
        };
        let mut shown: Vec<(usize, usize)> = Vec::new();
        let next = match phase {
            BootPhase::PreparingSandbox => {
                if !failed {
                    return self.enter(0);
                }
                BootPhase::Failed { step: 0 }
            },
            BootPhase::Checking { step } => {
                if failed && self.steps[step].count() > 0 {
                    BootPhase::Installing { step, op: 0 }
                } else {
                    return self.enter(step + 1);
                }
            },
            BootPhase::Installing { step, op } => {
                if failed {
                    BootPhase::Failed { step: step + 1 }
                } else if self.steps[step].count() - op > 1 {
                    BootPhase::Installing { step, op: op + 1 }
                } else {
                    return self.enter(step + 1);
                }
            },
            BootPhase::WritingProfile => {
                shown.push((n, n + 1));
                BootPhase::Saving
            },
            BootPhase::Saving => BootPhase::Stopping,
            BootPhase::Stopping => {
                shown.push((n + 1, n + 2));
                BootPhase::StartingWorkspace
            },
            BootPhase::StartingWorkspace => if failed {
                BootPhase::Failed { step: start_step }
            } else {
                BootPhase::OpeningShell
            },
            BootPhase::OpeningShell => if failed {
                BootPhase::Failed { step: start_step }
            } else {
                BootPhase::WaitingForScreen
            },
            BootPhase::WaitingForScreen => if failed {
                BootPhase::WaitingForScreen
            } else {
                BootPhase::Up
            },
            BootPhase::Up => BootPhase::Up,
            BootPhase::Failed { step } => BootPhase::Failed { step },
        };
        assert(shown@ =~= self.following(phase, event).1);
        Advance { phase: next, shown }
    }

    /// The piece of work of an installing phase.
    pub fn op_at(&self, step: usize, op: usize) -> (r: &InstallOp)
        requires
            step < self.steps@.len(),
            op < self.steps@[step as int].op_count(),
        ensures
            *r == (match self.steps@[step as int].work {
                InstallWork::Single { op: single } => single,
                InstallWork::Group { ops } => ops@[op as int],
            }),
    {
        match &self.steps[step].work {
            InstallWork::Single { op: single } => single,
            InstallWork::Group { ops } => &ops[op],
        }
    }

    /// The labels of the installation's steps.
    pub fn labels(&self) -> (v: Vec<String>)
        ensures
            text::views(v@) == step_labels(self.steps@),
    {
        let mut v: Vec<String> = Vec::new();
        let mut i: usize = 0;
        assert(text::views(v@) =~= step_labels(self.steps@.take(0)));
        while i < self.steps.len()
            invariant
                i <= self.steps@.len(),
                text::views(v@) == step_labels(self.steps@.take(i as int)),
            decreases self.steps@.len() - i,
        {
            let ghost done = text::views(v@);
            v.push(self.steps[i].label.clone());
            assert(text::views(v@) =~= done.push(self.steps@[i as int].label@));
            assert(step_labels(self.steps@.take(i + 1)) =~= done.push(
                self.steps@[i as int].label@,
            ));
            i += 1;
        }
        assert(self.steps@.take(i as int) =~= self.steps@);
        v
    }
}

/// The labels of steps.
pub open spec fn step_labels(steps: Seq<InstallStep>) -> Seq<Seq<char>> {
    steps.map_values(|s: InstallStep| s.label@)
}

/// Whether one place comes before another.
pub open spec fn is_further(a: (int, int), b: (int, int)) -> bool {
    a.0 < b.0 || (a.0 == b.0 && a.1 < b.1)
}

/// Every end of a piece of work takes the start of an agent further, except that the first screen
/// is waited for until it comes; a start that is up or failed stays so.
pub proof fn law_boot_goes_forward(plan: BootPlan, phase: BootPhase, event: BootEvent)
    requires
        plan.fits(phase),
        !(phase is Up),
        !(phase is Failed),
        !(phase is WaitingForScreen && event == BootEvent::Failed),
    ensures
        is_further(plan.progress(phase), plan.progress(plan.following(phase, event).0)),
{
    match phase {
        BootPhase::PreparingSandbox => lemma_entering(plan, 0),
        BootPhase::Checking { step } => lemma_entering(plan, step + 1),
        BootPhase::Installing { step, .. } => {
            lemma_entering(plan, step + 1);
            if let InstallWork::Group { ops } = plan.steps@[step as int].work {
                assert(ops.len() == ops@.len());
            }
        },
        _ => {},
    }
}

proof fn lemma_entering(plan: BootPlan, step: int)
    requires
        0 <= step <= plan.steps@.len(),
    ensures
        plan.progress(plan.entering(step).0).0 >= step,
    decreases plan.steps@.len() - step,
{
    assert(plan.steps.len() == plan.steps@.len());
    if step < plan.steps@.len() && plan.steps@[step].skip_if is None
        && plan.steps@[step].op_count() == 0 {
        lemma_entering(plan, step + 1);
    }
}

/// The agent's own sandbox comes up only after every step is behind, the profile is written, and
/// the installed state was saved and its sandbox stopped, or where nothing had to be installed.
pub proof fn law_workspace_starts_last(plan: BootPlan, phase: BootPhase, event: BootEvent)
    requires
        plan.fits(phase),
        plan.following(phase, event).0 is StartingWorkspace,
    ensures
        phase is Stopping,
{
    match phase {
        BootPhase::PreparingSandbox => lemma_entering_phase(plan, 0),
        BootPhase::Checking { step } => lemma_entering_phase(plan, step + 1),
        BootPhase::Installing { step, .. } => lemma_entering_phase(plan, step + 1),
        _ => {},
    }
}

proof fn lemma_entering_phase(plan: BootPlan, step: int)
    requires
        0 <= step <= plan.steps@.len(),
    ensures
        ({
            let p = plan.entering(step).0;
            p is Checking || p is Installing || p is WritingProfile
        }),
    decreases plan.steps@.len() - step,
{
    if step < plan.steps@.len() && plan.steps@[step].skip_if is None
        && plan.steps@[step].op_count() == 0 {
        lemma_entering_phase(plan, step + 1);
    }
}

/// A saved state that is given is what the sandbox starts from, whatever there is to install and
/// whether that was done; the installed state is started from only where none is given.
pub proof fn law_saved_state_is_started_from(plan: BootPlan, other: BootPlan)
    ensures
        plan.checkpoint_from matches Some(name) ==> plan.boot_from() == Some(name@)
            && plan.first_phase() is StartingWorkspace,
        plan.checkpoint_from is None && plan.steps@.len() > 0 ==> plan.boot_from() == Some(
            plan.checkpoint_name@,
        ),
        plan.checkpoint_from is None && plan.steps@.len() == 0 ==> plan.boot_from() is None
            && plan.first_phase() is StartingWorkspace,
        plan.checkpoint_from is Some && plan.checkpoint_from == other.checkpoint_from
            ==> plan.boot_from() == other.boot_from(),
        plan.first_phase() is PreparingSandbox <==> plan.checkpoint_from is None
            && plan.steps@.len() > 0 && !plan.installed,
{
}

/// Where a start stands after some pieces of work ended, and all that was shown on the way.
pub open spec fn boot_run(plan: BootPlan, events: Seq<BootEvent>) -> (
    BootPhase,
    Seq<(usize, usize)>,
)
    decreases events.len(),
{
    if events.len() == 0 {
        (plan.first_phase(), seq![])
    } else {
        let (phase, shown) = boot_run(plan, events.drop_last());
        let (next, more) = plan.following(phase, events.last());
        (next, shown + more)
    }
}

/// The steps of a preparation after pairs of a step that is done and one that begins were shown.
pub open spec fn stepped(steps: Seq<SetupStep>, shown: Seq<(usize, usize)>) -> Seq<SetupStep>
    decreases shown.len(),
{
    if shown.len() == 0 {
        steps
    } else {
        let before = stepped(steps, shown.drop_last());
        let (done, next) = shown.last();
        session::with_status(
            session::with_status(before, done as int, StepStatus::Done),
            next as int,
            StepStatus::Active,
        )
    }
}

/// The step `at` has a status, those before it are done, and those after it wait.
pub open spec fn stands_at(steps: Seq<SetupStep>, at: int, status: StepStatus) -> bool {
    forall|i: int|
        0 <= i < steps.len() ==> (#[trigger] steps[i]).status == (if i < at {
            StepStatus::Done
        } else if i == at {
            status
        } else {
            StepStatus::Pending
        })
}

/// The step of the preparation that is under way in a phase of an installation.
spec fn step_under_way(plan: BootPlan, phase: BootPhase) -> int {
    let n = plan.steps@.len() as int;
    match phase {
        BootPhase::PreparingSandbox => 0,
        BootPhase::Checking { step } => step + 1,
        BootPhase::Installing { step, .. } => step + 1,
        BootPhase::WritingProfile => n,
        BootPhase::Saving => n + 1,
        BootPhase::Stopping => n + 1,
        _ => n + 2,
    }
}

proof fn lemma_stepped_concat(
    steps: Seq<SetupStep>,
    a: Seq<(usize, usize)>,
    b: Seq<(usize, usize)>,
)
    ensures
        stepped(steps, a + b) == stepped(stepped(steps, a), b),
    decreases b.len(),
{
    if b.len() == 0 {
        assert(a + b =~= a);
    } else {
        assert((a + b).drop_last() =~= a + b.drop_last());
        lemma_stepped_concat(steps, a, b.drop_last());
    }
}

/// One pair that is shown moves the step under way on by one.
proof fn lemma_stepped_once(steps: Seq<SetupStep>, at: int)
    requires
        0 <= at < at + 1 < steps.len(),
        at + 1 <= usize::MAX,
        stands_at(steps, at, StepStatus::Active),
    ensures
        ({
            let after = stepped(steps, seq![(at as usize, (at + 1) as usize)]);
            &&& after.len() == steps.len()
            &&& stands_at(after, at + 1, StepStatus::Active)
        }),
{
    let pair = seq![(at as usize, (at + 1) as usize)];
    assert(pair.drop_last() =~= seq![]);
    assert(stepped(steps, pair.drop_last()) == steps);
}

proof fn lemma_entering_stands(plan: BootPlan, steps: Seq<SetupStep>, step: int)
    requires
        0 <= step <= plan.steps@.len(),
        steps.len() == plan.steps@.len() + 3,
        stands_at(steps, step, StepStatus::Active),
    ensures
        ({
            let (phase, shown) = plan.entering(step);
            let after = stepped(steps, shown);
            &&& plan.fits(phase)
            &&& !(phase is Failed)
            &&& after.len() == steps.len()
            &&& stands_at(after, step_under_way(plan, phase), StepStatus::Active)
        }),
    decreases plan.steps@.len() - step,
{
    assert(plan.steps.len() == plan.steps@.len());
    if step < plan.steps@.len() {
        lemma_stepped_once(steps, step);
        if plan.steps@[step].skip_if is None && plan.steps@[step].op_count() == 0 {
            let here = seq![(step as usize, (step + 1) as usize)];
            lemma_entering_stands(plan, stepped(steps, here), step + 1);
            lemma_stepped_concat(steps, here, plan.entering(step + 1).1);
        }
    }
}

/// What is shown of an installation stands at the step that is under way, until it fails.
proof fn lemma_run_stands(plan: BootPlan, steps: Seq<SetupStep>, events: Seq<BootEvent>)
    requires
        plan.needs_install(),
        plan.steps@.len() + 2 <= usize::MAX,
        steps.len() == plan.steps@.len() + 3,
        stands_at(steps, 0, StepStatus::Active),
    ensures
        ({
            let (phase, shown) = boot_run(plan, events);
            let after = stepped(steps, shown);
            &&& plan.fits(phase)
            &&& after.len() == steps.len()
            &&& !(phase is Failed) ==> stands_at(
                after,
                step_under_way(plan, phase),
                StepStatus::Active,
            )
        }),
    decreases events.len(),
{
    if events.len() > 0 {
        let n = plan.steps@.len() as int;
        lemma_run_stands(plan, steps, events.drop_last());
        let (phase, shown) = boot_run(plan, events.drop_last());
        let (next, more) = plan.following(phase, events.last());
        let before = stepped(steps, shown);
        lemma_stepped_concat(steps, shown, more);
        match phase {
            BootPhase::PreparingSandbox => lemma_entering_stands(plan, before, 0),
            BootPhase::Checking { step } => lemma_entering_stands(plan, before, step + 1),
            BootPhase::Installing { step, .. } => {
                if let InstallWork::Group { ops } = plan.steps@[step as int].work {
                    assert(ops.len() == ops@.len());
                }
                lemma_entering_stands(plan, before, step + 1);
            },
            BootPhase::WritingProfile => lemma_stepped_once(before, n),
            BootPhase::Stopping => lemma_stepped_once(before, n + 1),
            _ => {},
        }
    }
}

/// When a piece of work of install step `k` fails, whatever came before, the preparation shows the
/// steps up to the one before it as done, that of the installation as failed, and the later ones
/// as waiting. The start has failed then and stays so, and nothing more is shown.
pub proof fn law_failed_install_is_shown(
    plan: BootPlan,
    steps: Seq<SetupStep>,
    events: Seq<BootEvent>,
    later: Seq<BootEvent>,
    k: int,
    op: usize,
)
    requires
        plan.needs_install(),
        plan.steps@.len() + 2 <= usize::MAX,
        workspace::step_views(steps) == workspace::setup_plan(true, step_labels(plan.steps@)),
        0 <= k < plan.steps@.len(),
        boot_run(plan, events).0 == (BootPhase::Installing { step: k as usize, op }),
    ensures
        ({
            let (phase, shown) = boot_run(plan, events.push(BootEvent::Failed));
            let after = session::with_status(stepped(steps, shown), k + 1, StepStatus::Failed);
            &&& phase == (BootPhase::Failed { step: (k + 1) as usize })
            &&& after.len() == plan.steps@.len() + 3
            &&& stands_at(after, k + 1, StepStatus::Failed)
            &&& boot_run(plan, events.push(BootEvent::Failed) + later) == (phase, shown)
        }),
    decreases later.len(),
{
    let ended = events.push(BootEvent::Failed);
    assert(ended.drop_last() =~= events);
    let views = workspace::step_views(steps);
    assert(views.len() == plan.steps@.len() + 3);
    assert forall|i: int| 0 <= i < steps.len() implies (#[trigger] steps[i]).status == (if i == 0 {
        StepStatus::Active
    } else {
        StepStatus::Pending
    }) by {
        assert(views[i].1 == steps[i].status);
    }
    lemma_run_stands(plan, steps, events);
    assert(boot_run(plan, events).1 + Seq::<(usize, usize)>::empty() =~= boot_run(plan, events).1);
    if later.len() == 0 {
        assert(ended + later =~= ended);
    } else {
        law_failed_install_is_shown(plan, steps, events, later.drop_last(), k, op);
        assert((ended + later).drop_last() =~= ended + later.drop_last());
        let shown = boot_run(plan, ended).1;
        assert(shown + Seq::<(usize, usize)>::empty() =~= shown);
    }
}

/// The steps that are shown stand in the preparation under the labels of what is done: step
/// `i` of the installation at `i + 1`, the saving after the last, and then the workspace.
pub proof fn law_shown_steps_are_labelled(labels: Seq<Seq<char>>, i: int)
    ensures
        ({
            let plan = workspace::setup_plan(true, labels);
            let n = labels.len() as int;
            &&& plan.len() == n + 3
            &&& plan[0].0 == "Preparing sandbox"@
            &&& 0 <= i < n ==> plan[i + 1].0 == labels[i]
            &&& plan[n + 1].0 == "Saving for next time"@
            &&& plan[n + 2].0 == "Starting workspace"@
        }),
{
}

/// How a command in the sandbox ended.
#[derive(Debug)]
pub struct ExecResult {
    pub exit_code: i32,
    pub stdout: String,
    pub stderr: String,
}

/// Why a command failed, where it did: its exit code with its output, or why it did not run.
pub open spec fn exec_error(result: Result<ExecResult, String>) -> Option<Seq<char>> {
    match result {
        Ok(r) => if r.exit_code != 0 {
            Some(
                "exit code "@ + text::signed_decimal(r.exit_code as int) + " \u{2014} "@ + r.stdout@
                    + r.stderr@,
            )
        } else {
            None
        },
        Err(e) => Some(e@),
    }
}

/// Why a command failed, where it did.
pub fn exec_failure(result: Result<ExecResult, String>) -> (r: Option<String>)
    ensures
        workspace::opt(r) == exec_error(result),
{
    match result {
        Ok(r) => if r.exit_code != 0 {
            let mut s = "exit code ".to_owned();
            s.append(text::signed_decimal_text(r.exit_code as i64).as_str());
            s.append(" \u{2014} ");
            s.append(r.stdout.as_str());
            s.append(r.stderr.as_str());
            Some(s)
        } else {
            None
        },
        Err(e) => Some(e),
    }
}

/// Whether a check says that a step is not needed: it ran and its exit code is 0.
pub fn check_event(exit_code: Option<i32>) -> (e: BootEvent)
    ensures
        e == (if exit_code == Some(0i32) {
            BootEvent::Done
        } else {
            BootEvent::Failed
        }),
{
    match exit_code {
        Some(code) => if code == 0 {
            BootEvent::Done
        } else {
            BootEvent::Failed
        },
        None => BootEvent::Failed,
    }
}

/// The label of a download under way, in whole megabytes.
pub open spec fn progress_text(base: Seq<char>, done: u64, total: Option<u64>) -> Seq<char> {
    let mb = text::decimal((done / 1048576) as nat);
    match total {
        Some(t) => base + " ("@ + mb + "/"@ + text::decimal((t / 1048576) as nat) + " MB)"@,
        None => base + " ("@ + mb + " MB)"@,
    }
}

/// The label of a download under way.
pub fn progress_label(base: &str, done: u64, total: Option<u64>) -> (s: String)
    ensures
        s@ == progress_text(base@, done, total),
{
    let mut s = base.to_owned();
    s.append(" (");
    text::push_decimal(&mut s, done / 1048576);
    if let Some(t) = total {
        s.append("/");
        text::push_decimal(&mut s, t / 1048576);
    }
    s.append(" MB)");
    s
}

/// What is said of a download whose sandbox went silent, by itself or as part of a group.
pub fn download_lost(in_group: bool) -> (s: &'static str)
    ensures
        s@ == (if in_group {
            "closed"@
        } else {
            "download channel closed"@
        }),
{
    if in_group {
        "closed"
    } else {
        "download channel closed"
    }
}

/// The memory and disk of the sandbox for an installation, in megabytes.
pub fn install_resources(memory_mb: Option<u64>, disk_mb: Option<u64>) -> (r: (u64, u64))
    ensures
        r.0 == (match memory_mb {
            Some(m) => m,
            None => 8192,
        }),
        r.1 == (match disk_mb {
            Some(d) => d,
            None => 16384,
        }),
{
    (
        match memory_mb {
            Some(m) => m,
            None => 8192,
        },
        match disk_mb {
            Some(d) => d,
            None => 16384,
        },
    )
}

/// The profile that makes login shells read what installers wrote.
pub fn login_profile() -> (s: &'static str)
    ensures
        s@ == "[ -f ~/.bashrc ] && . ~/.bashrc\n"@,
{
    "[ -f ~/.bashrc ] && . ~/.bashrc\n"
}

/// A variable of an environment.
#[derive(Debug)]
pub struct EnvVar {
    pub name: String,
    pub value: String,
}

/// The names and values of variables.
pub open spec fn env_views(vars: Seq<EnvVar>) -> Seq<(Seq<char>, Seq<char>)> {
    vars.map_values(|v: EnvVar| (v.name@, v.value@))
}

/// The address of the gateway inside the sandbox.
pub open spec fn gateway_url(port: u16) -> Seq<char> {
    "http://host.shuru.internal:"@ + text::decimal(port as nat) + "/v1"@
}

/// The variables that tell an agent of its gateway. The token stub is for OAuth alone.
pub open spec fn gateway_vars(
    base_url_env: Option<Seq<char>>,
    port: u16,
    auth_method: Seq<char>,
    stub: Option<Seq<char>>,
) -> Seq<(Seq<char>, Seq<char>)> {
    let first = match base_url_env {
        Some(name) => seq![(name, gateway_url(port))],
        None => seq![],
    };
    let last = match stub {
        Some(token) if auth_method == "oauth"@ => seq![("_GATEWAY_STUB_JWT"@, token)],
        _ => seq![],
    };
    first + seq![
        ("_GATEWAY_BASE_URL"@, gateway_url(port)),
        ("_GATEWAY_AUTH_METHOD"@, auth_method),
    ] + last
}

fn push_var(vars: &mut Vec<EnvVar>, name: &str, value: &str)
    ensures
        env_views(final(vars)@) == env_views(old(vars)@).push((name@, value@)),
{
    let ghost before = env_views(vars@);
    vars.push(EnvVar { name: name.to_owned(), value: value.to_owned() });
    assert(env_views(vars@) =~= before.push((name@, value@)));
}

/// The variables that tell an agent of its gateway. Where a name stands twice the later one
/// counts.
pub fn gateway_env(
    base_url_env: &Option<String>,
    port: u16,
    auth_method: &str,
    stub: &Option<String>,
) -> (vars: Vec<EnvVar>)
    ensures
        env_views(vars@) == gateway_vars(
            workspace::opt(*base_url_env),
            port,
            auth_method@,
            workspace::opt(*stub),
        ),
{
    let mut url = "http://host.shuru.internal:".to_owned();
    text::push_decimal(&mut url, port as u64);
    url.append("/v1");
    let mut vars: Vec<EnvVar> = Vec::new();
    assert(env_views(vars@) =~= seq![]);
    if let Some(name) = base_url_env {
        push_var(&mut vars, name.as_str(), url.as_str());
    }
    push_var(&mut vars, "_GATEWAY_BASE_URL", url.as_str());
    push_var(&mut vars, "_GATEWAY_AUTH_METHOD", auth_method);
    if text::same_text(auth_method, "oauth") {
        if let Some(token) = stub {
            push_var(&mut vars, "_GATEWAY_STUB_JWT", token.as_str());
        }
    }
    assert(env_views(vars@) =~= gateway_vars(
        workspace::opt(*base_url_env),
        port,
        auth_method@,
        workspace::opt(*stub),
    ));
    vars
}

/// The colours that a terminal is told of: light on dark, or dark on light.
pub fn color_hint(dark: bool) -> (s: &'static str)
    ensures
        s@ == (if dark {
            "15;0"@
        } else {
            "0;15"@
        }),
{
    if dark {
        "15;0"
    } else {
        "0;15"
    }
}

/// The environment of a shell in a sandbox.
pub fn shell_env(dark: bool) -> (vars: Vec<EnvVar>)
    ensures
        env_views(vars@) == seq![
            ("TERM"@, "xterm-256color"@),
            ("COLORTERM"@, "truecolor"@),
            (
                "COLORFGBG"@,
                if dark {
                    "15;0"@
                } else {
                    "0;15"@
                },
            ),
            (
                "PROMPT_COMMAND"@,
                "printf \"\\033]0;%s@%s:%s\\007\" \"${USER}\" \"${HOSTNAME%%.*}\" \"${PWD/#$HOME/~}\""@,
            ),
        ],
{
    let mut vars: Vec<EnvVar> = Vec::new();
    push_var(&mut vars, "TERM", "xterm-256color");
    push_var(&mut vars, "COLORTERM", "truecolor");
    push_var(&mut vars, "COLORFGBG", color_hint(dark));
    push_var(
        &mut vars,
        "PROMPT_COMMAND",
        "printf \"\\033]0;%s@%s:%s\\007\" \"${USER}\" \"${HOSTNAME%%.*}\" \"${PWD/#$HOME/~}\"",
    );
    assert(env_views(vars@).len() == 4);
    vars
}

/// A shell to be opened in the sandbox of an agent.
#[derive(Debug)]
pub struct ShellRequest {
    pub ws_id: i64,
    pub tab_id: u64,
    pub parent_agent_tab_id: u64,
    pub sandbox: usize,
    pub label: String,
}

/// A tab that only holds a terminal.
pub open spec fn is_plain_tab(
    tab: TerminalTab,
    tab_id: u64,
    label: Seq<char>,
    terminal: u64,
    color: Option<Color>,
    kind: TabKind,
) -> bool {
    &&& tab.tab_id == tab_id
    &&& tab.label@ == label
    &&& tab.terminal == Some(terminal)
    &&& tab.setup_steps is None
    &&& tab.setup_error is None
    &&& tab.agent_color == color
    &&& workspace::opt(tab.icon_path) == Some("icons/terminal.svg"@)
    &&& tab.kind == kind
    &&& tab.agent_status is Unknown
    &&& !tab.event_service
    &&& !tab.checkpointing
    &&& tab.checkpoint_name is None
    &&& tab.tab_db_id is None
}

fn plain_tab(
    tab_id: u64,
    label: String,
    terminal: u64,
    color: Option<Color>,
    kind: TabKind,
) -> (tab: TerminalTab)
    ensures
        is_plain_tab(tab, tab_id, label@, terminal, color, kind),
{
    TerminalTab {
        tab_id,
        label,
        terminal: Some(terminal),
        setup_steps: None,
        setup_error: None,
        agent_color: color,
        icon_path: Some("icons/terminal.svg".to_owned()),
        kind,
        agent_status: AgentStatus::Unknown,
        event_service: false,
        checkpointing: false,
        checkpoint_name: None,
        tab_db_id: None,
    }
}

/// `after` is the panel `before` with a tab at the end of a session and in front of it. A session
/// that is not there is passed over.
pub open spec fn tab_added(
    after: TerminalPanel,
    before: TerminalPanel,
    ws_id: i64,
    tab: TerminalTab,
) -> bool {
    &&& after.only_session_changed(before, ws_id)
    &&& before.sessions@.contains_key(ws_id) ==> {
        let b = before.sessions@[ws_id];
        let a = after.sessions@[ws_id];
        &&& a.same_workspace(b)
        &&& a.tabs@ == b.tabs@.push(tab)
        &&& a.active_tab == b.tabs@.len()
    }
}

/// What a terminal that is up changes in its tab.
pub open spec fn attached(
    tab: TerminalTab,
    terminal: u64,
    sandbox: usize,
    gateway: bool,
    events: bool,
) -> TerminalTab {
    TerminalTab {
        terminal: Some(terminal),
        kind: match tab.kind {
            TabKind::Agent { agent_id, agent_name, .. } => TabKind::Agent {
                agent_id,
                agent_name,
                sandbox: Some(sandbox),
                auth_gateway: gateway,
            },
            other => other,
        },
        event_service: tab.event_service || events,
        ..tab
    }
}

impl TerminalPanel {
    /// Asks for a shell in the sandbox of an agent of the active workspace. There is none unless
    /// that sandbox is up.
    pub fn open_shell_tab(&mut self, parent_agent_tab_id: u64) -> (r: Option<ShellRequest>)
        requires
            old(self).wf(),
            old(self).next_tab_id < u64::MAX,
        ensures
            final(self).wf(),
            ({
                let parent = match old(self).active_workspace_id {
                    Some(ws) => lifecycle::tab_in(*old(self), ws, parent_agent_tab_id),
                    None => None,
                };
                match r {
                    Some(request) => {
                        &&& parent matches Some(tab) && (tab.kind matches TabKind::Agent {
                            sandbox: Some(sb),
                            ..
                        } && request.sandbox == sb) && request.label@ == tab.label@
                            + " guest shell"@
                        &&& Some(request.ws_id) == old(self).active_workspace_id
                        &&& request.tab_id == old(self).next_tab_id
                        &&& request.parent_agent_tab_id == parent_agent_tab_id
                        &&& *final(self) == (TerminalPanel {
                            next_tab_id: (old(self).next_tab_id + 1) as u64,
                            ..*old(self)
                        })
                    },
                    None => *final(self) == *old(self) && (parent matches Some(tab)
                        ==> !tab.kind.is_ready_agent()),
                }
            }),
    {
        let ws_id: i64 = match self.active_workspace_id {
            Some(id) => id,
            None => return None,
        };
        let mut found: Option<(usize, String)> = None;
        if let Some(s) = self.sessions.get(&ws_id) {
            if let Some(tab) = s.find_tab(parent_agent_tab_id) {
                if let TabKind::Agent { sandbox: Some(sb), .. } = &tab.kind {
                    let mut label = tab.label.clone();
                    label.append(" guest shell");
                    found = Some((*sb, label));
                }
            }
        }
        match found {
            Some((sandbox, label)) => {
                let tab_id: u64 = self.next_tab_id;
                self.next_tab_id = tab_id + 1;
                Some(ShellRequest { ws_id, tab_id, parent_agent_tab_id, sandbox, label })
            },
            None => None,
        }
    }

    fn add_tab_to(&mut self, ws_id: i64, tab: TerminalTab)
        requires
            old(self).wf(),
            tab.tab_id < old(self).next_tab_id,
            old(self).sessions@.contains_key(ws_id) ==> session::tab_of(
                old(self).sessions@[ws_id].tabs@,
                tab.tab_id,
            ) is None,
        ensures
            final(self).wf(),
            tab_added(*final(self), *old(self), ws_id, tab),
    {
        if let Some(mut s) = self.sessions.remove(&ws_id) {
            proof {
                assert(old(self).sessions@.contains_key(ws_id));
                session::lemma_tab_place(s.tabs@, tab.tab_id);
            }
            let _event = s.add_tab(tab);
            self.sessions.insert(ws_id, s);
            assert(self.sessions@.dom() =~= old(self).sessions@.dom());
        } else {
            assert(self.sessions@ =~= old(self).sessions@);
        }
    }

    /// A shell that was asked for is open: its tab comes to the front.
    pub fn shell_opened(&mut self, request: ShellRequest, terminal: u64)
        requires
            old(self).wf(),
            request.tab_id < old(self).next_tab_id,
            lifecycle::tab_in(*old(self), request.ws_id, request.tab_id) is None,
        ensures
            final(self).wf(),
            exists|tab: TerminalTab| #[trigger]
                is_plain_tab(
                    tab,
                    request.tab_id,
                    request.label@,
                    terminal,
                    None,
                    (TabKind::Shell {
                        parent_agent_tab_id: request.parent_agent_tab_id,
                        sandbox: request.sandbox,
                    }),
                ) && tab_added(*final(self), *old(self), request.ws_id, tab),
    {
        let tab = plain_tab(
            request.tab_id,
            request.label,
            terminal,
            None,
            TabKind::Shell {
                parent_agent_tab_id: request.parent_agent_tab_id,
                sandbox: request.sandbox,
            },
        );
        self.add_tab_to(request.ws_id, tab);
    }

    /// Asks for a shell on the host in the active workspace: its tab id and the directory it
    /// starts in.
    pub fn open_host_shell_tab(&mut self) -> (r: Option<(i64, u64, Option<String>)>)
        requires
            old(self).wf(),
            old(self).next_tab_id < u64::MAX,
        ensures
            final(self).wf(),
            match r {
                Some((ws, tab_id, dir)) => {
                    &&& old(self).active_workspace_id == Some(ws)
                    &&& tab_id == old(self).next_tab_id
                    &&& dir == (if old(self).sessions@.contains_key(ws) {
                        old(self).sessions@[ws].mount_path
                    } else {
                        None
                    })
                    &&& *final(self) == (TerminalPanel {
                        next_tab_id: (tab_id + 1) as u64,
                        ..*old(self)
                    })
                },
                None => old(self).active_workspace_id is None && *final(self) == *old(self),
            },
    {
        let ws_id: i64 = match self.active_workspace_id {
            Some(id) => id,
            None => return None,
        };
        let tab_id: u64 = self.next_tab_id;
        self.next_tab_id = tab_id + 1;
        let dir = match self.sessions.get(&ws_id) {
            Some(s) => text::copy_optional(&s.mount_path),
            None => None,
        };
        Some((ws_id, tab_id, dir))
    }

    /// A shell on the host is open: its tab comes to the front.
    pub fn host_shell_opened(&mut self, ws_id: i64, tab_id: u64, terminal: u64, color: Color)
        requires
            old(self).wf(),
            tab_id < old(self).next_tab_id,
            lifecycle::tab_in(*old(self), ws_id, tab_id) is None,
        ensures
            final(self).wf(),
            exists|tab: TerminalTab| #[trigger]
                is_plain_tab(
                    tab,
                    tab_id,
                    "Host shell"@,
                    terminal,
                    Some(color),
                    TabKind::HostShell,
                ) && tab_added(*final(self), *old(self), ws_id, tab),
    {
        let tab = plain_tab(
            tab_id,
            "Host shell".to_owned(),
            terminal,
            Some(color),
            TabKind::HostShell,
        );
        self.add_tab_to(ws_id, tab);
    }

    /// An agent's terminal is open: its tab holds it, with its sandbox.
    pub fn terminal_attached(
        &mut self,
        ws_id: i64,
        tab_id: u64,
        terminal: u64,
        sandbox: usize,
        gateway: bool,
        events: bool,
    )
        requires
            old(self).wf(),
        ensures
            final(self).wf(),
            match lifecycle::tab_in(*old(self), ws_id, tab_id) {
                Some(tab) => lifecycle::tab_replaced(
                    *final(self),
                    *old(self),
                    ws_id,
                    tab_id,
                    attached(tab, terminal, sandbox, gateway, events),
                ),
                None => final(self).only_session_changed(*old(self), ws_id) && final(
                    self).sessions@ == old(self).sessions@,
            },
    {
        if let Some(mut s) = self.sessions.remove(&ws_id) {
            let ghost before = s;
            proof {
                assert(old(self).sessions@.contains_key(ws_id));
            }
            if let Some(i) = s.position(tab_id) {
                s.tabs[i].terminal = Some(terminal);
                if let TabKind::Agent { sandbox: sb, auth_gateway, .. } = &mut s.tabs[i].kind {
                    *sb = Some(sandbox);
                    *auth_gateway = gateway;
                }
                if events {
                    s.tabs[i].event_service = true;
                }
            }
            proof {
                lifecycle::lemma_same_ids(before.tabs@, s.tabs@, self.next_tab_id);
            }
            self.sessions.insert(ws_id, s);
            assert(self.sessions@.dom() =~= old(self).sessions@.dom());
            assert(lifecycle::tab_in(*old(self), ws_id, tab_id) is None ==> self.sessions@
                =~= old(self).sessions@);
        } else {
            assert(self.sessions@ =~= old(self).sessions@);
        }
    }

    /// An agent tells what it is doing.
    pub fn set_agent_status(&mut self, ws_id: i64, tab_id: u64, status: AgentStatus)
        requires
            old(self).wf(),
        ensures
            final(self).wf(),
            match lifecycle::tab_in(*old(self), ws_id, tab_id) {
                Some(tab) => lifecycle::tab_replaced(
                    *final(self),
                    *old(self),
                    ws_id,
                    tab_id,
                    (TerminalTab { agent_status: status, ..tab }),
                ),
                None => final(self).only_session_changed(*old(self), ws_id) && final(
                    self).sessions@ == old(self).sessions@,
            },
    {
        if let Some(mut s) = self.sessions.remove(&ws_id) {
            let ghost before = s;
            proof {
                assert(old(self).sessions@.contains_key(ws_id));
            }
            if let Some(i) = s.position(tab_id) {
                s.tabs[i].agent_status = status;
            }
            proof {
                lifecycle::lemma_same_ids(before.tabs@, s.tabs@, self.next_tab_id);
            }
            self.sessions.insert(ws_id, s);
            assert(self.sessions@.dom() =~= old(self).sessions@.dom());
            assert(lifecycle::tab_in(*old(self), ws_id, tab_id) is None ==> self.sessions@
                =~= old(self).sessions@);
        } else {
            assert(self.sessions@ =~= old(self).sessions@);
        }
    }

    /// The preparation of a tab is over. Returns the terminal that gets the focus, which it does
    /// where its tab is in front.
    pub fn setup_finished(&mut self, ws_id: i64, tab_id: u64) -> (focus: Option<u64>)
        requires
            old(self).wf(),
        ensures
            final(self).wf(),
            match lifecycle::tab_in(*old(self), ws_id, tab_id) {
                Some(tab) => lifecycle::tab_replaced(
                    *final(self),
                    *old(self),
                    ws_id,
                    tab_id,
                    (TerminalTab { setup_steps: None, setup_error: None, ..tab }),
                ),
                None => final(self).only_session_changed(*old(self), ws_id) && final(
                    self).sessions@ == old(self).sessions@,
            },
            focus == (if old(self).sessions@.contains_key(ws_id) {
                let s = old(self).sessions@[ws_id];
                if s.active_tab < s.tabs@.len() && s.tabs@[s.active_tab as int].tab_id == tab_id {
                    s.tabs@[s.active_tab as int].terminal
                } else {
                    None
                }
            } else {
                None
            }),
    {
        let mut focus: Option<u64> = None;
        if let Some(mut s) = self.sessions.remove(&ws_id) {
            let ghost before = s;
            proof {
                assert(old(self).sessions@.contains_key(ws_id));
            }
            if let Some(i) = s.position(tab_id) {
                s.tabs[i].setup_steps = None;
                s.tabs[i].setup_error = None;
            }
            if let Some(tab) = s.active_tab_ref() {
                if tab.tab_id == tab_id {
                    focus = tab.terminal;
                }
            }
            proof {
                lifecycle::lemma_same_ids(before.tabs@, s.tabs@, self.next_tab_id);
            }
            self.sessions.insert(ws_id, s);
            assert(self.sessions@.dom() =~= old(self).sessions@.dom());
            assert(lifecycle::tab_in(*old(self), ws_id, tab_id) is None ==> self.sessions@
                =~= old(self).sessions@);
        } else {
            assert(self.sessions@ =~= old(self).sessions@);
        }
        focus
    }

    /// Shows how far the preparation of a tab is: each pair is a step that is done and the one
    /// that begins.
    pub fn advance_step(&mut self, ws_id: i64, tab_id: u64, done_idx: usize, next_idx: usize)
        requires
            old(self).wf(),
        ensures
            final(self).wf(),
            final(self).only_session_changed(*old(self), ws_id),
            old(self).sessions@.contains_key(ws_id) ==> exists|mid: WorkspaceSession| #[trigger]
                mid.step_set(
                    old(self).sessions@[ws_id],
                    tab_id,
                    done_idx,
                    StepStatus::Done,
                ) && final(self).sessions@[ws_id].step_set(
                    mid,
                    tab_id,
                    next_idx,
                    StepStatus::Active,
                ),
    {
        if let Some(mut s) = self.sessions.remove(&ws_id) {
            let ghost before = s;
            proof {
                assert(old(self).sessions@.contains_key(ws_id));
            }
            s.advance_step(tab_id, done_idx, next_idx);
            proof {
                let mid = choose|mid: WorkspaceSession| #[trigger]
                    mid.step_set(before, tab_id, done_idx, StepStatus::Done) && s.step_set(
                        mid,
                        tab_id,
                        next_idx,
                        StepStatus::Active,
                    );
                lemma_step_set_ids(mid, before, tab_id, done_idx, StepStatus::Done);
                lemma_step_set_ids(s, mid, tab_id, next_idx, StepStatus::Active);
                lifecycle::lemma_same_ids(before.tabs@, s.tabs@, self.next_tab_id);
            }
            self.sessions.insert(ws_id, s);
            assert(self.sessions@.dom() =~= old(self).sessions@.dom());
        } else {
            assert(self.sessions@ =~= old(self).sessions@);
        }
    }

    /// A step of the preparation of a tab failed. Where its output was saved, the message says
    /// where.
    pub fn fail_setup(
        &mut self,
        ws_id: i64,
        tab_id: u64,
        step_idx: usize,
        error: String,
        log_path: Option<String>,
    )
        requires
            old(self).wf(),
        ensures
            final(self).wf(),
            final(self).only_session_changed(*old(self), ws_id),
            old(self).sessions@.contains_key(ws_id) ==> {
                let before = old(self).sessions@[ws_id];
                let after = final(self).sessions@[ws_id];
                let i = session::tab_place(before.tabs@, tab_id);
                exists|mid: WorkspaceSession| #[trigger]
                    mid.step_set(before, tab_id, step_idx, StepStatus::Failed)
                        && after.only_tab_changed(mid, i) && (i < mid.tabs@.len() ==> {
                        &&& after.tabs@[i] == (TerminalTab {
                            setup_error: after.tabs@[i].setup_error,
                            ..mid.tabs@[i]
                        })
                        &&& workspace::opt(after.tabs@[i].setup_error) == Some(
                            failure_text(error@, workspace::opt(log_path)),
                        )
                    })
            },
    {
        let mut message = error;
        if let Some(path) = log_path {
            message.append(" \u{2014} logs saved to ");
            message.append(path.as_str());
        }
        if let Some(mut s) = self.sessions.remove(&ws_id) {
            let ghost before = s;
            proof {
                assert(old(self).sessions@.contains_key(ws_id));
            }
            s.fail_setup(tab_id, step_idx, message);
            proof {
                let i = session::tab_place(before.tabs@, tab_id);
                let mid = choose|mid: WorkspaceSession| #[trigger]
                    mid.step_set(before, tab_id, step_idx, StepStatus::Failed)
                        && s.only_tab_changed(mid, i) && (i < mid.tabs@.len() ==> s.tabs@[i] == (
                    TerminalTab { setup_error: Some(message), ..mid.tabs@[i] }));
                lemma_step_set_ids(mid, before, tab_id, step_idx, StepStatus::Failed);
                assert forall|j: int| 0 <= j < before.tabs@.len() implies (
                #[trigger] s.tabs@[j]).tab_id == before.tabs@[j].tab_id by {
                    assert(mid.tabs@[j].tab_id == before.tabs@[j].tab_id);
                    if j != i {
                        assert(s.tabs@[j] == mid.tabs@[j]);
                    }
                }
                lifecycle::lemma_same_ids(before.tabs@, s.tabs@, self.next_tab_id);
            }
            self.sessions.insert(ws_id, s);
            assert(self.sessions@.dom() =~= old(self).sessions@.dom());
        } else {
            assert(self.sessions@ =~= old(self).sessions@);
        }
    }

    /// The label of a step of the preparation of a tab changes.
    pub fn update_step_label(&mut self, ws_id: i64, tab_id: u64, step_idx: usize, label: String)
        requires
            old(self).wf(),
        ensures
            final(self).wf(),
            final(self).only_session_changed(*old(self), ws_id),
            old(self).sessions@.contains_key(ws_id) ==> final(self).sessions@[ws_id].label_set(
                old(self).sessions@[ws_id],
                tab_id,
                step_idx,
                label,
            ),
    {
        if let Some(mut s) = self.sessions.remove(&ws_id) {
            let ghost before = s;
            proof {
                assert(old(self).sessions@.contains_key(ws_id));
                session::lemma_tab_place(before.tabs@, tab_id);
            }
            s.update_step_label(tab_id, step_idx, label);
            proof {
                let i = session::tab_place(before.tabs@, tab_id);
                assert forall|j: int| 0 <= j < before.tabs@.len() implies (
                #[trigger] s.tabs@[j]).tab_id == before.tabs@[j].tab_id by {
                    if j != i {
                        assert(s.tabs@[j] == before.tabs@[j]);
                    }
                }
                lifecycle::lemma_same_ids(before.tabs@, s.tabs@, self.next_tab_id);
            }
            self.sessions.insert(ws_id, s);
            assert(self.sessions@.dom() =~= old(self).sessions@.dom());
        } else {
            assert(self.sessions@ =~= old(self).sessions@);
        }
    }
}

proof fn lemma_step_set_ids(
    after: WorkspaceSession,
    before: WorkspaceSession,
    tab_id: u64,
    idx: usize,
    status: StepStatus,
)
    requires
        after.step_set(before, tab_id, idx, status),
    ensures
        after.tabs@.len() == before.tabs@.len(),
        forall|j: int|
            0 <= j < before.tabs@.len() ==> (#[trigger] after.tabs@[j]).tab_id
                == before.tabs@[j].tab_id,
{
    let i = session::tab_place(before.tabs@, tab_id);
    assert forall|j: int| 0 <= j < before.tabs@.len() implies (#[trigger] after.tabs@[j]).tab_id
        == before.tabs@[j].tab_id by {
        if j != i {
            assert(after.tabs@[j] == before.tabs@[j]);
        }
    }
}

/// A failure in words, with the file that its output was saved to.
pub open spec fn failure_text(error: Seq<char>, log_path: Option<Seq<char>>) -> Seq<char> {
    match log_path {
        Some(path) => error + " \u{2014} logs saved to "@ + path,
        None => error,
    }
}

/// Whether output is worth saving: it is not blank.
pub fn is_worth_saving(logs: &str) -> (r: bool)
    ensures
        r == (text::trimmed(logs@).len() > 0),
{
    text::to_chars(text::trim(logs).as_str()).len() > 0
}

/// The file that the output of a failed preparation is saved to.
pub fn log_path(home: &str, tab_id: u64, seconds: u64) -> (s: String)
    ensures
        s@ == home@ + "/.local/share/superhq/logs/setup-"@ + text::decimal(tab_id as nat) + "-"@
            + text::decimal(seconds as nat) + ".log"@,
{
    let mut s = home.to_owned();
    s.append("/.local/share/superhq/logs/setup-");
    text::push_decimal(&mut s, tab_id);
    s.append("-");
    text::push_decimal(&mut s, seconds);
    s.append(".log");
    s
}

/// The words of an agent's command.
pub fn agent_argv(command: &str) -> (argv: Vec<String>)
    ensures
        text::views(argv@) == text::fields(command@, |c: char| text::is_space(c)),
{
    text::words(command)
}

/// What a look at the terminal means for the wait: it is over once the agent draws or the time is
/// up.
pub fn screen_event(drawing: bool, elapsed_ms: u64) -> (e: BootEvent)
    ensures
        e == (if drawing || elapsed_ms >= 10000 {
            BootEvent::Done
        } else {
            BootEvent::Failed
        }),
{
    if drawing || elapsed_ms >= 10000 {
        BootEvent::Done
    } else {
        BootEvent::Failed
    }
}

/// A step that has a check or any work is never passed over: what follows the steps before it does
/// not lie behind it. A step with a check is checked before anything is done of it.
pub proof fn law_no_step_is_passed_over(plan: BootPlan, step: int, k: int)
    requires
        0 <= step <= k < plan.steps@.len(),
        plan.steps@.len() <= usize::MAX,
        plan.steps@[k].skip_if is Some || plan.steps@[k].op_count() > 0,
    ensures
        match plan.entering(step).0 {
            BootPhase::Checking { step: at } => step <= at <= k && plan.steps@[at as int].skip_if
                is Some,
            BootPhase::Installing { step: at, op } => step <= at <= k && op == 0
                && plan.steps@[at as int].skip_if is None,
            _ => false,
        },
    decreases k - step,
{
    if plan.steps@[step].skip_if is None && plan.steps@[step].op_count() == 0 {
        law_no_step_is_passed_over(plan, step + 1, k);
    }
}

/// A check that holds leaves the work of its step undone; one that fails has it done from the first
/// piece on. Done pieces of a step are followed by the next one, and the last by a later step.
pub proof fn law_checked_work(plan: BootPlan, step: usize, op: usize)
    requires
        step < plan.steps@.len(),
        plan.steps@.len() + 2 <= usize::MAX,
        op < plan.steps@[step as int].op_count(),
    ensures
        plan.following(BootPhase::Checking { step }, BootEvent::Failed).0 == (
        BootPhase::Installing { step, op: 0 }),
        !(plan.following(BootPhase::Checking { step }, BootEvent::Done).0 matches
            BootPhase::Installing { step: at, .. } && at <= step),
        op + 1 < plan.steps@[step as int].op_count() ==> plan.following(
            BootPhase::Installing { step, op },
            BootEvent::Done,
        ).0 == (BootPhase::Installing { step, op: (op + 1) as usize }),
        op + 1 == plan.steps@[step as int].op_count() ==> plan.following(
            BootPhase::Installing { step, op },
            BootEvent::Done,
        ) == plan.following(BootPhase::Checking { step }, BootEvent::Done),
        plan.following(BootPhase::Installing { step, op }, BootEvent::Failed).0 is Failed,
{
    lemma_entering(plan, step + 1);
}

/// A start fails only by a failure, and not by every one: a profile that is not written, a state
/// that is not saved and a sandbox that does not stop are passed over, and so is a screen that is
/// not there yet. What the other phases fail at ends the start.
pub proof fn law_what_ends_a_start(plan: BootPlan, phase: BootPhase)
    requires
        plan.fits(phase),
        plan.steps@.len() + 2 <= usize::MAX,
    ensures
        plan.following(phase, BootEvent::Done).0 is Failed ==> phase is Failed,
        phase is WritingProfile || phase is Saving || phase is Stopping ==> plan.following(
            phase,
            BootEvent::Failed,
        ) == plan.following(phase, BootEvent::Done),
        phase is PreparingSandbox || phase is Installing || phase is StartingWorkspace
            || phase is OpeningShell <==> plan.following(phase, BootEvent::Failed).0 is Failed && !(
        phase is Failed),
        phase is StartingWorkspace ==> plan.following(phase, BootEvent::Done).0 is OpeningShell,
        phase is OpeningShell ==> plan.following(phase, BootEvent::Done).0 is WaitingForScreen,
        phase is WaitingForScreen ==> plan.following(phase, BootEvent::Done).0 is Up
            && plan.following(phase, BootEvent::Failed).0 is WaitingForScreen,
        phase is WritingProfile ==> plan.following(phase, BootEvent::Done).0 is Saving,
        phase is Saving ==> plan.following(phase, BootEvent::Done).0 is Stopping,
        phase is Stopping ==> plan.following(phase, BootEvent::Done).0 is StartingWorkspace,
{
    lemma_entering_phase(plan, 0);
    match phase {
        BootPhase::Checking { step } => lemma_entering_phase(plan, step + 1),
        BootPhase::Installing { step, .. } => lemma_entering_phase(plan, step + 1),
        _ => {},
    }
}

/// A command failed exactly when it did not run or its exit code is not 0, and what is said then
/// holds all that it wrote.
pub proof fn law_failed_command(result: Result<ExecResult, String>)
    ensures
        exec_error(result) is None <==> (result is Ok && result->Ok_0.exit_code == 0),
        result matches Err(e) ==> exec_error(result) == Some(e@),
        result matches Ok(r) ==> (r.exit_code != 0 ==> (r.stdout@ + r.stderr@).is_suffix_of(
            exec_error(result)->0,
        )),
{
    if let Ok(r) = result {
        if r.exit_code != 0 {
            let head = "exit code "@ + text::signed_decimal(r.exit_code as int) + " \u{2014} "@;
            let all = exec_error(result)->0;
            assert(all =~= head + (r.stdout@ + r.stderr@));
            assert((head + (r.stdout@ + r.stderr@)).subrange(
                head.len() as int,
                all.len() as int,
            ) =~= r.stdout@ + r.stderr@);
        }
    }
}

/// The stub of a token is handed to an agent only for OAuth, and then it is; whatever the method,
/// the agent is told of it and of the address of its gateway, the same under each name.
pub proof fn law_gateway_variables(
    base_url_env: Option<Seq<char>>,
    port: u16,
    auth_method: Seq<char>,
    stub: Option<Seq<char>>,
)
    ensures
        ({
            let vars = gateway_vars(base_url_env, port, auth_method, stub);
            let own: int = if base_url_env is Some {
                1
            } else {
                0
            };
            &&& vars.len() == own + 2 + (if stub is Some && auth_method == "oauth"@ {
                1int
            } else {
                0
            })
            &&& base_url_env is Some ==> vars[0] == (base_url_env->0, vars[1].1)
            &&& vars[own].0 == "_GATEWAY_BASE_URL"@
            &&& vars[own + 1] == ("_GATEWAY_AUTH_METHOD"@, auth_method)
            &&& stub is Some && auth_method == "oauth"@ ==> vars.last() == (
                "_GATEWAY_STUB_JWT"@,
                stub->0,
            )
        }),
{
}

/// An agent whose terminal is open has that terminal and that sandbox; who it is stays, and a
/// service that told of it before goes on.
pub proof fn law_terminal_is_attached(
    tab: TerminalTab,
    terminal: u64,
    sandbox: usize,
    gateway: bool,
    events: bool,
)
    ensures
        ({
            let after = attached(tab, terminal, sandbox, gateway, events);
            &&& after.terminal == Some(terminal)
            &&& after.tab_id == tab.tab_id
            &&& after.label == tab.label
            &&& after.setup_steps == tab.setup_steps
            &&& after.agent_status == tab.agent_status
            &&& events ==> after.event_service
            &&& !events ==> after.event_service == tab.event_service
            &&& tab.kind matches TabKind::Agent { agent_id, agent_name, .. } ==> after.kind is Agent
                && after.kind->agent_id == agent_id && after.kind->agent_name == agent_name
                && after.kind->Agent_sandbox == Some(sandbox) && after.kind->auth_gateway == gateway
            &&& !(tab.kind is Agent) ==> after.kind == tab.kind
        }),
{
}

/// A tab that is added is found, is the last and in front; the tabs before it and the other
/// workspaces stay as they were.
pub proof fn law_added_tab_is_in_front(
    after: TerminalPanel,
    before: TerminalPanel,
    ws_id: i64,
    tab: TerminalTab,
    other_ws: i64,
    id: u64,
)
    requires
        tab_added(after, before, ws_id, tab),
        before.sessions@.contains_key(ws_id),
        lifecycle::tab_in(before, ws_id, tab.tab_id) is None,
    ensures
        lifecycle::tab_in(after, ws_id, tab.tab_id) == Some(tab),
        after.sessions@[ws_id].active_tab == after.sessions@[ws_id].tabs@.len() - 1,
        after.sessions@[ws_id].tabs@.last() == tab,
        after.sessions@[ws_id].tabs@.drop_last() == before.sessions@[ws_id].tabs@,
        other_ws != ws_id ==> lifecycle::tab_in(after, other_ws, id) == lifecycle::tab_in(
            before,
            other_ws,
            id,
        ),
{
    let b = before.sessions@[ws_id].tabs@;
    let a = after.sessions@[ws_id].tabs@;
    session::lemma_tab_place(b, tab.tab_id);
    assert forall|j: int| 0 <= j < b.len() implies (#[trigger] a[j]).tab_id != tab.tab_id by {
        assert(a[j] == b[j]);
    }
    session::lemma_tab_place_is(a, tab.tab_id, b.len() as int);
    if other_ws != ws_id && before.sessions@.contains_key(other_ws) {
        assert(after.sessions@[other_ws] == before.sessions@[other_ws]);
    }
}

/// A failure is shown at the step that was under way: the first while the sandbox is prepared, and
/// the last of all steps once the agent's own sandbox is to come up.
pub proof fn law_failure_is_shown_at_its_step(plan: BootPlan, phase: BootPhase)
    requires
        plan.steps@.len() + 2 <= usize::MAX,
        phase is PreparingSandbox || phase is StartingWorkspace || phase is OpeningShell,
    ensures
        ({
            let shown = workspace::setup_plan(plan.needs_install(), step_labels(plan.steps@));
            let after = plan.following(phase, BootEvent::Failed).0;
            &&& after is Failed
            &&& phase is PreparingSandbox ==> after->Failed_step == 0
            &&& !(phase is PreparingSandbox) ==> after->Failed_step == shown.len() - 1
            &&& plan.following(phase, BootEvent::Failed).1.len() == 0
        }),
{
}

/// A tab that only holds a terminal has it from the start: it is neither being prepared nor saved,
/// nor was it ever put aside.
pub proof fn law_shell_has_its_terminal(
    tab: TerminalTab,
    tab_id: u64,
    label: Seq<char>,
    terminal: u64,
    color: Option<Color>,
    kind: TabKind,
)
    requires
        is_plain_tab(tab, tab_id, label, terminal, color, kind),
    ensures
        tab.terminal == Some(terminal),
        tab.tab_id == tab_id,
        tab.label@ == label,
        tab.kind == kind,
        tab.agent_color == color,
        tab.setup_steps is None && tab.setup_error is None && !tab.checkpointing
            && tab.checkpoint_name is None && tab.tab_db_id is None,
        tab.agent_status.weight() == 0,
{
}

/// A download shows the whole megabytes that are there, and those of all where that is known.
pub proof fn law_progress_in_megabytes(
    base: Seq<char>,
    done: u64,
    total: Option<u64>,
    k: nat,
    n: nat,
)
    requires
        k * 1048576 <= done < (k + 1) * 1048576,
        total matches Some(t) ==> n * 1048576 <= t < (n + 1) * 1048576,
    ensures
        total is None ==> progress_text(base, done, total) == base + " ("@ + text::decimal(k)
            + " MB)"@,
        total is Some ==> progress_text(base, done, total) == base + " ("@ + text::decimal(k)
            + "/"@ + text::decimal(n) + " MB)"@,
{
    assert(done / 1048576 == k) by (nonlinear_arith)
        requires
            k * 1048576 <= done < (k + 1) * 1048576,
    ;
    if let Some(t) = total {
        assert(t / 1048576 == n) by (nonlinear_arith)
            requires
                n * 1048576 <= t < (n + 1) * 1048576,
        ;
    }
}

/// A failure says what went wrong first, and then where its output is, where that was saved.
pub proof fn law_failure_says_what_and_where(error: Seq<char>, path: Seq<char>)
    ensures
        failure_text(error, None) == error,
        error.is_prefix_of(failure_text(error, Some(path))),
        path.is_suffix_of(failure_text(error, Some(path))),
        failure_text(error, Some(path)).len() > error.len() + path.len(),
{
    reveal_strlit(" \u{2014} logs saved to ");
    let s = failure_text(error, Some(path));
    let head = error + " \u{2014} logs saved to "@;
    assert((head + path).subrange(head.len() as int, s.len() as int) =~= path);
}

} // verus!
