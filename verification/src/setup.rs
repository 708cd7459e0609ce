//! The first-run screen that downloads the sandbox runtime.

use crate::text;
use crate::theme::ColorRole;
use vstd::prelude::*;

verus! {

#[derive(Clone, Copy, Debug, PartialEq, Eq, Structural)]
pub enum Phase {
    Welcome,
    Installing,
}

#[derive(Clone, Copy, Debug, PartialEq, Eq, Structural)]
pub enum StepStatus {
    Done,
    Active,
    Pending,
    Failed,
}

/// A step of the installation, as it is listed.
#[derive(Debug)]
pub struct Step {
    pub label: String,
    pub status: StepStatus,
}

/// What the download says.
#[derive(Debug)]
pub enum DownloadMsg {
    /// Bytes so far, and in all where that is known.
    Progress(u64, Option<u64>),
    Extracting,
    Done(Result<(), String>),
}

/// Setup came to a good end.
#[derive(Clone, Copy, Debug)]
pub struct SetupComplete;

/// The first-run screen.
#[derive(Debug)]
pub struct SetupScreen {
    pub phase: Phase,
    pub steps: Vec<Step>,
    pub error: Option<String>,
    pub completed: bool,
}

/// How a step is listed: its mark, the colours of mark and label, and whether the mark breathes.
#[derive(Debug)]
pub struct StepView {
    pub mark: char,
    pub mark_color: ColorRole,
    pub label_color: ColorRole,
    pub breathes: bool,
}

/// How many bytes a megabyte has here.
pub const MEGABYTE: u64 = 1048576;

/// The label of the download under way.
pub open spec fn download_label(done: u64, total: Option<u64>) -> Seq<char> {
    let so_far = "Downloading Shuru Runtime ("@ + text::decimal((done / MEGABYTE) as nat);
    match total {
        Some(t) => so_far + " / "@ + text::decimal((t / MEGABYTE) as nat) + " MB)"@,
        None => so_far + " MB)"@,
    }
}

/// The first step under way, from `i` on, or their number.
pub open spec fn first_active(statuses: Seq<StepStatus>, i: int) -> int
    decreases statuses.len() - i,
{
    if i >= statuses.len() {
        statuses.len() as int
    } else if statuses[i] == StepStatus::Active {
        i
    } else {
        first_active(statuses, i + 1)
    }
}

/// The steps after one of them gets another status.
pub open spec fn with_status(steps: Seq<Step>, i: int, status: StepStatus) -> Seq<Step> {
    if 0 <= i < steps.len() {
        steps.update(i, Step { status, ..steps[i] })
    } else {
        steps
    }
}

/// The status of each step.
pub open spec fn statuses(steps: Seq<Step>) -> Seq<StepStatus> {
    steps.map_values(|s: Step| s.status)
}

fn download_label_text(done: u64, total: Option<u64>) -> (s: String)
    ensures
        s@ == download_label(done, total),
{
    let mut s = "Downloading Shuru Runtime (".to_owned();
    text::push_decimal(&mut s, done / MEGABYTE);
    match total {
        Some(t) => {
            s.append(" / ");
            text::push_decimal(&mut s, t / MEGABYTE);
        },
        None => {},
    }
    s.append(" MB)");
    s
}

fn step(label: &str) -> (s: Step)
    ensures
        s.label@ == label@,
        s.status == StepStatus::Pending,
{
    Step { label: label.to_owned(), status: StepStatus::Pending }
}

impl SetupScreen {
    /// There are the three steps: download, extraction, verification.
    pub open spec fn wf(&self) -> bool {
        self.steps@.len() == 3
    }

    pub fn new() -> (s: Self)
        ensures
            s.wf(),
            s.phase == Phase::Welcome,
            s.error is None,
            !s.completed,
            s.steps@[0].label@ == "Downloading Shuru Runtime"@,
            s.steps@[1].label@ == "Extracting image"@,
            s.steps@[2].label@ == "Verifying installation"@,
            forall|i: int| 0 <= i < 3 ==> (#[trigger] s.steps@[i]).status == StepStatus::Pending,
    {
        let mut steps: Vec<Step> = Vec::new();
        steps.push(step("Downloading Shuru Runtime"));
        steps.push(step("Extracting image"));
        steps.push(step("Verifying installation"));
        SetupScreen { phase: Phase::Welcome, steps, error: None, completed: false }
    }

    /// Begins the download.
    pub fn start_setup(&mut self)
        requires
            old(self).wf(),
        ensures
            final(self).wf(),
            final(self).phase == Phase::Installing,
            final(self).error is None,
            final(self).completed == old(self).completed,
            final(self).steps@[0].status == StepStatus::Active,
            final(self).steps@[0].label@ == "Downloading Shuru Runtime (0 MB)"@,
            final(self).steps@.skip(1) == old(self).steps@.skip(1),
    {
        self.phase = Phase::Installing;
        self.error = None;
        let first = Step {
            label: "Downloading Shuru Runtime (0 MB)".to_owned(),
            status: StepStatus::Active,
        };
        self.steps.set(0, first);
        assert(self.steps@.skip(1) =~= old(self).steps@.skip(1));
    }

    /// Takes in what the download says. Tells whether that was the last of it.
    pub fn on_message(&mut self, msg: DownloadMsg) -> (done: bool)
        requires
            old(self).wf(),
        ensures
            final(self).wf(),
            done == (msg is Done),
            final(self).phase == old(self).phase,
            final(self).completed == old(self).completed,
            match msg {
                DownloadMsg::Progress(so_far, total) => {
                    &&& final(self).steps@[0].label@ == download_label(so_far, total)
                    &&& final(self).steps@ == old(self).steps@.update(
                        0,
                        Step { label: final(self).steps@[0].label, ..old(self).steps@[0] },
                    )
                    &&& final(self).error == old(self).error
                },
                DownloadMsg::Extracting => {
                    &&& final(self).steps@ == with_status(
                        with_status(old(self).steps@, 0, StepStatus::Done),
                        1,
                        StepStatus::Active,
                    )
                    &&& final(self).error == old(self).error
                },
                DownloadMsg::Done(Ok(_)) => {
                    &&& final(self).steps@[2].label@ == "Ready"@
                    &&& final(self).steps@ == with_status(
                        old(self).steps@,
                        1,
                        StepStatus::Done,
                    ).update(
                        2,
                        Step { label: final(self).steps@[2].label, status: StepStatus::Done },
                    )
                    &&& final(self).error == old(self).error
                },
                DownloadMsg::Done(Err(e)) => {
                    &&& final(self).steps@ == with_status(
                        old(self).steps@,
                        first_active(statuses(old(self).steps@), 0),
                        StepStatus::Failed,
                    )
                    &&& final(self).error == Some(e)
                },
            },
    {
        match msg {
            DownloadMsg::Progress(so_far, total) => {
                self.steps[0].label = download_label_text(so_far, total);
                false
            },
            DownloadMsg::Extracting => {
                self.steps[0].status = StepStatus::Done;
                self.steps[1].status = StepStatus::Active;
                false
            },
            DownloadMsg::Done(Ok(_)) => {
                self.steps[1].status = StepStatus::Done;
                self.steps[2].status = StepStatus::Done;
                self.steps[2].label = "Ready".to_owned();
                true
            },
            DownloadMsg::Done(Err(e)) => {
                self.fail_active();
                self.error = Some(e);
                true
            },
        }
    }

    fn fail_active(&mut self)
        requires
            old(self).wf(),
        ensures
            final(self).wf(),
            final(self).steps@ == with_status(
                old(self).steps@,
                first_active(statuses(old(self).steps@), 0),
                StepStatus::Failed,
            ),
            *final(self) == (SetupScreen { steps: final(self).steps, ..*old(self) }),
    {
        let mut i: usize = 0;
        let ghost all = statuses(self.steps@);
        while i < self.steps.len()
            invariant
                i <= self.steps@.len(),
                *self == *old(self),
                all == statuses(self.steps@),
                self.wf(),
                first_active(all, 0) == first_active(all, i as int),
            decreases self.steps@.len() - i,
        {
            assert(all[i as int] == self.steps@[i as int].status);
            if self.steps[i].status == StepStatus::Active {
                self.steps[i].status = StepStatus::Failed;
                return;
            }
            i += 1;
        }
    }

    /// A moment after the last word of the download: setup is complete unless it failed.
    pub fn settle(&mut self)
        ensures
            *final(self) == (SetupScreen {
                completed: old(self).completed || old(self).error is None,
                ..*old(self)
            }),
    {
        if self.error.is_none() {
            self.completed = true;
        }
    }

    /// Says once that setup is complete, before the screen is painted.
    pub fn before_render(&mut self) -> (event: Option<SetupComplete>)
        ensures
            (event is Some) == old(self).completed,
            *final(self) == (SetupScreen { completed: false, ..*old(self) }),
    {
        if self.completed {
            self.completed = false;
            Some(SetupComplete)
        } else {
            None
        }
    }
}

/// How a step of each status is listed.
pub fn step_view(status: StepStatus) -> (v: StepView)
    ensures
        v.breathes == (status == StepStatus::Active),
        (v.mark, v.mark_color, v.label_color) == (match status {
            StepStatus::Done => ('\u{2713}', ColorRole::StatusGreenDim, ColorRole::TextGhost),
            StepStatus::Active => (
                '\u{25CF}',
                ColorRole::TextSecondary,
                ColorRole::TextSecondary,
            ),
            StepStatus::Pending => (
                '\u{25CB}',
                ColorRole::TextInvisible,
                ColorRole::TextInvisible,
            ),
            StepStatus::Failed => ('\u{2717}', ColorRole::ErrorText, ColorRole::ErrorText),
        }),
{
    match status {
        StepStatus::Done => StepView {
            mark: '\u{2713}',
            mark_color: ColorRole::StatusGreenDim,
            label_color: ColorRole::TextGhost,
            breathes: false,
        },
        StepStatus::Active => StepView {
            mark: '\u{25CF}',
            mark_color: ColorRole::TextSecondary,
            label_color: ColorRole::TextSecondary,
            breathes: true,
        },
        StepStatus::Pending => StepView {
            mark: '\u{25CB}',
            mark_color: ColorRole::TextInvisible,
            label_color: ColorRole::TextInvisible,
            breathes: false,
        },
        StepStatus::Failed => StepView {
            mark: '\u{2717}',
            mark_color: ColorRole::ErrorText,
            label_color: ColorRole::ErrorText,
            breathes: false,
        },
    }
}

/// An error is marked at the step that was under way, and at no other.
pub proof fn law_failure_marks_one_step(steps: Seq<Step>, i: int)
    requires
        0 <= i < steps.len(),
    ensures
        ({
            let at = first_active(statuses(steps), 0);
            let after = with_status(steps, at, StepStatus::Failed);
            &&& after.len() == steps.len()
            &&& after[i].label == steps[i].label
            &&& i == at ==> steps[i].status == StepStatus::Active && after[i].status
                == StepStatus::Failed
            &&& i != at ==> after[i] == steps[i]
            &&& i < at ==> steps[i].status != StepStatus::Active
        }),
{
    lemma_first_active(statuses(steps), 0);
    assert(statuses(steps)[i] == steps[i].status);
}

proof fn lemma_first_active(all: Seq<StepStatus>, i: int)
    requires
        0 <= i <= all.len(),
    ensures
        i <= first_active(all, i) <= all.len(),
        first_active(all, i) < all.len() ==> all[first_active(all, i)] == StepStatus::Active,
        forall|j: int| i <= j < first_active(all, i) ==> all[j] != StepStatus::Active,
    decreases all.len() - i,
{
    if i < all.len() && all[i] != StepStatus::Active {
        lemma_first_active(all, i + 1);
    }
}

/// The download shows the whole megabytes that are there, and those of all where that is known.
pub proof fn law_download_in_megabytes(done: u64, total: Option<u64>, k: nat, n: nat)
    requires
        k * 1048576 <= done < (k + 1) * 1048576,
        total matches Some(t) ==> n * 1048576 <= t < (n + 1) * 1048576,
    ensures
        total is None ==> download_label(done, total) == "Downloading Shuru Runtime ("@
            + text::decimal(k) + " MB)"@,
        total is Some ==> download_label(done, total) == "Downloading Shuru Runtime ("@
            + text::decimal(k) + " / "@ + text::decimal(n) + " MB)"@,
{
    assert(done / 1048576 == k) by (nonlinear_arith)
        requires
            k * 1048576 <= done < (k + 1) * 1048576,
    ;
    if let Some(t) = total {
        assert(t / 1048576 == n) by (nonlinear_arith)
            requires
                n * 1048576 <= t < (n + 1) * 1048576,
        ;
    }
}

} // verus!
