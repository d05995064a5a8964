//! The course of one job: a worker, the user's slot, the run, its result.
use vstd::prelude::*;

use crate::jobs::{
    on_end, on_no_worker, on_slot, result_key, result_key_text, says_end, says_no_worker, says_slot, JobEventKind,
    JobStatus, RunEnd, SlotReply,
};
use crate::num::Num;

verus! {

/// Where a job is in its course.
#[derive(Clone, Copy, Debug, PartialEq, Eq, Structural)]
pub enum JobPhase {
    /// For a worker.
    Waiting,
    /// For the user's slot.
    Acquiring,
    /// With the slot.
    Running,
    /// Of its result, the slot given back.
    Storing { score: Num },
    Over,
}

/// What happened to a job.
#[derive(Debug)]
pub enum JobInput {
    Worker,
    NoWorker(String),
    Slot(SlotReply),
    Scored(Num),
    RunFailed(String),
    RunPanicked(String),
    CancelAsked,
    /// Whether the result was stored.
    Stored(bool),
}

/// What is to be done for a job.
#[derive(Debug)]
pub enum JobAction {
    AcquireSlot,
    Write(JobStatus),
    Emit(JobEventKind),
    Run,
    Abort,
    ReleaseSlot,
    /// Stores the result under this key.
    Store(String),
}

/// One job on its course.
#[derive(Debug)]
pub struct JobRun {
    pub tenant_id: i64,
    pub job_id: String,
    pub user_id: String,
    pub submitted_at: u64,
    pub phase: JobPhase,
}

/// The phase after something happened; what does not fit a phase changes
/// nothing.
pub open spec fn next_phase(phase: JobPhase, input: JobInput) -> JobPhase {
    match (phase, input) {
        (JobPhase::Waiting, JobInput::Worker) => JobPhase::Acquiring,
        (JobPhase::Waiting, JobInput::NoWorker(_)) => JobPhase::Over,
        (JobPhase::Acquiring, JobInput::Slot(reply)) => if reply is Taken {
            JobPhase::Running
        } else {
            JobPhase::Over
        },
        (JobPhase::Running, JobInput::Scored(score)) => JobPhase::Storing { score },
        (JobPhase::Running, JobInput::RunFailed(_)) => JobPhase::Over,
        (JobPhase::Running, JobInput::RunPanicked(_)) => JobPhase::Over,
        (JobPhase::Running, JobInput::CancelAsked) => JobPhase::Over,
        (JobPhase::Storing { .. }, JobInput::Stored(_)) => JobPhase::Over,
        _ => phase,
    }
}

impl JobRun {
    /// Whether `a` writes a status and emits an event that say how the run ended.
    pub open spec fn closes(self, a: Seq<JobAction>, end: RunEnd, now: u64) -> bool {
        &&& a.len() == 2
        &&& a[0] matches JobAction::Write(status) && a[1] matches JobAction::Emit(kind) && says_end(
            (status, kind),
            end,
            self.submitted_at,
            now,
        )
    }

    /// Whether `a` is what is to be done when something happened.
    pub open spec fn does(self, input: JobInput, now: u64, a: Seq<JobAction>) -> bool {
        match (self.phase, input) {
            (JobPhase::Waiting, JobInput::Worker) => a == seq![JobAction::AcquireSlot],
            (JobPhase::Waiting, JobInput::NoWorker(why)) => {
                &&& a.len() == 1
                &&& a[0] matches JobAction::Write(status) && says_no_worker(status, why@)
            },
            (JobPhase::Acquiring, JobInput::Slot(reply)) => {
                &&& a.len() > 0
                &&& a[0] matches JobAction::Write(status) && says_slot(
                    status,
                    reply,
                    self.user_id@,
                    self.submitted_at,
                    now,
                )
                &&& a.skip(1) == if reply is Taken {
                    seq![JobAction::Emit(JobEventKind::Started), JobAction::Run]
                } else {
                    Seq::empty()
                }
            },
            (JobPhase::Running, JobInput::Scored(_)) => {
                &&& a.len() == 2
                &&& a[0] == JobAction::ReleaseSlot
                &&& a[1] matches JobAction::Store(key) && key@ == result_key_text(self.tenant_id, self.job_id@)
            },
            (JobPhase::Running, JobInput::RunFailed(e)) => {
                &&& a.len() > 0
                &&& a[0] == JobAction::ReleaseSlot
                &&& self.closes(a.skip(1), RunEnd::Error(e), now)
            },
            (JobPhase::Running, JobInput::RunPanicked(e)) => {
                &&& a.len() > 0
                &&& a[0] == JobAction::ReleaseSlot
                &&& self.closes(a.skip(1), RunEnd::Panic(e), now)
            },
            (JobPhase::Running, JobInput::CancelAsked) => {
                &&& a.len() > 1
                &&& a[0] == JobAction::Abort
                &&& a[1] == JobAction::ReleaseSlot
                &&& self.closes(a.skip(2), RunEnd::Cancelled, now)
            },
            (JobPhase::Storing { score }, JobInput::Stored(ok)) => exists|s3_key: Option<String>|
                {
                    &&& s3_key is Some <==> ok
                    &&& s3_key matches Some(k) ==> k@ == result_key_text(self.tenant_id, self.job_id@)
                    &&& #[trigger] self.closes(a, RunEnd::Done { score, s3_key }, now)
                },
            _ => a.len() == 0,
        }
    }

    /// A job that waits for a worker.
    pub fn new(tenant_id: i64, job_id: String, user_id: String, submitted_at: u64) -> (r: JobRun)
        ensures
            r == (JobRun { tenant_id, job_id, user_id, submitted_at, phase: JobPhase::Waiting }),
    {
        JobRun { tenant_id, job_id, user_id, submitted_at, phase: JobPhase::Waiting }
    }

    /// Takes note of what happened, and says what is to be done, in this order.
    pub fn step(&mut self, input: JobInput, now: u64) -> (a: Vec<JobAction>)
        ensures
            *final(self) == (JobRun { phase: next_phase(old(self).phase, input), ..*old(self) }),
            old(self).does(input, now, a@),
    {
        let mut a: Vec<JobAction> = Vec::new();
        match (self.phase, input) {
            (JobPhase::Waiting, JobInput::Worker) => {
                a.push(JobAction::AcquireSlot);
                self.phase = JobPhase::Acquiring;
                assert(a@ =~= seq![JobAction::AcquireSlot]);
            },
            (JobPhase::Waiting, JobInput::NoWorker(why)) => {
                a.push(JobAction::Write(on_no_worker(&why)));
                self.phase = JobPhase::Over;
            },
            (JobPhase::Acquiring, JobInput::Slot(reply)) => {
                let (status, runs) = on_slot(reply, &self.user_id, self.submitted_at, now);
                a.push(JobAction::Write(status));
                if runs {
                    a.push(JobAction::Emit(JobEventKind::Started));
                    a.push(JobAction::Run);
                    self.phase = JobPhase::Running;
                    assert(a@.skip(1) =~= seq![JobAction::Emit(JobEventKind::Started), JobAction::Run]);
                } else {
                    self.phase = JobPhase::Over;
                    assert(a@.skip(1) =~= Seq::empty());
                }
            },
            (JobPhase::Running, JobInput::Scored(score)) => {
                a.push(JobAction::ReleaseSlot);
                a.push(JobAction::Store(result_key(self.tenant_id, &self.job_id)));
                self.phase = JobPhase::Storing { score };
            },
            (JobPhase::Running, JobInput::RunFailed(e)) => {
                a.push(JobAction::ReleaseSlot);
                self.close(&mut a, RunEnd::Error(e), now);
            },
            (JobPhase::Running, JobInput::RunPanicked(e)) => {
                a.push(JobAction::ReleaseSlot);
                self.close(&mut a, RunEnd::Panic(e), now);
            },
            (JobPhase::Running, JobInput::CancelAsked) => {
                a.push(JobAction::Abort);
                a.push(JobAction::ReleaseSlot);
                self.close(&mut a, RunEnd::Cancelled, now);
            },
            (JobPhase::Storing { score }, JobInput::Stored(ok)) => {
                let s3_key = if ok {
                    Some(result_key(self.tenant_id, &self.job_id))
                } else {
                    None
                };
                let ghost (before, key) = (*self, s3_key);
                self.close(&mut a, RunEnd::Done { score, s3_key }, now);
                assert(a@.skip(0) =~= a@);
                assert(before.closes(a@, RunEnd::Done { score, s3_key: key }, now));
            },
            _ => {},
        }
        a
    }

    fn close(&mut self, a: &mut Vec<JobAction>, end: RunEnd, now: u64)
        ensures
            *final(self) == (JobRun { phase: JobPhase::Over, ..*old(self) }),
            final(a)@.len() == old(a)@.len() + 2,
            forall|i: int| 0 <= i < old(a)@.len() ==> #[trigger] final(a)@[i] == old(a)@[i],
            old(self).closes(final(a)@.skip(old(a)@.len() as int), end, now),
    {
        let ghost before = a@;
        let (status, kind) = on_end(end, self.submitted_at, now);
        a.push(JobAction::Write(status));
        a.push(JobAction::Emit(kind));
        self.phase = JobPhase::Over;
        assert(a@.skip(before.len() as int) =~= seq![JobAction::Write(status), JobAction::Emit(kind)]);
    }
}

/// The phase of a job after the first `n` things that happened to it.
pub open spec fn phase_after(inputs: Seq<JobInput>, n: nat) -> JobPhase
    decreases n,
{
    if n == 0 {
        JobPhase::Waiting
    } else {
        next_phase(phase_after(inputs, (n - 1) as nat), inputs[n - 1])
    }
}

/// How often the slot was taken in the first `n` steps.
pub open spec fn times_taken(inputs: Seq<JobInput>, n: nat) -> nat
    decreases n,
{
    if n == 0 {
        0
    } else {
        let takes = phase_after(inputs, (n - 1) as nat) is Acquiring && phase_after(inputs, n) is Running;
        times_taken(inputs, (n - 1) as nat) + if takes {
            1nat
        } else {
            0
        }
    }
}

/// How often actions give the slot back.
pub open spec fn releases(a: Seq<JobAction>) -> nat {
    a.filter(|x: JobAction| x is ReleaseSlot).len()
}

/// How often the slot was given back in the first `n` steps, whose actions were
/// `done`.
pub open spec fn times_released(done: Seq<Seq<JobAction>>, n: nat) -> nat
    decreases n,
{
    if n == 0 {
        0
    } else {
        times_released(done, (n - 1) as nat) + releases(done[n - 1])
    }
}

proof fn lemma_releases(a: Seq<JobAction>)
    ensures
        a.len() == 0 ==> releases(a) == 0,
        a.len() > 0 ==> releases(a) == releases(a.drop_last()) + if a.last() is ReleaseSlot {
            1nat
        } else {
            0
        },
{
    reveal(Seq::filter);
}

/// A step gives the slot back just when it ends the running.
pub proof fn a_step_releases_when_it_leaves(job: JobRun, input: JobInput, now: u64, a: Seq<JobAction>)
    requires
        job.does(input, now, a),
    ensures
        releases(a) == if job.phase is Running && !(next_phase(job.phase, input) is Running) {
            1nat
        } else {
            0
        },
{
    lemma_releases(a);
    let b = a.drop_last();
    lemma_releases(b);
    let c = b.drop_last();
    lemma_releases(c);
    let d = c.drop_last();
    lemma_releases(d);
    assert(a.skip(1).len() == a.len() - 1 || a.len() < 1);
    if job.phase is Acquiring && input is Slot && a.len() == 3 {
        assert(a.skip(1)[0] == a[1]);
        assert(a.skip(1)[1] == a[2]);
    }
    if job.phase is Running && a.len() == 3 {
        assert(a.skip(1)[0] == a[1]);
        assert(a.skip(1)[1] == a[2]);
    }
    if job.phase is Running && a.len() == 4 {
        assert(a.skip(2)[0] == a[2]);
        assert(a.skip(2)[1] == a[3]);
    }
}

/// Whatever happens to a job, it takes the slot at most once, and gives it back
/// as often as it took it, but for the one it still runs with.
pub proof fn the_slot_is_given_back_once(
    job: JobRun,
    inputs: Seq<JobInput>,
    times: Seq<u64>,
    done: Seq<Seq<JobAction>>,
    n: nat,
)
    requires
        n <= inputs.len(),
        forall|i: int|
            0 <= i < n ==> #[trigger] (JobRun { phase: phase_after(inputs, i as nat), ..job }).does(
                inputs[i],
                times[i],
                done[i],
            ),
    ensures
        times_taken(inputs, n) <= 1,
        times_taken(inputs, n) == times_released(done, n) + if phase_after(inputs, n) is Running {
            1nat
        } else {
            0
        },
        phase_after(inputs, n) is Waiting || phase_after(inputs, n) is Acquiring ==> times_taken(inputs, n) == 0,
    decreases n,
{
    if n > 0 {
        let m = (n - 1) as nat;
        the_slot_is_given_back_once(job, inputs, times, done, m);
        let before = JobRun { phase: phase_after(inputs, m), ..job };
        assert(before.does(inputs[n - 1], times[n - 1], done[n - 1]));
        a_step_releases_when_it_leaves(before, inputs[n - 1], times[n - 1], done[n - 1]);
    }
}

} // verus!
