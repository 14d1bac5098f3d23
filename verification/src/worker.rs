//! The tray's background worker: each job (a periodic status poll, or a
//! command from the menu) asks for service calls one at a time, and says
//! what to show the user — the new status, or a notification.
use vstd::prelude::*;
use crate::gpu::Gpu;
use crate::menu::{Command, CommandOf};
use crate::tray::{bdf_list, device_label, driver_text, format_bdf_list};
use crate::text::{glue, glue3, join_texts, joined, owned, views_of};

verus! {

/// What the tray's user interface is told.
#[derive(Debug, PartialEq, Eq)]
pub enum UiEventOf<T, G> {
    /// Show these devices.
    SetStatus(G),
    /// Notify of a success.
    NotifyOk(T),
    /// Notify of an error.
    NotifyErr(T),
}

/// A job of the worker.
#[derive(Debug, PartialEq, Eq)]
pub enum JobOf<T, L> {
    /// The periodic status poll.
    Poll,
    /// A refresh the user asked for.
    Refresh,
    /// Calling `method` on each of `bdfs` in turn; `done` calls succeeded so
    /// far; `success` is the notification once all have.
    Batch { method: T, bdfs: L, done: usize, success: T },
    /// The status fetch that follows a successful batch.
    FollowUp,
}

/// What the worker needs done next.
#[derive(Debug, PartialEq, Eq)]
pub enum EffectOf<T> {
    /// Fetch the status from the service.
    FetchStatus,
    /// Call a method of the service on one address.
    CallService { method: T, bdf: T },
}

/// The outcome of an effect.
#[derive(Debug, PartialEq, Eq)]
pub enum WorkerReplyOf<T, G> {
    /// The devices, or the error's text.
    Status(Result<G, T>),
    /// Whether the call succeeded, or the error's text.
    Called(Result<(), T>),
}

/// What a job shows, and the job that goes on, if any.
#[derive(Debug, PartialEq, Eq)]
pub struct JobStepOf<T, L, G> {
    pub events: Vec<UiEventOf<T, G>>,
    pub next: Option<JobOf<T, L>>,
}

/// What a job shows, and the job that goes on, if any (model).
pub struct JobStepModel {
    pub events: Seq<UiEventModel>,
    pub next: Option<JobModel>,
}

pub type UiEvent = UiEventOf<String, Vec<Gpu>>;

pub type Job = JobOf<String, Vec<String>>;

pub type Effect = EffectOf<String>;

pub type WorkerReply = WorkerReplyOf<String, Vec<Gpu>>;

pub type JobStep = JobStepOf<String, Vec<String>, Vec<Gpu>>;

pub type UiEventModel = UiEventOf<Seq<char>, Seq<Gpu>>;

pub type JobModel = JobOf<Seq<char>, Seq<Seq<char>>>;

pub type EffectModel = EffectOf<Seq<char>>;

pub type WorkerReplyModel = WorkerReplyOf<Seq<char>, Seq<Gpu>>;

impl View for UiEventOf<String, Vec<Gpu>> {
    type V = UiEventOf<Seq<char>, Seq<Gpu>>;

    open spec fn view(&self) -> UiEventOf<Seq<char>, Seq<Gpu>> {
        match self {
            UiEventOf::SetStatus(g) => UiEventOf::SetStatus(g@),
            UiEventOf::NotifyOk(t) => UiEventOf::NotifyOk(t@),
            UiEventOf::NotifyErr(t) => UiEventOf::NotifyErr(t@),
        }
    }
}

impl View for JobOf<String, Vec<String>> {
    type V = JobOf<Seq<char>, Seq<Seq<char>>>;

    open spec fn view(&self) -> JobOf<Seq<char>, Seq<Seq<char>>> {
        match self {
            JobOf::Poll => JobOf::Poll,
            JobOf::Refresh => JobOf::Refresh,
            JobOf::Batch { method, bdfs, done, success } => JobOf::Batch {
                method: method@,
                bdfs: views_of(bdfs@),
                done: *done,
                success: success@,
            },
            JobOf::FollowUp => JobOf::FollowUp,
        }
    }
}

impl View for EffectOf<String> {
    type V = EffectOf<Seq<char>>;

    open spec fn view(&self) -> EffectOf<Seq<char>> {
        match self {
            EffectOf::FetchStatus => EffectOf::FetchStatus,
            EffectOf::CallService { method, bdf } => EffectOf::CallService {
                method: method@,
                bdf: bdf@,
            },
        }
    }
}

impl View for WorkerReplyOf<String, Vec<Gpu>> {
    type V = WorkerReplyOf<Seq<char>, Seq<Gpu>>;

    open spec fn view(&self) -> WorkerReplyOf<Seq<char>, Seq<Gpu>> {
        match self {
            WorkerReplyOf::Status(Ok(g)) => WorkerReplyOf::Status(Ok(g@)),
            WorkerReplyOf::Status(Err(e)) => WorkerReplyOf::Status(Err(e@)),
            WorkerReplyOf::Called(Ok(())) => WorkerReplyOf::Called(Ok(())),
            WorkerReplyOf::Called(Err(e)) => WorkerReplyOf::Called(Err(e@)),
        }
    }
}

impl View for JobStepOf<String, Vec<String>, Vec<Gpu>> {
    type V = JobStepModel;

    open spec fn view(&self) -> JobStepModel {
        JobStepModel {
            events: self.events@.map_values(|e: UiEvent| e@),
            next: match self.next {
                Some(j) => Some(j@),
                None => None,
            },
        }
    }
}

/// How one device is listed in the refresh notification: `BDF => DRIVER`.
pub open spec fn summary_line(g: Gpu) -> Seq<char> {
    g.bdf@ + " => "@ + driver_text(g.driver)
}

/// The refresh notification: one line per device, or a note that none was
/// found.
pub open spec fn status_summary(gpus: Seq<Gpu>) -> Seq<char> {
    if gpus.len() == 0 {
        "No NVIDIA GPU found"@
    } else {
        joined(gpus.map_values(|g: Gpu| summary_line(g)), "\n"@)
    }
}

/// The refresh notification for some devices.
pub fn summarize_status(gpus: &[Gpu]) -> (r: String)
    ensures
        r@ == status_summary(gpus@),
{
    if gpus.len() == 0 {
        return owned("No NVIDIA GPU found");
    }
    let ghost lines = gpus@.map_values(|g: Gpu| summary_line(g));
    let mut parts: Vec<String> = Vec::new();
    let mut i: usize = 0;
    while i < gpus.len()
        invariant
            i <= gpus.len(),
            lines == gpus@.map_values(|g: Gpu| summary_line(g)),
            views_of(parts@) =~= lines.take(i as int),
        decreases gpus.len() - i,
    {
        let g = &gpus[i];
        let line = match &g.driver {
            Some(d) => glue3(g.bdf.as_str(), " => ", d.as_str()),
            None => glue3(g.bdf.as_str(), " => ", "none"),
        };
        let ghost before = parts@;
        parts.push(line);
        assert(views_of(parts@) =~= views_of(before).push(summary_line(gpus@[i as int])));
        i = i + 1;
    }
    assert(lines.take(gpus.len() as int) =~= lines);
    join_texts(parts.as_slice(), "\n")
}

/// Whether a job is well formed: a batch has calls left (on no more
/// addresses than a vector holds).
pub open spec fn job_wf(j: JobModel) -> bool {
    j matches JobOf::Batch { bdfs, done, .. } ==> done < bdfs.len() <= usize::MAX
}

/// What a job needs done next.
pub open spec fn effect_of(j: JobModel) -> EffectModel {
    match j {
        JobOf::Batch { method, bdfs, done, .. } => EffectOf::CallService { method, bdf: bdfs[done as int] },
        _ => EffectOf::FetchStatus,
    }
}

/// Whether a reply is of the kind that an effect calls for.
pub open spec fn replies_to(e: EffectModel, r: WorkerReplyModel) -> bool {
    match e {
        EffectOf::FetchStatus => r is Status,
        EffectOf::CallService { .. } => r is Called,
    }
}

/// The service method and the success notification of a group command.
pub open spec fn batch_of(method: Seq<char>, bdfs: Seq<Seq<char>>, success: Seq<char>) -> JobStepModel {
    if bdfs.len() == 0 {
        JobStepModel { events: seq![UiEventOf::NotifyOk(success)], next: Some(JobOf::FollowUp) }
    } else {
        JobStepModel {
            events: Seq::empty(),
            next: Some(JobOf::Batch { method, bdfs, done: 0, success }),
        }
    }
}

/// How the worker takes up a command from the menu.
pub open spec fn command_start(c: crate::menu::CommandModel) -> JobStepModel {
    match c {
        CommandOf::Refresh => JobStepModel { events: Seq::empty(), next: Some(JobOf::Refresh) },
        CommandOf::BindGroupToNvidia(bdfs) => batch_of(
            "BindToNvidia"@,
            bdfs,
            "Bound "@ + bdf_list(bdfs) + " to host drivers"@,
        ),
        CommandOf::BindGroupToVfio(bdfs) => batch_of(
            "BindToVfio"@,
            bdfs,
            "Bound "@ + bdf_list(bdfs) + " to vfio-pci"@,
        ),
        CommandOf::UnbindGroup(bdfs) => batch_of("Unbind"@, bdfs, "Unbound "@ + bdf_list(bdfs)),
    }
}

/// What a job does with a reply (a reply of another kind leaves it as it is).
pub open spec fn job_step(j: JobModel, r: WorkerReplyModel) -> JobStepModel {
    match (j, r) {
        (JobOf::Poll, WorkerReplyOf::Status(Ok(g))) => JobStepModel {
            events: seq![UiEventOf::SetStatus(g)],
            next: None,
        },
        (JobOf::Poll, WorkerReplyOf::Status(Err(e))) => JobStepModel {
            events: seq![UiEventOf::NotifyErr(e)],
            next: None,
        },
        (JobOf::Refresh, WorkerReplyOf::Status(Ok(g))) => JobStepModel {
            events: seq![UiEventOf::SetStatus(g), UiEventOf::NotifyOk(status_summary(g))],
            next: None,
        },
        (JobOf::Refresh, WorkerReplyOf::Status(Err(e))) => JobStepModel {
            events: seq![UiEventOf::NotifyErr(e)],
            next: None,
        },
        (JobOf::FollowUp, WorkerReplyOf::Status(Ok(g))) => JobStepModel {
            events: seq![UiEventOf::SetStatus(g)],
            next: None,
        },
        (JobOf::FollowUp, WorkerReplyOf::Status(Err(_))) => JobStepModel {
            events: Seq::empty(),
            next: None,
        },
        (JobOf::Batch { method, bdfs, done, success }, WorkerReplyOf::Called(Ok(()))) => if done
            + 1 < bdfs.len() {
            JobStepModel {
                events: Seq::empty(),
                next: Some(JobOf::Batch { method, bdfs, done: (done + 1) as usize, success }),
            }
        } else {
            JobStepModel { events: seq![UiEventOf::NotifyOk(success)], next: Some(JobOf::FollowUp) }
        },
        (JobOf::Batch { .. }, WorkerReplyOf::Called(Err(e))) => JobStepModel {
            events: seq![UiEventOf::NotifyErr(e)],
            next: None,
        },
        _ => JobStepModel { events: Seq::empty(), next: Some(j) },
    }
}

/// The periodic status poll.
pub fn poll_job() -> (j: Job)
    ensures
        j@ == JobOf::<Seq<char>, Seq<Seq<char>>>::Poll,
{
    JobOf::Poll
}

/// A job calling a method on each address, or, with no address, the success
/// notification and the follow-up fetch right away.
fn start_batch(method: &str, bdfs: Vec<String>, success: String) -> (s: JobStep)
    ensures
        s@ == batch_of(method@, views_of(bdfs@), success@),
        s@.next matches Some(j) ==> job_wf(j),
{
    if bdfs.len() == 0 {
        let mut events: Vec<UiEvent> = Vec::new();
        events.push(UiEventOf::NotifyOk(success));
        proof {
            assert(events@.map_values(|e: UiEvent| e@) =~= seq![UiEventOf::NotifyOk(success@)]);
        }
        JobStepOf { events, next: Some(JobOf::FollowUp) }
    } else {
        let s = JobStepOf {
            events: Vec::new(),
            next: Some(JobOf::Batch { method: owned(method), bdfs, done: 0, success }),
        };
        proof {
            assert(s.events@.map_values(|e: UiEvent| e@) =~= Seq::<UiEventModel>::empty());
        }
        s
    }
}

/// How the worker takes up a command from the menu: a refresh fetches the
/// status; a group command calls `BindToNvidia`, `BindToVfio` or `Unbind` on
/// each of the group's addresses in turn.
pub fn start_command(c: Command) -> (s: JobStep)
    ensures
        s@ == command_start(c@),
        s@.next matches Some(j) ==> job_wf(j),
{
    match c {
        CommandOf::Refresh => {
            let s = JobStepOf { events: Vec::new(), next: Some(JobOf::Refresh) };
            proof {
                assert(s.events@.map_values(|e: UiEvent| e@) =~= Seq::<UiEventModel>::empty());
            }
            s
        },
        CommandOf::BindGroupToNvidia(bdfs) => {
            let list = format_bdf_list(bdfs.as_slice());
            let success = glue3("Bound ", list.as_str(), " to host drivers");
            start_batch("BindToNvidia", bdfs, success)
        },
        CommandOf::BindGroupToVfio(bdfs) => {
            let list = format_bdf_list(bdfs.as_slice());
            let success = glue3("Bound ", list.as_str(), " to vfio-pci");
            start_batch("BindToVfio", bdfs, success)
        },
        CommandOf::UnbindGroup(bdfs) => {
            let list = format_bdf_list(bdfs.as_slice());
            let success = glue("Unbound ", list.as_str());
            start_batch("Unbind", bdfs, success)
        },
    }
}

/// Some events.
fn events_of(first: UiEvent) -> (v: Vec<UiEvent>)
    ensures
        v@.map_values(|e: UiEvent| e@) == seq![first@],
{
    let mut v: Vec<UiEvent> = Vec::new();
    v.push(first);
    assert(v@.map_values(|e: UiEvent| e@) =~= seq![first@]);
    v
}

impl JobOf<String, Vec<String>> {
    /// Whether the job is well formed (a batch has calls left).
    pub fn well_formed(&self) -> (b: bool)
        ensures
            b == job_wf(self@),
    {
        match self {
            JobOf::Batch { bdfs, done, .. } => *done < bdfs.len(),
            _ => true,
        }
    }

    /// What this job needs done next.
    pub fn effect(&self) -> (e: Effect)
        requires
            job_wf(self@),
        ensures
            e@ == effect_of(self@),
    {
        match self {
            JobOf::Batch { method, bdfs, done, .. } => EffectOf::CallService {
                method: method.clone(),
                bdf: bdfs[*done].clone(),
            },
            _ => EffectOf::FetchStatus,
        }
    }

    /// Whether a reply is of the kind this job's effect calls for.
    pub fn accepts(&self, r: &WorkerReply) -> (b: bool)
        ensures
            b == replies_to(effect_of(self@), r@),
    {
        match self {
            JobOf::Batch { .. } => matches!(r, WorkerReplyOf::Called(_)),
            _ => matches!(r, WorkerReplyOf::Status(_)),
        }
    }

    /// Goes on with the reply to this job's effect.
    pub fn resume(self, r: WorkerReply) -> (s: JobStep)
        requires
            job_wf(self@),
            replies_to(effect_of(self@), r@),
        ensures
            s@ == job_step(self@, r@),
            s@.next matches Some(j) ==> job_wf(j),
    {
        let ghost old = self@;
        let ghost rv = r@;
        match (self, r) {
            (JobOf::Poll, WorkerReplyOf::Status(Ok(g))) => {
                let s = JobStepOf { events: events_of(UiEventOf::SetStatus(g)), next: None };
                assert(s@ == job_step(old, rv));
                s
            },
            (JobOf::Refresh, WorkerReplyOf::Status(Ok(g))) => {
                let ghost gv = g@;
                let summary = summarize_status(g.as_slice());
                let mut events = events_of(UiEventOf::SetStatus(g));
                let ghost first = events@;
                events.push(UiEventOf::NotifyOk(summary));
                assert(events@.map_values(|e: UiEvent| e@) =~= first.map_values(|e: UiEvent| e@).push(
                    UiEventOf::NotifyOk(summary@),
                ));
                assert(events@.map_values(|e: UiEvent| e@) =~= seq![
                    UiEventOf::SetStatus(gv),
                    UiEventOf::NotifyOk(status_summary(gv)),
                ]);
                let s = JobStepOf { events, next: None };
                assert(s@ == job_step(old, rv));
                s
            },
            (JobOf::FollowUp, WorkerReplyOf::Status(Ok(g))) => {
                let s = JobStepOf { events: events_of(UiEventOf::SetStatus(g)), next: None };
                assert(s@ == job_step(old, rv));
                s
            },
            (JobOf::FollowUp, WorkerReplyOf::Status(Err(_))) => {
                let s = JobStepOf { events: Vec::new(), next: None };
                assert(s.events@.map_values(|e: UiEvent| e@) =~= Seq::<UiEventModel>::empty());
                s
            },
            (_, WorkerReplyOf::Status(Err(e))) => {
                let s = JobStepOf { events: events_of(UiEventOf::NotifyErr(e)), next: None };
                assert(s@ == job_step(old, rv));
                s
            },
            (JobOf::Batch { method, bdfs, done, success }, WorkerReplyOf::Called(Ok(()))) => {
                let n = bdfs.len();
                assert(done < n);
                if done + 1 < n {
                    let s = JobStepOf {
                        events: Vec::new(),
                        next: Some(JobOf::Batch { method, bdfs, done: done + 1, success }),
                    };
                    assert(s.events@.map_values(|e: UiEvent| e@) =~= Seq::<UiEventModel>::empty());
                    s
                } else {
                    JobStepOf {
                        events: events_of(UiEventOf::NotifyOk(success)),
                        next: Some(JobOf::FollowUp),
                    }
                }
            },
            (_, WorkerReplyOf::Called(Err(e))) => {
                let s = JobStepOf { events: events_of(UiEventOf::NotifyErr(e)), next: None };
                assert(s@ == job_step(old, rv));
                s
            },
            (job, reply) => {
                let s = JobStepOf { events: Vec::new(), next: Some(job) };
                assert(s.events@.map_values(|e: UiEvent| e@) =~= Seq::<UiEventModel>::empty());
                s
            },
        }
    }
}


/// The effects a job asks for, in order, when they get the given replies:
/// up to the reply that ends it, or to a reply of the wrong kind.
pub open spec fn effects_made(j: JobModel, replies: Seq<WorkerReplyModel>) -> Seq<EffectModel>
    decreases replies.len(),
{
    let e = effect_of(j);
    if replies.len() == 0 || !replies_to(e, replies[0]) {
        seq![e]
    } else {
        match job_step(j, replies[0]).next {
            Some(j2) => seq![e] + effects_made(j2, replies.drop_first()),
            None => seq![e],
        }
    }
}

proof fn lemma_batch_calls(
    method: Seq<char>,
    bdfs: Seq<Seq<char>>,
    done: usize,
    success: Seq<char>,
    replies: Seq<WorkerReplyModel>,
    k: int,
)
    requires
        done < bdfs.len() <= usize::MAX,
        0 <= k < effects_made(JobOf::Batch { method, bdfs, done, success }, replies).len(),
        done + k < bdfs.len(),
    ensures
        effects_made(JobOf::Batch { method, bdfs, done, success }, replies)[k]
            == (EffectOf::CallService { method, bdf: bdfs[done + k] }),
    decreases replies.len(),
{
    let j = JobOf::Batch { method, bdfs, done, success };
    let effs = effects_made(j, replies);
    if k > 0 {
        let r0 = replies[0];
        let j2 = job_step(j, r0).next->Some_0;
        assert(j2 == JobOf::Batch { method, bdfs, done: (done + 1) as usize, success });
        let rest = effects_made(j2, replies.drop_first());
        assert(effs == seq![effect_of(j)] + rest);
        assert(effs[k] == rest[k - 1]);
        lemma_batch_calls(method, bdfs, (done + 1) as usize, success, replies.drop_first(), k - 1);
    } else {
        if replies.len() > 0 && replies_to(effect_of(j), replies[0]) {
            if let Some(j2) = job_step(j, replies[0]).next {
                assert(effs == seq![effect_of(j)] + effects_made(j2, replies.drop_first()));
            }
        }
        assert(effs[0] == effect_of(j));
    }
}

/// A group command calls the service on the group's addresses one at a time,
/// in order: whatever the replies, its `k`-th call is on the `k`-th address
/// (a failed call ends the batch, so the calls made are always a prefix).
pub proof fn law_batch_calls_in_order(
    method: Seq<char>,
    bdfs: Seq<Seq<char>>,
    success: Seq<char>,
    replies: Seq<WorkerReplyModel>,
    k: int,
)
    requires
        0 <= k < bdfs.len() <= usize::MAX,
        k < effects_made(JobOf::Batch { method, bdfs, done: 0, success }, replies).len(),
    ensures
        effects_made(JobOf::Batch { method, bdfs, done: 0, success }, replies)[k]
            == (EffectOf::CallService { method, bdf: bdfs[k] }),
{
    lemma_batch_calls(method, bdfs, 0, success, replies, k);
}


/// How many more effects a job may ask for at most, counting the pending one.
pub open spec fn effects_left(j: JobModel) -> nat {
    match j {
        JobOf::Batch { bdfs, done, .. } => (bdfs.len() - done + 1) as nat,
        _ => 1,
    }
}

/// Every answered effect moves a job on: it ends, or goes on with fewer
/// effects left; a batch on `n` addresses asks for at most `n + 1` effects
/// (its calls and the follow-up fetch).
pub proof fn law_jobs_move_on(j: JobModel, r: WorkerReplyModel)
    requires
        job_wf(j),
        replies_to(effect_of(j), r),
    ensures
        job_step(j, r).next matches Some(j2) ==> effects_left(j2) < effects_left(j),
{
}

} // verus!
