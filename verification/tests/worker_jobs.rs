use nvbind::gpu::Gpu;
use nvbind::menu::CommandOf;
use nvbind::worker::{
    poll_job, start_command, summarize_status, EffectOf, Job, JobOf, JobStep, UiEvent, UiEventOf,
    WorkerReplyOf,
};

fn gpu(bdf: &str, driver: Option<&str>) -> Gpu {
    Gpu {
        bdf: bdf.to_string(),
        vendor: "0x10de".to_string(),
        device: "0x1b80".to_string(),
        driver: driver.map(|d| d.to_string()),
    }
}

fn bdfs(xs: &[&str]) -> Vec<String> {
    xs.iter().map(|x| x.to_string()).collect()
}

#[test]
fn summary_of_devices() {
    let gpus = vec![gpu("0000:01:00.0", Some("nvidia")), gpu("0000:01:00.1", None)];
    assert_eq!(summarize_status(&gpus), "0000:01:00.0 => nvidia\n0000:01:00.1 => none");
    assert_eq!(summarize_status(&[]), "No NVIDIA GPU found");
}

#[test]
fn poll_shows_status_or_error() {
    let job = poll_job();
    assert_eq!(job.effect(), EffectOf::FetchStatus);
    let step = job.resume(WorkerReplyOf::Status(Ok(vec![gpu("0000:01:00.0", None)])));
    assert_eq!(step.events, vec![UiEventOf::SetStatus(vec![gpu("0000:01:00.0", None)])]);
    assert_eq!(step.next, None);
    let step = poll_job().resume(WorkerReplyOf::Status(Err("no bus".to_string())));
    assert_eq!(step.events, vec![UiEventOf::NotifyErr("no bus".to_string())]);
}

#[test]
fn refresh_notifies_summary() {
    let step = start_command(CommandOf::Refresh);
    assert!(step.events.is_empty());
    let job = step.next.unwrap();
    let step = job.resume(WorkerReplyOf::Status(Ok(vec![])));
    assert_eq!(
        step.events,
        vec![UiEventOf::SetStatus(vec![]), UiEventOf::NotifyOk("No NVIDIA GPU found".to_string())]
    );
}

fn run_batch(mut step: JobStep, outcomes: Vec<Result<(), String>>) -> (Vec<String>, Vec<UiEvent>, Option<Job>) {
    let mut calls = vec![];
    let mut events = vec![];
    events.extend(step.events.drain(..));
    let mut job = step.next;
    for o in outcomes {
        let j = job.take().unwrap();
        match j.effect() {
            EffectOf::CallService { method, bdf } => calls.push(format!("{} {}", method, bdf)),
            EffectOf::FetchStatus => panic!("unexpected fetch"),
        }
        let s = j.resume(WorkerReplyOf::Called(o));
        events.extend(s.events);
        job = s.next;
    }
    (calls, events, job)
}

#[test]
fn batch_calls_each_address_then_refreshes() {
    let step = start_command(CommandOf::BindGroupToVfio(bdfs(&["0000:01:00.0", "0000:01:00.1"])));
    let (calls, events, job) = run_batch(step, vec![Ok(()), Ok(())]);
    assert_eq!(calls, vec!["BindToVfio 0000:01:00.0", "BindToVfio 0000:01:00.1"]);
    assert_eq!(events, vec![UiEventOf::NotifyOk("Bound 0000:01:00.0, 0000:01:00.1 to vfio-pci".to_string())]);
    let follow = job.unwrap();
    assert_eq!(follow, JobOf::FollowUp);
    assert_eq!(follow.effect(), EffectOf::FetchStatus);
    let end = follow.resume(WorkerReplyOf::Status(Err("gone".to_string())));
    assert!(end.events.is_empty());
    assert_eq!(end.next, None);
}

#[test]
fn batch_stops_at_first_failure() {
    let step = start_command(CommandOf::BindGroupToNvidia(bdfs(&["a", "b", "c"])));
    let (calls, events, job) = run_batch(step, vec![Ok(()), Err("denied".to_string())]);
    assert_eq!(calls, vec!["BindToNvidia a", "BindToNvidia b"]);
    assert_eq!(events, vec![UiEventOf::NotifyErr("denied".to_string())]);
    assert_eq!(job, None);
}

#[test]
fn unbind_batch_message() {
    let step = start_command(CommandOf::UnbindGroup(bdfs(&["a"])));
    let (calls, events, _) = run_batch(step, vec![Ok(())]);
    assert_eq!(calls, vec!["Unbind a"]);
    assert_eq!(events, vec![UiEventOf::NotifyOk("Unbound a".to_string())]);
}

#[test]
fn empty_batch_succeeds_at_once() {
    let step = start_command(CommandOf::BindGroupToNvidia(vec![]));
    assert_eq!(step.events, vec![UiEventOf::NotifyOk("Bound n/a to host drivers".to_string())]);
    assert_eq!(step.next, Some(JobOf::FollowUp));
}

#[test]
fn job_accepts_matching_replies_only() {
    let job = poll_job();
    assert!(job.accepts(&WorkerReplyOf::Status(Ok(vec![]))));
    assert!(!job.accepts(&WorkerReplyOf::Called(Ok(()))));
}
