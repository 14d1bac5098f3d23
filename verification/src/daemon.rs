//! The D-Bus service's handling of its methods that change a device's
//! binding: each call is authorized through PolicyKit first, then the device
//! is unbound, then (for the bind methods) bound to its new driver.
use vstd::prelude::*;
use crate::sysfs::{
    bind_to_native_driver, bind_to_vfio, error_text, native_start, unbind, unbind_start,
    vfio_start, BindError, Task, TaskModel, TaskOf,
};
use crate::text::{glue4, owned};

verus! {

/// The service's methods that change a device's binding.
#[derive(Debug, Clone, Copy, PartialEq, Eq)]
pub enum Method {
    /// Reattach the device to its host driver.
    BindToNvidia,
    /// Attach the device to `vfio-pci`.
    BindToVfio,
    /// Leave the device without a driver.
    Unbind,
}

/// How far a call has got.
#[derive(Debug, Clone, Copy, PartialEq, Eq)]
pub enum Phase {
    Authorizing,
    Unbinding,
    Binding,
}

/// A call of a method on a device.
#[derive(Debug, PartialEq, Eq)]
pub struct CallOf<T> {
    pub method: Method,
    pub bdf: T,
    pub phase: Phase,
}

/// What the service must do for a call.
#[derive(Debug, PartialEq, Eq)]
pub enum ActionOf<T> {
    /// Ask PolicyKit whether the sender may manage devices.
    Authorize { sender: T },
    /// Carry out a sysfs operation.
    Run(TaskOf<T>),
}

/// Where a call stands: waiting for an action, or answered.
#[derive(Debug, PartialEq, Eq)]
pub enum HandlingOf<T> {
    Pending { call: CallOf<T>, action: ActionOf<T> },
    Respond(Result<(), T>),
}

pub type Call = CallOf<String>;

pub type Action = ActionOf<String>;

pub type Handling = HandlingOf<String>;

pub type CallModel = CallOf<Seq<char>>;

pub type ActionModel = ActionOf<Seq<char>>;

pub type HandlingModel = HandlingOf<Seq<char>>;

impl View for CallOf<String> {
    type V = CallOf<Seq<char>>;

    open spec fn view(&self) -> CallOf<Seq<char>> {
        CallOf { method: self.method, bdf: self.bdf@, phase: self.phase }
    }
}

impl View for ActionOf<String> {
    type V = ActionOf<Seq<char>>;

    open spec fn view(&self) -> ActionOf<Seq<char>> {
        match self {
            ActionOf::Authorize { sender } => ActionOf::Authorize { sender: sender@ },
            ActionOf::Run(t) => ActionOf::Run(t@),
        }
    }
}

impl View for HandlingOf<String> {
    type V = HandlingOf<Seq<char>>;

    open spec fn view(&self) -> HandlingOf<Seq<char>> {
        match self {
            HandlingOf::Pending { call, action } => HandlingOf::Pending {
                call: call@,
                action: action@,
            },
            HandlingOf::Respond(Ok(())) => HandlingOf::Respond(Ok(())),
            HandlingOf::Respond(Err(e)) => HandlingOf::Respond(Err(e@)),
        }
    }
}

/// The PolicyKit action that guards every change of a binding.
pub open spec fn manage_action() -> Seq<char> {
    "org.example.nvbind.manage"@
}

/// How a call starts: without a sender it is refused, else its sender is
/// authorized first.
pub open spec fn call_start(method: Method, bdf: Seq<char>, sender: Option<Seq<char>>) -> HandlingModel {
    match sender {
        None => HandlingOf::Respond(Err("no sender"@)),
        Some(s) => HandlingOf::Pending {
            call: CallOf { method, bdf, phase: Phase::Authorizing },
            action: ActionOf::Authorize { sender: s },
        },
    }
}

/// The operation that binds a device for a method, after unbinding it.
pub open spec fn binding_task(method: Method, bdf: Seq<char>) -> TaskModel {
    if method == Method::BindToNvidia {
        native_start(bdf)
    } else {
        vfio_start(bdf)
    }
}

/// What a call does with the outcome of its action: a failure is the answer;
/// after authorization comes unbinding, after unbinding comes binding (for
/// the bind methods), and then the call succeeds.
pub open spec fn call_step(c: CallModel, outcome: Result<(), Seq<char>>) -> HandlingModel {
    match outcome {
        Err(e) => HandlingOf::Respond(Err(e)),
        Ok(()) => match c.phase {
            Phase::Authorizing => HandlingOf::Pending {
                call: CallOf { phase: Phase::Unbinding, ..c },
                action: ActionOf::Run(unbind_start(c.bdf)),
            },
            Phase::Unbinding => if c.method == Method::Unbind {
                HandlingOf::Respond(Ok(()))
            } else {
                HandlingOf::Pending {
                    call: CallOf { phase: Phase::Binding, ..c },
                    action: ActionOf::Run(binding_task(c.method, c.bdf)),
                }
            },
            Phase::Binding => HandlingOf::Respond(Ok(())),
        },
    }
}

/// Starts handling a call of `method` on `bdf` from `sender`.
pub fn start_call(method: Method, bdf: &str, sender: Option<String>) -> (h: Handling)
    ensures
        h@ == call_start(
            method,
            bdf@,
            match sender {
                Some(s) => Some(s@),
                None => None,
            },
        ),
{
    match sender {
        None => HandlingOf::Respond(Err(owned("no sender"))),
        Some(s) => HandlingOf::Pending {
            call: CallOf { method, bdf: owned(bdf), phase: Phase::Authorizing },
            action: ActionOf::Authorize { sender: s },
        },
    }
}

impl CallOf<String> {
    /// Goes on with the outcome of this call's action.
    pub fn resume(self, outcome: Result<(), String>) -> (h: Handling)
        ensures
            h@ == call_step(
                self@,
                match outcome {
                    Ok(()) => Ok(()),
                    Err(e) => Err(e@),
                },
            ),
    {
        match outcome {
            Err(e) => HandlingOf::Respond(Err(e)),
            Ok(()) => match self.phase {
                Phase::Authorizing => {
                    let task = unbind(self.bdf.as_str());
                    HandlingOf::Pending {
                        call: CallOf { method: self.method, bdf: self.bdf, phase: Phase::Unbinding },
                        action: ActionOf::Run(task),
                    }
                },
                Phase::Unbinding => match self.method {
                    Method::Unbind => HandlingOf::Respond(Ok(())),
                    Method::BindToNvidia => {
                        let task = bind_to_native_driver(self.bdf.as_str());
                        HandlingOf::Pending {
                            call: CallOf { method: self.method, bdf: self.bdf, phase: Phase::Binding },
                            action: ActionOf::Run(task),
                        }
                    },
                    Method::BindToVfio => {
                        let task = bind_to_vfio(self.bdf.as_str());
                        HandlingOf::Pending {
                            call: CallOf { method: self.method, bdf: self.bdf, phase: Phase::Binding },
                            action: ActionOf::Run(task),
                        }
                    },
                },
                Phase::Binding => HandlingOf::Respond(Ok(())),
            },
        }
    }
}

/// The outcome of a sysfs operation as the service reports it: the error's
/// text on failure.
pub fn operation_outcome(r: Result<(), BindError>) -> (o: Result<(), String>)
    ensures
        match r {
            Ok(()) => o is Ok,
            Err(e) => o matches Err(m) && m@ == error_text(e@),
        },
{
    match r {
        Ok(()) => Ok(()),
        Err(e) => Err(e.message()),
    }
}

/// Whether zbus accepts a text as a D-Bus bus name, unique (such as `:1.42`)
/// or well-known (such as `org.example.NvBind`).
pub uninterp spec fn is_bus_name(name: Seq<char>) -> bool;

/// The text of the error zbus gives for a text that is no bus name.
pub open spec fn invalid_bus_name_text() -> Seq<char> {
    "Invalid bus name. See https://dbus.freedesktop.org/doc/dbus-specification.html#message-protocol-names-bus"@
}

/// Calls zbus's `BusName::try_from` on a text; whether it accepts the text
/// is named by `is_bus_name`. When it refuses, its error is
/// `Error::InvalidName` with a fixed message (`INVALID_BUS_NAME_ERROR` in
/// zbus_names' `bus_name.rs`), which its `Display` prints as it is.
#[verifier::external_body]
fn parse_bus_name(name: &str) -> (r: Result<(), String>)
    ensures
        r is Ok <==> is_bus_name(name@),
        r is Err ==> r->Err_0@ == invalid_bus_name_text(),
{
    match zbus::names::BusName::try_from(name) {
        Ok(_) => Ok(()),
        Err(e) => Err(e.to_string()),
    }
}

/// Checks the caller's unique bus name before the service asks the bus for
/// its process and user; a refusal names the sender and zbus's reason.
pub fn check_sender_name(sender: &str) -> (r: Result<(), String>)
    ensures
        r is Ok <==> is_bus_name(sender@),
        r is Err ==> r->Err_0@ == "invalid unique bus name '"@ + sender@ + "': "@
            + invalid_bus_name_text(),
{
    match parse_bus_name(sender) {
        Ok(()) => Ok(()),
        Err(reason) => Err(glue4("invalid unique bus name '", sender, "': ", reason.as_str())),
    }
}

/// PolicyKit's answer as the service reports it.
pub fn authorization_verdict(authorized: bool) -> (o: Result<(), String>)
    ensures
        authorized <==> o is Ok,
        o matches Err(m) ==> m@ == "Polkit: not authorized"@,
{
    if authorized {
        Ok(())
    } else {
        Err(owned("Polkit: not authorized"))
    }
}

/// What the service asks PolicyKit: a `CheckAuthorization` call on the
/// authority object, asking whether the process (a `unix-process` subject
/// with its pid, uid and an unknown start time of 0) may perform the manage
/// action, with no details, allowing user interaction (flag 1), with no
/// cancellation id.
#[derive(Debug, PartialEq, Eq)]
pub struct PolkitQuery {
    /// The bus name of the PolicyKit authority.
    pub service: String,
    /// Its object path.
    pub object_path: String,
    /// Its interface.
    pub interface: String,
    /// The method called.
    pub method: String,
    pub subject_kind: String,
    pub pid: u32,
    pub uid: u32,
    pub start_time: u64,
    pub action_id: String,
    /// The details passed with the question, as key/value pairs.
    pub details: Vec<(String, String)>,
    pub flags: u32,
    pub cancellation_id: String,
}

/// The PolicyKit question for the process with the given pid and uid.
pub fn polkit_query(pid: u32, uid: u32) -> (q: PolkitQuery)
    ensures
        q.service@ == "org.freedesktop.PolicyKit1"@,
        q.object_path@ == "/org/freedesktop/PolicyKit1/Authority"@,
        q.interface@ == "org.freedesktop.PolicyKit1.Authority"@,
        q.method@ == "CheckAuthorization"@,
        q.subject_kind@ == "unix-process"@,
        q.pid == pid,
        q.uid == uid,
        q.start_time == 0,
        q.action_id@ == manage_action(),
        q.details@.len() == 0,
        q.flags == 1,
        q.cancellation_id@ == ""@,
{
    PolkitQuery {
        service: owned("org.freedesktop.PolicyKit1"),
        object_path: owned("/org/freedesktop/PolicyKit1/Authority"),
        interface: owned("org.freedesktop.PolicyKit1.Authority"),
        method: owned("CheckAuthorization"),
        subject_kind: owned("unix-process"),
        pid,
        uid,
        start_time: 0,
        action_id: owned("org.example.nvbind.manage"),
        details: Vec::new(),
        flags: 1,
        cancellation_id: owned(""),
    }
}

/// The actions a call asks for, in order, when they have the given outcomes.
pub open spec fn actions_taken(h: HandlingModel, outcomes: Seq<Result<(), Seq<char>>>) -> Seq<
    ActionModel,
>
    decreases outcomes.len(),
{
    match h {
        HandlingOf::Respond(_) => Seq::empty(),
        HandlingOf::Pending { call, action } => if outcomes.len() == 0 {
            seq![action]
        } else {
            seq![action] + actions_taken(call_step(call, outcomes[0]), outcomes.drop_first())
        },
    }
}

/// Every change of a binding is authorized first: whatever the outcomes, a
/// call's first action asks PolicyKit about its sender, and a sysfs
/// operation runs only after PolicyKit said yes. A call without a sender
/// does nothing.
pub proof fn law_authorized_before_any_change(
    method: Method,
    bdf: Seq<char>,
    sender: Option<Seq<char>>,
    outcomes: Seq<Result<(), Seq<char>>>,
    k: int,
)
    requires
        0 <= k < actions_taken(call_start(method, bdf, sender), outcomes).len(),
        (actions_taken(call_start(method, bdf, sender), outcomes)[k] is Run),
    ensures
        sender is Some,
        actions_taken(call_start(method, bdf, sender), outcomes)[0] == (ActionOf::Authorize {
            sender: sender->Some_0,
        }),
        k >= 1,
        outcomes.len() >= 1,
        outcomes[0] is Ok,
{
    let acts = actions_taken(call_start(method, bdf, sender), outcomes);
    assert(sender is Some);
    if outcomes.len() == 0 {
        assert(acts =~= seq![ActionOf::Authorize { sender: sender->Some_0 }]);
    } else {
        assert(acts[0] == ActionOf::Authorize { sender: sender->Some_0 });
        if outcomes[0] is Err {
            let h0 = call_start(method, bdf, sender);
            let h1 = call_step(h0->Pending_call, outcomes[0]);
            assert(h1 is Respond);
            assert(actions_taken(h1, outcomes.drop_first()) =~= Seq::<ActionModel>::empty());
            assert(acts =~= seq![ActionOf::Authorize { sender: sender->Some_0 }]);
        }
    }
}

/// The bind methods unbind the device before binding it: when every action
/// succeeds, a call authorizes, unbinds the device, then (for a bind method)
/// binds it to its host driver or to `vfio-pci`, and answers success.
pub proof fn law_unbind_then_bind(
    method: Method,
    bdf: Seq<char>,
    sender: Seq<char>,
    outcomes: Seq<Result<(), Seq<char>>>,
)
    requires
        outcomes.len() == 3,
        forall|i: int| 0 <= i < 3 ==> outcomes[i] is Ok,
    ensures
        actions_taken(call_start(method, bdf, Some(sender)), outcomes) == if method == Method::Unbind {
            seq![ActionOf::Authorize { sender }, ActionOf::Run(unbind_start(bdf))]
        } else {
            seq![
                ActionOf::Authorize { sender },
                ActionOf::Run(unbind_start(bdf)),
                ActionOf::Run(binding_task(method, bdf)),
            ]
        },
{
    let h0 = call_start(method, bdf, Some(sender));
    let c0 = h0->Pending_call;
    let h1 = call_step(c0, outcomes[0]);
    let o1 = outcomes.drop_first();
    let h2 = call_step(h1->Pending_call, o1[0]);
    let o2 = o1.drop_first();
    assert(o1[0] == outcomes[1]);
    assert(o2[0] == outcomes[2]);
    assert(actions_taken(h0, outcomes) == seq![ActionOf::Authorize { sender }] + actions_taken(
        h1,
        o1,
    ));
    assert(h1 == HandlingOf::Pending {
        call: CallOf { method, bdf, phase: Phase::Unbinding },
        action: ActionOf::Run(unbind_start(bdf)),
    });
    assert(actions_taken(h1, o1) == seq![ActionOf::Run(unbind_start(bdf))] + actions_taken(h2, o2));
    if method == Method::Unbind {
        assert(h2 is Respond);
        assert(actions_taken(h2, o2) =~= Seq::<ActionModel>::empty());
    } else {
        let h3 = call_step(h2->Pending_call, o2[0]);
        assert(h3 is Respond);
        assert(actions_taken(h3, o2.drop_first()) =~= Seq::<ActionModel>::empty());
        assert(actions_taken(h2, o2) =~= seq![ActionOf::Run(binding_task(method, bdf))]);
    }
}

/// What a call answers when its actions have the given outcomes one by one;
/// nothing while it still waits on an action.
pub open spec fn answer(h: HandlingModel, outcomes: Seq<Result<(), Seq<char>>>) -> Option<
    Result<(), Seq<char>>,
>
    decreases outcomes.len(),
{
    match h {
        HandlingOf::Respond(r) => Some(r),
        HandlingOf::Pending { call, .. } => if outcomes.len() == 0 {
            None
        } else {
            answer(call_step(call, outcomes[0]), outcomes.drop_first())
        },
    }
}

proof fn lemma_failure_is_the_answer(h: HandlingModel, outcomes: Seq<Result<(), Seq<char>>>, i: int)
    requires
        0 <= i < actions_taken(h, outcomes).len(),
        i < outcomes.len(),
        outcomes[i] is Err,
    ensures
        answer(h, outcomes) == Some(outcomes[i]),
    decreases outcomes.len(),
{
    let call = h->Pending_call;
    let h1 = call_step(call, outcomes[0]);
    let rest = outcomes.drop_first();
    assert(h is Pending);
    assert(answer(h, outcomes) == answer(h1, rest));
    if i > 0 {
        assert(actions_taken(h, outcomes) == seq![h->Pending_action] + actions_taken(h1, rest));
        assert(rest[i - 1] == outcomes[i]);
        lemma_failure_is_the_answer(h1, rest, i - 1);
    } else {
        assert(h1 == HandlingOf::<Seq<char>>::Respond(outcomes[0]));
    }
}

proof fn lemma_success_needs_all(h: HandlingModel, outcomes: Seq<Result<(), Seq<char>>>, i: int)
    requires
        answer(h, outcomes) == Some(Ok::<(), Seq<char>>(())),
        0 <= i < actions_taken(h, outcomes).len(),
    ensures
        i < outcomes.len(),
        outcomes[i] is Ok,
    decreases outcomes.len(),
{
    let call = h->Pending_call;
    let h1 = call_step(call, outcomes[0]);
    let rest = outcomes.drop_first();
    assert(h is Pending);
    assert(outcomes.len() > 0);
    assert(answer(h, outcomes) == answer(h1, rest));
    assert(outcomes[0] is Ok) by {
        if outcomes[0] is Err {
            assert(h1 == HandlingOf::<Seq<char>>::Respond(outcomes[0]));
        }
    }
    assert(actions_taken(h, outcomes) == seq![h->Pending_action] + actions_taken(h1, rest));
    if i > 0 {
        lemma_success_needs_all(h1, rest, i - 1);
        assert(rest[i - 1] == outcomes[i]);
    }
}

/// A call answers with the failure of any action it took, whatever its
/// phase: if PolicyKit refuses, the unbind fails or the bind fails, the
/// method returns that error.
pub proof fn law_call_answers_with_failure(
    method: Method,
    bdf: Seq<char>,
    sender: Option<Seq<char>>,
    outcomes: Seq<Result<(), Seq<char>>>,
    i: int,
)
    requires
        0 <= i < actions_taken(call_start(method, bdf, sender), outcomes).len(),
        i < outcomes.len(),
        outcomes[i] is Err,
    ensures
        answer(call_start(method, bdf, sender), outcomes) == Some(outcomes[i]),
{
    lemma_failure_is_the_answer(call_start(method, bdf, sender), outcomes, i);
}

/// A call answers success only when it had a sender and every action it took
/// succeeded, and it took them all: authorization, the unbind, and (for the
/// bind methods) the bind to the host driver for `BindToNvidia` or to
/// `vfio-pci` for `BindToVfio`.
pub proof fn law_call_succeeds_only_when_every_action_did(
    method: Method,
    bdf: Seq<char>,
    sender: Option<Seq<char>>,
    outcomes: Seq<Result<(), Seq<char>>>,
)
    requires
        answer(call_start(method, bdf, sender), outcomes) == Some(Ok::<(), Seq<char>>(())),
    ensures
        sender is Some,
        forall|i: int|
            0 <= i < actions_taken(call_start(method, bdf, sender), outcomes).len() ==> i
                < outcomes.len() && (#[trigger] outcomes[i]) is Ok,
        actions_taken(call_start(method, bdf, sender), outcomes) == if method == Method::Unbind {
            seq![
                ActionOf::Authorize { sender: sender->Some_0 },
                ActionOf::Run(unbind_start(bdf)),
            ]
        } else {
            seq![
                ActionOf::Authorize { sender: sender->Some_0 },
                ActionOf::Run(unbind_start(bdf)),
                ActionOf::Run(binding_task(method, bdf)),
            ]
        },
        method == Method::BindToNvidia ==> actions_taken(call_start(method, bdf, sender), outcomes)[2]
            == ActionOf::Run(native_start(bdf)),
        method == Method::BindToVfio ==> actions_taken(call_start(method, bdf, sender), outcomes)[2]
            == ActionOf::Run(vfio_start(bdf)),
{
    let h0 = call_start(method, bdf, sender);
    assert forall|i: int|
        0 <= i < actions_taken(h0, outcomes).len() implies i < outcomes.len()
            && (#[trigger] outcomes[i]) is Ok by {
        lemma_success_needs_all(h0, outcomes, i);
    }
    let s = sender->Some_0;
    let h1 = call_step(h0->Pending_call, outcomes[0]);
    let o1 = outcomes.drop_first();
    assert(answer(h0, outcomes) == answer(h1, o1));
    assert(actions_taken(h0, outcomes) == seq![ActionOf::Authorize { sender: s }] + actions_taken(
        h1,
        o1,
    ));
    lemma_success_needs_all(h0, outcomes, 0);
    assert(h1 == HandlingOf::Pending {
        call: CallOf { method, bdf, phase: Phase::Unbinding },
        action: ActionOf::Run(unbind_start(bdf)),
    });
    assert(o1.len() > 0);
    let h2 = call_step(h1->Pending_call, o1[0]);
    let o2 = o1.drop_first();
    assert(answer(h1, o1) == answer(h2, o2));
    assert(actions_taken(h1, o1) == seq![ActionOf::Run(unbind_start(bdf))] + actions_taken(h2, o2));
    lemma_success_needs_all(h0, outcomes, 1);
    assert(o1[0] == outcomes[1]);
    if method == Method::Unbind {
        assert(h2 is Respond);
        assert(actions_taken(h2, o2) =~= Seq::<ActionModel>::empty());
    } else {
        assert(h2 is Pending);
        assert(o2.len() > 0);
        let h3 = call_step(h2->Pending_call, o2[0]);
        assert(actions_taken(h2, o2) == seq![ActionOf::Run(binding_task(method, bdf))]
            + actions_taken(h3, o2.drop_first()));
        lemma_success_needs_all(h0, outcomes, 2);
        assert(o2[0] == outcomes[2]);
        assert(h3 is Respond);
        assert(actions_taken(h3, o2.drop_first()) =~= Seq::<ActionModel>::empty());
    }
}

} // verus!
