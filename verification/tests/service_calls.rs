use nvbind::daemon::{
    authorization_verdict, check_sender_name, operation_outcome, polkit_query, start_call, ActionOf, Handling,
    HandlingOf, Method,
};
use nvbind::sysfs::{bind_to_native_driver, bind_to_vfio, unbind, BindErrorOf};

fn advance(h: Handling, outcome: Result<(), String>) -> Handling {
    match h {
        HandlingOf::Pending { call, .. } => call.resume(outcome),
        HandlingOf::Respond(_) => panic!("already answered"),
    }
}

#[test]
fn call_without_sender_is_refused() {
    assert_eq!(
        start_call(Method::Unbind, "0000:01:00.0", None),
        HandlingOf::Respond(Err("no sender".to_string()))
    );
}

#[test]
fn bind_to_nvidia_authorizes_unbinds_then_binds() {
    let h = start_call(Method::BindToNvidia, "0000:01:00.0", Some(":1.42".to_string()));
    match &h {
        HandlingOf::Pending { action, .. } => assert_eq!(*action, ActionOf::Authorize { sender: ":1.42".to_string() }),
        _ => panic!(),
    }
    let h = advance(h, Ok(()));
    match &h {
        HandlingOf::Pending { action, .. } => assert_eq!(*action, ActionOf::Run(unbind("0000:01:00.0"))),
        _ => panic!(),
    }
    let h = advance(h, Ok(()));
    match &h {
        HandlingOf::Pending { action, .. } => {
            assert_eq!(*action, ActionOf::Run(bind_to_native_driver("0000:01:00.0")))
        }
        _ => panic!(),
    }
    assert_eq!(advance(h, Ok(())), HandlingOf::Respond(Ok(())));
}

#[test]
fn bind_to_vfio_binds_to_vfio() {
    let h = start_call(Method::BindToVfio, "0000:01:00.0", Some(":1.7".to_string()));
    let h = advance(advance(h, Ok(())), Ok(()));
    match &h {
        HandlingOf::Pending { action, .. } => assert_eq!(*action, ActionOf::Run(bind_to_vfio("0000:01:00.0"))),
        _ => panic!(),
    }
}

#[test]
fn unbind_method_stops_after_unbinding() {
    let h = start_call(Method::Unbind, "0000:01:00.0", Some(":1.7".to_string()));
    let h = advance(advance(h, Ok(())), Ok(()));
    assert_eq!(h, HandlingOf::Respond(Ok(())));
}

#[test]
fn refused_authorization_changes_nothing() {
    let h = start_call(Method::BindToVfio, "0000:01:00.0", Some(":1.7".to_string()));
    let verdict = authorization_verdict(false);
    assert_eq!(verdict, Err("Polkit: not authorized".to_string()));
    assert_eq!(advance(h, verdict), HandlingOf::Respond(Err("Polkit: not authorized".to_string())));
    assert_eq!(authorization_verdict(true), Ok(()));
}

#[test]
fn failed_operation_is_the_answer() {
    let h = start_call(Method::BindToNvidia, "0000:01:00.0", Some(":1.7".to_string()));
    let h = advance(h, Ok(()));
    let outcome = operation_outcome(Err(BindErrorOf::DeviceBusy { bdf: "0000:01:00.0".to_string() }));
    let answer = advance(h, outcome);
    match answer {
        HandlingOf::Respond(Err(m)) => assert!(m.starts_with("unbind from current driver: device 0000:01:00.0 is busy")),
        other => panic!("unexpected {:?}", other),
    }
    assert_eq!(operation_outcome(Ok(())), Ok(()));
}

#[test]
fn polkit_question() {
    let q = polkit_query(4242, 1000);
    assert_eq!(q.subject_kind, "unix-process");
    assert_eq!((q.pid, q.uid, q.start_time, q.flags), (4242, 1000, 0, 1));
    assert_eq!(q.action_id, "org.example.nvbind.manage");
    assert_eq!(q.cancellation_id, "");
    assert!(q.details.is_empty());
    assert_eq!(q.service, "org.freedesktop.PolicyKit1");
    assert_eq!(q.object_path, "/org/freedesktop/PolicyKit1/Authority");
    assert_eq!(q.interface, "org.freedesktop.PolicyKit1.Authority");
    assert_eq!(q.method, "CheckAuthorization");
}

#[test]
fn sender_names_are_checked() {
    assert_eq!(check_sender_name(":1.42"), Ok(()));
    assert_eq!(check_sender_name("org.example.NvBind"), Ok(()));
    assert_eq!(
        check_sender_name("not a name"),
        Err("invalid unique bus name 'not a name': Invalid bus name. See https://dbus.freedesktop.org/doc/dbus-specification.html#message-protocol-names-bus".to_string())
    );
}
