use nvbind::sysfs::{
    bind_to_native_driver, bind_to_vfio, dev_paths, fits, unbind, BindError, BindErrorOf,
    ProcessReportOf, ProgressOf, Reply, ReplyOf, Request, RequestOf, Task, WriteFailureOf,
};

const BDF: &str = "0000:01:00.0";

fn drive(mut task: Task, replies: Vec<Reply>) -> (Vec<Request>, Option<Result<(), BindError>>) {
    let mut requests = vec![];
    for reply in replies {
        let q = task.request();
        assert!(fits(&q, &reply));
        requests.push(q);
        match task.resume(reply) {
            ProgressOf::Next(t) => task = t,
            ProgressOf::Finished(r) => return (requests, Some(r)),
        }
    }
    requests.push(task.request());
    (requests, None)
}

fn s(x: &str) -> String {
    x.to_string()
}

fn write(path: &str, value: &str) -> Request {
    RequestOf::Write { path: s(path), value: s(value) }
}

fn path_check(path: &str) -> Request {
    RequestOf::CheckExists { path: s(path) }
}

fn written() -> Reply {
    ReplyOf::Written(Ok(()))
}

fn write_failed(busy: bool, reason: &str) -> Reply {
    ReplyOf::Written(Err(WriteFailureOf { busy, reason: s(reason) }))
}

fn ran(success: bool, status: &str, stdout: &[u8]) -> Reply {
    ReplyOf::Ran(Ok(ProcessReportOf { success, status: s(status), stdout: stdout.to_vec() }))
}

fn link(target: &str) -> Reply {
    ReplyOf::LinkRead(Some(s(target)))
}

/// The `class` file of an HD audio function.
fn audio_class() -> Reply {
    ReplyOf::FileRead(Ok(s("0x040300\n")))
}

/// The `class` file of a VGA display function.
fn vga_class() -> Reply {
    ReplyOf::FileRead(Ok(s("0x030000\n")))
}

fn read_class(bdf: &str) -> Request {
    RequestOf::ReadFile { path: format!("/sys/bus/pci/devices/{}/class", bdf) }
}

#[test]
fn device_paths() {
    let (dev, link, over) = dev_paths(BDF);
    assert_eq!(dev, "/sys/bus/pci/devices/0000:01:00.0");
    assert_eq!(link, "/sys/bus/pci/devices/0000:01:00.0/driver");
    assert_eq!(over, "/sys/bus/pci/devices/0000:01:00.0/driver_override");
}

#[test]
fn unbind_writes_to_current_driver() {
    let (qs, end) = drive(unbind(BDF), vec![link("../../../../bus/pci/drivers/nvidia"), written()]);
    assert_eq!(
        qs,
        vec![
            RequestOf::ReadLink { path: s("/sys/bus/pci/devices/0000:01:00.0/driver") },
            write("/sys/bus/pci/drivers/nvidia/unbind", BDF),
        ]
    );
    assert_eq!(end, Some(Ok(())));
}

#[test]
fn unbind_driverless_device_does_nothing() {
    let (qs, end) = drive(unbind(BDF), vec![ReplyOf::LinkRead(None)]);
    assert_eq!(qs.len(), 1);
    assert_eq!(end, Some(Ok(())));
}

#[test]
fn unbind_reports_failed_write() {
    let (_, end) = drive(
        unbind(BDF),
        vec![link("../drivers/nvidia"), write_failed(false, "Permission denied (os error 13)")],
    );
    let err = end.unwrap().unwrap_err();
    assert_eq!(
        err,
        BindErrorOf::Write {
            path: s("/sys/bus/pci/drivers/nvidia/unbind"),
            reason: s("Permission denied (os error 13)")
        }
    );
    assert_eq!(
        err.message(),
        "write to /sys/bus/pci/drivers/nvidia/unbind: Permission denied (os error 13)"
    );
}

#[test]
fn native_bind_full_run() {
    // The class cannot be read, so the modalias decides.
    let replies = vec![
        ReplyOf::FileRead(Err(s("No such file or directory (os error 2)"))),
        ReplyOf::FileRead(Ok(s("pci:v000010DEd00001B80sv00001043sd000085A4bc03sc00i00\n"))),
        ran(true, "exit status: 0", b"nouveau\nnvidia\n"),
        ReplyOf::Existence(false),
        ran(true, "exit status: 0", b""),
        ReplyOf::Existence(true),
        write_failed(false, "ignored"),
        link("../../../../bus/pci/drivers/vfio-pci"),
        written(),
        written(),
    ];
    let (qs, end) = drive(bind_to_native_driver(BDF), replies);
    assert_eq!(
        qs,
        vec![
            read_class(BDF),
            RequestOf::ReadFile { path: s("/sys/bus/pci/devices/0000:01:00.0/modalias") },
            RequestOf::ResolveAlias {
                alias: s("pci:v000010DEd00001B80sv00001043sd000085A4bc03sc00i00")
            },
            path_check("/sys/bus/pci/drivers/nvidia"),
            RequestOf::LoadModule { module: s("nvidia") },
            path_check("/sys/bus/pci/devices/0000:01:00.0/driver_override"),
            write("/sys/bus/pci/devices/0000:01:00.0/driver_override", "\n"),
            RequestOf::ReadLink { path: s("/sys/bus/pci/devices/0000:01:00.0/driver") },
            write("/sys/bus/pci/drivers/vfio-pci/unbind", BDF),
            write("/sys/bus/pci/drivers/nvidia/bind", BDF),
        ]
    );
    assert_eq!(end, Some(Ok(())));
}

#[test]
fn native_bind_when_already_bound_stops() {
    let replies = vec![
        audio_class(),
        ReplyOf::FileRead(Ok(s("pci:v000010DE\n"))),
        ran(true, "exit status: 0", b"nvidia\n"),
        ReplyOf::Existence(true),
        ReplyOf::Existence(false),
        link("../drivers/nvidia"),
    ];
    let (qs, end) = drive(bind_to_native_driver(BDF), replies);
    assert_eq!(qs.len(), 6);
    assert_eq!(end, Some(Ok(())));
}

#[test]
fn native_bind_without_current_driver_binds() {
    let replies = vec![
        audio_class(),
        ReplyOf::FileRead(Ok(s("pci:v000010DEd1\n"))),
        ran(true, "exit status: 0", b"snd_hda_intel\n"),
        ReplyOf::Existence(true),
        ReplyOf::Existence(false),
        ReplyOf::LinkRead(None),
        written(),
    ];
    let (qs, end) = drive(bind_to_native_driver("0000:01:00.1"), replies);
    assert_eq!(qs[0], read_class("0000:01:00.1"));
    assert_eq!(qs[1], RequestOf::ReadFile { path: s("/sys/bus/pci/devices/0000:01:00.1/modalias") });
    assert_eq!(qs[6], write("/sys/bus/pci/drivers/snd_hda_intel/bind", "0000:01:00.1"));
    assert_eq!(end, Some(Ok(())));
}

fn native_error(replies: Vec<Reply>) -> BindError {
    let mut all = vec![audio_class()];
    all.extend(replies);
    let (_, end) = drive(bind_to_native_driver(BDF), all);
    end.unwrap().unwrap_err()
}

#[test]
fn native_bind_unreadable_modalias() {
    let e = native_error(vec![ReplyOf::FileRead(Err(s("No such file or directory (os error 2)")))]);
    assert_eq!(
        e.message(),
        "read /sys/bus/pci/devices/0000:01:00.0/modalias: No such file or directory (os error 2)"
    );
}

#[test]
fn native_bind_empty_modalias() {
    let e = native_error(vec![ReplyOf::FileRead(Ok(s(" \n")))]);
    assert_eq!(e, BindErrorOf::EmptyModalias { device: s("/sys/bus/pci/devices/0000:01:00.0") });
    assert_eq!(e.message(), "device /sys/bus/pci/devices/0000:01:00.0 has empty modalias");
}

#[test]
fn native_bind_resolver_not_started() {
    let e = native_error(vec![
        ReplyOf::FileRead(Ok(s("pci:x"))),
        ReplyOf::Ran(Err(s("No such file or directory (os error 2)"))),
    ]);
    assert_eq!(e.message(), "resolve driver via modprobe: No such file or directory (os error 2)");
}

#[test]
fn native_bind_resolver_failed() {
    let e = native_error(vec![ReplyOf::FileRead(Ok(s("pci:x"))), ran(false, "exit status: 1", b"")]);
    assert_eq!(e.message(), "modprobe --resolve-alias pci:x failed with status exit status: 1");
}

#[test]
fn native_bind_resolver_output_not_utf8() {
    let e = native_error(vec![ReplyOf::FileRead(Ok(s("pci:x"))), ran(true, "exit status: 0", &[0x6e, 0xff])]);
    match &e {
        BindErrorOf::ResolveOutput { reason } => assert!(!reason.is_empty()),
        other => panic!("unexpected {:?}", other),
    }
    assert!(e.message().starts_with("parse modprobe output: "));
}

#[test]
fn native_bind_no_module() {
    let e = native_error(vec![ReplyOf::FileRead(Ok(s("pci:x"))), ran(true, "exit status: 0", b"\n  \n")]);
    assert_eq!(e.message(), "no driver module found for alias pci:x");
}

#[test]
fn native_bind_module_load_not_started() {
    let e = native_error(vec![
        ReplyOf::FileRead(Ok(s("pci:x"))),
        ran(true, "exit status: 0", b"nvidia"),
        ReplyOf::Existence(false),
        ReplyOf::Ran(Err(s("Permission denied (os error 13)"))),
    ]);
    assert_eq!(e.message(), "spawn modprobe: Permission denied (os error 13)");
}

#[test]
fn native_bind_module_load_failed() {
    let e = native_error(vec![
        ReplyOf::FileRead(Ok(s("pci:x"))),
        ran(true, "exit status: 0", b"nvidia"),
        ReplyOf::Existence(false),
        ran(false, "exit status: 1", b""),
    ]);
    assert_eq!(e.message(), "modprobe nvidia failed with status exit status: 1");
}

#[test]
fn native_bind_unbind_failed() {
    let e = native_error(vec![
        ReplyOf::FileRead(Ok(s("pci:x"))),
        ran(true, "exit status: 0", b"nvidia"),
        ReplyOf::Existence(true),
        ReplyOf::Existence(false),
        link("../drivers/vfio-pci"),
        write_failed(true, "Device or resource busy (os error 16)"),
    ]);
    assert_eq!(
        e.message(),
        "write to /sys/bus/pci/drivers/vfio-pci/unbind: Device or resource busy (os error 16)"
    );
}

#[test]
fn native_bind_bind_failed() {
    let e = native_error(vec![
        ReplyOf::FileRead(Ok(s("pci:x"))),
        ran(true, "exit status: 0", b"nvidia"),
        ReplyOf::Existence(true),
        ReplyOf::Existence(false),
        ReplyOf::LinkRead(None),
        write_failed(false, "No such device (os error 19)"),
    ]);
    assert_eq!(
        e,
        BindErrorOf::Write {
            path: s("/sys/bus/pci/drivers/nvidia/bind"),
            reason: s("No such device (os error 19)")
        }
    );
}

#[test]
fn vfio_bind_full_run() {
    let replies = vec![
        ReplyOf::Existence(true),
        written(),
        ReplyOf::Existence(true),
        written(),
        written(),
        write_failed(false, "ignored"),
    ];
    let (qs, end) = drive(bind_to_vfio(BDF), replies);
    assert_eq!(
        qs,
        vec![
            path_check("/sys/bus/pci/drivers/vfio-pci"),
            write("/sys/bus/pci/devices/0000:01:00.0/driver_override", "vfio-pci\n"),
            path_check("/sys/bus/pci/devices/0000:01:00.0/driver"),
            write("/sys/bus/pci/devices/0000:01:00.0/driver/unbind", "0000:01:00.0\n"),
            write("/sys/bus/pci/drivers/vfio-pci/bind", "0000:01:00.0\n"),
            write("/sys/bus/pci/devices/0000:01:00.0/driver_override", "\n"),
        ]
    );
    assert_eq!(end, Some(Ok(())));
}

#[test]
fn vfio_bind_loads_module_and_skips_unbind() {
    let replies = vec![
        ReplyOf::Existence(false),
        ran(true, "exit status: 0", b""),
        written(),
        ReplyOf::Existence(false),
        written(),
        written(),
    ];
    let (qs, end) = drive(bind_to_vfio(BDF), replies);
    assert_eq!(qs[1], RequestOf::LoadModule { module: s("vfio-pci") });
    assert_eq!(qs[4], write("/sys/bus/pci/drivers/vfio-pci/bind", "0000:01:00.0\n"));
    assert_eq!(end, Some(Ok(())));
}

fn vfio_error(replies: Vec<Reply>) -> BindError {
    let (_, end) = drive(bind_to_vfio(BDF), replies);
    end.unwrap().unwrap_err()
}

#[test]
fn vfio_bind_busy_device() {
    let e = vfio_error(vec![
        ReplyOf::Existence(true),
        written(),
        ReplyOf::Existence(true),
        write_failed(true, "Device or resource busy (os error 16)"),
    ]);
    assert_eq!(e, BindErrorOf::DeviceBusy { bdf: s(BDF) });
    assert_eq!(
        e.message(),
        "unbind from current driver: device 0000:01:00.0 is busy; close users (Xorg/Wayland, CUDA, nvidia-persistenced) and retry"
    );
}

#[test]
fn vfio_bind_unbind_failed() {
    let e = vfio_error(vec![
        ReplyOf::Existence(true),
        written(),
        ReplyOf::Existence(true),
        write_failed(false, "Permission denied (os error 13)"),
    ]);
    assert_eq!(
        e.message(),
        "unbind from current driver: write to /sys/bus/pci/devices/0000:01:00.0/driver/unbind: Permission denied (os error 13)"
    );
}

#[test]
fn vfio_bind_override_failed() {
    let e = vfio_error(vec![ReplyOf::Existence(true), write_failed(false, "Permission denied (os error 13)")]);
    assert_eq!(
        e.message(),
        "set driver_override=vfio-pci: write to /sys/bus/pci/devices/0000:01:00.0/driver_override: Permission denied (os error 13)"
    );
}

#[test]
fn vfio_bind_bind_failed() {
    let e = vfio_error(vec![
        ReplyOf::Existence(true),
        written(),
        ReplyOf::Existence(false),
        write_failed(false, "Invalid argument (os error 22)"),
    ]);
    assert_eq!(
        e.message(),
        "bind to vfio-pci: write to /sys/bus/pci/drivers/vfio-pci/bind: Invalid argument (os error 22)"
    );
}

#[test]
fn vfio_bind_module_failed() {
    let e = vfio_error(vec![ReplyOf::Existence(false), ran(false, "exit status: 1", b"")]);
    assert_eq!(
        e,
        BindErrorOf::ModprobeFailed { module: s("vfio-pci"), status: s("exit status: 1") }
    );
    assert_eq!(e.message(), "modprobe vfio-pci failed with status exit status: 1");
}

#[test]
fn vfio_bind_module_not_started() {
    let e = vfio_error(vec![ReplyOf::Existence(false), ReplyOf::Ran(Err(s("boom")))]);
    assert_eq!(e, BindErrorOf::SpawnModprobe { reason: s("boom") });
}

#[test]
fn replies_must_fit_requests() {
    let q = unbind(BDF).request();
    assert!(fits(&q, &ReplyOf::LinkRead(None)));
    assert!(!fits(&q, &ReplyOf::Existence(true)));
}

#[test]
fn vfio_never_rebinds_before_override() {
    // Any run: the override write comes before any other write.
    let replies = vec![
        ReplyOf::Existence(true),
        written(),
        ReplyOf::Existence(true),
        written(),
        written(),
        written(),
    ];
    let (qs, _) = drive(bind_to_vfio(BDF), replies);
    let first_write = qs.iter().position(|q| matches!(q, RequestOf::Write { .. })).unwrap();
    assert_eq!(
        qs[first_write],
        write("/sys/bus/pci/devices/0000:01:00.0/driver_override", "vfio-pci\n")
    );
}

#[test]
fn every_operation_finishes_within_its_bound() {
    let (qs, end) = drive(unbind(BDF), vec![link("x/nvidia"), written()]);
    assert!(qs.len() <= 2 && end.is_some());
}

#[test]
fn native_bind_display_function_goes_to_nvidia() {
    // Bound to nouveau; nvidia is not loaded yet. The modalias is never read.
    let replies = vec![
        vga_class(),
        ReplyOf::Existence(false),
        ran(true, "exit status: 0", b""),
        ReplyOf::Existence(false),
        link("../../../../bus/pci/drivers/nouveau"),
        written(),
        written(),
    ];
    let (qs, end) = drive(bind_to_native_driver(BDF), replies);
    assert_eq!(
        qs,
        vec![
            read_class(BDF),
            path_check("/sys/bus/pci/drivers/nvidia"),
            RequestOf::LoadModule { module: s("nvidia") },
            path_check("/sys/bus/pci/devices/0000:01:00.0/driver_override"),
            RequestOf::ReadLink { path: s("/sys/bus/pci/devices/0000:01:00.0/driver") },
            write("/sys/bus/pci/drivers/nouveau/unbind", BDF),
            write("/sys/bus/pci/drivers/nvidia/bind", BDF),
        ]
    );
    assert_eq!(end, Some(Ok(())));
}

#[test]
fn native_bind_display_function_already_on_nvidia() {
    let replies = vec![
        ReplyOf::FileRead(Ok(s("0x030200"))),
        ReplyOf::Existence(true),
        ReplyOf::Existence(false),
        link("../drivers/nvidia"),
    ];
    let (qs, end) = drive(bind_to_native_driver(BDF), replies);
    assert_eq!(qs.len(), 4);
    assert!(qs.iter().all(|q| !matches!(q, RequestOf::Write { .. } | RequestOf::ResolveAlias { .. })));
    assert_eq!(end, Some(Ok(())));
}

#[test]
fn native_bind_audio_function_follows_modalias() {
    // An audio function whose modalias resolves to snd_hda_intel only.
    let replies = vec![
        audio_class(),
        ReplyOf::FileRead(Ok(s("pci:v000010DEd000010F0sv00001043sd000085A4bc04sc03i00\n"))),
        ran(true, "exit status: 0", b"snd_hda_intel\n"),
        ReplyOf::Existence(true),
        ReplyOf::Existence(false),
        link("../drivers/vfio-pci"),
        written(),
        written(),
    ];
    let (qs, end) = drive(bind_to_native_driver("0000:01:00.1"), replies);
    assert_eq!(qs[2], RequestOf::ResolveAlias {
        alias: s("pci:v000010DEd000010F0sv00001043sd000085A4bc04sc03i00")
    });
    assert_eq!(qs[6], write("/sys/bus/pci/drivers/vfio-pci/unbind", "0000:01:00.1"));
    assert_eq!(qs[7], write("/sys/bus/pci/drivers/snd_hda_intel/bind", "0000:01:00.1"));
    assert_eq!(end, Some(Ok(())));
}

#[test]
fn native_bind_near_display_classes_are_not_display() {
    // 0x0300 with a sub-class is display; 0x04 (audio), 0x0c (USB) and a
    // malformed value are not, and go through the modalias.
    for class in ["0x040300", "0x0c0330", "0x3", ""] {
        let replies = vec![ReplyOf::FileRead(Ok(s(class)))];
        let (qs, _) = drive(bind_to_native_driver(BDF), replies);
        assert_eq!(qs[1], RequestOf::ReadFile { path: s("/sys/bus/pci/devices/0000:01:00.0/modalias") });
    }
    let (qs, _) = drive(bind_to_native_driver(BDF), vec![ReplyOf::FileRead(Ok(s("  0x038000\n")))]);
    assert_eq!(qs[1], path_check("/sys/bus/pci/drivers/nvidia"));
}

#[test]
fn native_bind_again_only_clears_override() {
    // Already on snd_hda_intel, module loaded, override file present.
    let replies = vec![
        audio_class(),
        ReplyOf::FileRead(Ok(s("pci:v000010DEd000010F0\n"))),
        ran(true, "exit status: 0", b"snd_hda_intel\n"),
        ReplyOf::Existence(true),
        ReplyOf::Existence(true),
        written(),
        link("../../../../bus/pci/drivers/snd_hda_intel"),
    ];
    let (qs, end) = drive(bind_to_native_driver(BDF), replies);
    let writes: Vec<&Request> = qs.iter().filter(|q| matches!(q, RequestOf::Write { .. })).collect();
    assert_eq!(writes, vec![&write("/sys/bus/pci/devices/0000:01:00.0/driver_override", "\n")]);
    assert_eq!(end, Some(Ok(())));
}

#[test]
fn unbind_again_writes_nothing() {
    let (qs, end) = drive(unbind(BDF), vec![ReplyOf::LinkRead(None)]);
    assert_eq!(qs, vec![RequestOf::ReadLink { path: s("/sys/bus/pci/devices/0000:01:00.0/driver") }]);
    assert_eq!(end, Some(Ok(())));
}
