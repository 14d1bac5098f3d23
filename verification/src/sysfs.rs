//! The three sysfs operations on a PCI function — unbind it, bind it to its
//! host driver, bind it to `vfio-pci` — as state machines. A `Task` names the
//! next request to perform on the system (read a file, follow the `driver`
//! link, test a path, run `modprobe`, write a file); the caller performs it and
//! resumes the task with the reply, until the task finishes with a result.
use vstd::prelude::*;
use vstd::utf8::{decode_utf8, valid_utf8};
use crate::gpu::{
    driver_from_link, driver_modules, driver_of_link, is_display_class, law_picked_driver_is_a_module,
    module_names, names_display_class, pick_driver, preferred_drivers, select_preferred_driver,
};
use crate::text::{
    decode_bytes, glue, glue3, glue4, join_path, joined_path, owned, same_text, trim_text, trimmed,
    utf8_error_text,
};

verus! {

/// Where sysfs lists PCI devices.
pub open spec fn devices_root() -> Seq<char> {
    "/sys/bus/pci/devices"@
}

/// Where sysfs lists PCI drivers.
pub open spec fn drivers_root() -> Seq<char> {
    "/sys/bus/pci/drivers"@
}

/// The sysfs directory of a device.
pub open spec fn device_dir(bdf: Seq<char>) -> Seq<char> {
    "/sys/bus/pci/devices/"@ + bdf
}

/// The sysfs directory of a driver.
pub open spec fn driver_dir(name: Seq<char>) -> Seq<char> {
    "/sys/bus/pci/drivers/"@ + name
}

/// The link from a device to the driver it is bound to.
pub open spec fn link_path(bdf: Seq<char>) -> Seq<char> {
    joined_path(device_dir(bdf), "driver"@)
}

/// The file that overrides which driver may bind a device.
pub open spec fn override_path(bdf: Seq<char>) -> Seq<char> {
    joined_path(device_dir(bdf), "driver_override"@)
}

/// The file holding a device's PCI class code.
pub open spec fn class_path(bdf: Seq<char>) -> Seq<char> {
    joined_path(device_dir(bdf), "class"@)
}

/// The file holding a device's modalias.
pub open spec fn modalias_path(bdf: Seq<char>) -> Seq<char> {
    joined_path(device_dir(bdf), "modalias"@)
}

/// The file that binds a device to `vfio-pci`.
pub open spec fn vfio_bind_path() -> Seq<char> {
    "/sys/bus/pci/drivers/vfio-pci/bind"@
}

/// The unbind file of a driver, as the plain unbind operation builds it.
pub open spec fn unbind_file(driver: Seq<char>) -> Seq<char> {
    joined_path(joined_path(drivers_root(), driver), "unbind"@)
}

/// The sysfs paths of a device: its directory, its `driver` link and its
/// `driver_override` file; for an address that does not end in `/`, the
/// last two are the directory followed by `/driver` and `/driver_override`.
pub fn dev_paths(bdf: &str) -> (r: (String, String, String))
    ensures
        r.0@ == device_dir(bdf@),
        r.1@ == link_path(bdf@),
        r.2@ == override_path(bdf@),
        bdf@.len() > 0 && bdf@.last() != '/' ==> r.1@ == device_dir(bdf@) + "/driver"@ && r.2@
            == device_dir(bdf@) + "/driver_override"@,
{
    let dev = glue("/sys/bus/pci/devices/", bdf);
    proof {
        reveal_strlit("driver");
        reveal_strlit("driver_override");
        if bdf@.len() > 0 {
            assert(dev@.last() == bdf@.last());
        }
    }
    let link = join_path(dev.as_str(), "driver");
    let over = join_path(dev.as_str(), "driver_override");
    proof {
        reveal_strlit("/");
        reveal_strlit("/driver");
        reveal_strlit("/driver_override");
        assert(dev@ + "/"@ + "driver"@ =~= dev@ + "/driver"@);
        assert(dev@ + "/"@ + "driver_override"@ =~= dev@ + "/driver_override"@);
    }
    (dev, link, over)
}

/// Where an operation stands: each stage waits for the reply to one request.
#[derive(Debug, PartialEq, Eq)]
pub enum StageOf<T> {
    /// Unbind: following the `driver` link.
    UnbindReadLink,
    /// Unbind: writing the address to the driver's unbind file.
    UnbindWrite { driver: T },
    /// Host driver: reading the PCI class, to tell a display function (bound
    /// to `nvidia`) from the others (bound to what their modalias resolves to).
    NativeReadClass,
    /// Host driver: reading the modalias.
    NativeReadAlias,
    /// Host driver: resolving the modalias to modules.
    NativeResolve { alias: T },
    /// Host driver: testing whether the chosen driver is loaded.
    NativeDriverDir { driver: T },
    /// Host driver: loading the chosen driver's module.
    NativeLoad { driver: T },
    /// Host driver: testing whether a driver override exists.
    NativeOverrideExists { driver: T },
    /// Host driver: clearing the driver override.
    NativeClearOverride { driver: T },
    /// Host driver: following the `driver` link.
    NativeReadLink { driver: T },
    /// Host driver: unbinding from the current driver.
    NativeUnbindCurrent { driver: T, current: T },
    /// Host driver: binding to the chosen driver.
    NativeBind { driver: T },
    /// VFIO: testing whether `vfio-pci` is loaded.
    VfioDriverDir,
    /// VFIO: loading `vfio-pci`.
    VfioLoad,
    /// VFIO: setting the driver override to `vfio-pci`.
    VfioSetOverride,
    /// VFIO: testing whether the device is bound to a driver.
    VfioLinkExists,
    /// VFIO: unbinding from the current driver.
    VfioUnbind,
    /// VFIO: binding to `vfio-pci`.
    VfioBind,
    /// VFIO: clearing the driver override again.
    VfioClearOverride,
}

/// An operation on one device and the stage it has reached.
#[derive(Debug, PartialEq, Eq)]
pub struct TaskOf<T> {
    pub bdf: T,
    pub stage: StageOf<T>,
}

/// Something to do on the system.
#[derive(Debug, PartialEq, Eq)]
pub enum RequestOf<T> {
    /// Read a file to a string; reply `FileRead`.
    ReadFile { path: T },
    /// Read the target of a symbolic link; reply `LinkRead` (`None` when it
    /// cannot be read).
    ReadLink { path: T },
    /// Test whether a path exists; reply `Existence`.
    CheckExists { path: T },
    /// Run `modprobe --resolve-alias ALIAS`, capturing its output; reply `Ran`.
    ResolveAlias { alias: T },
    /// Run `modprobe MODULE`; reply `Ran`.
    LoadModule { module: T },
    /// Write a value to a file; reply `Written`.
    Write { path: T, value: T },
}

/// How a process ended: whether it succeeded, its exit status as text, and
/// what it printed on standard output.
#[derive(Debug, PartialEq, Eq)]
pub struct ProcessReportOf<T, B> {
    pub success: bool,
    pub status: T,
    pub stdout: B,
}

/// Why a write failed: whether the device was busy, and the error's text.
#[derive(Debug, PartialEq, Eq)]
pub struct WriteFailureOf<T> {
    pub busy: bool,
    pub reason: T,
}

/// The outcome of a request.
#[derive(Debug, PartialEq, Eq)]
pub enum ReplyOf<T, B> {
    /// The file's contents, or the error's text.
    FileRead(Result<T, T>),
    /// The link's target, if it could be read.
    LinkRead(Option<T>),
    /// Whether the path exists.
    Existence(bool),
    /// How the process ended, or why it could not be started.
    Ran(Result<ProcessReportOf<T, B>, T>),
    /// Whether the write succeeded.
    Written(Result<(), WriteFailureOf<T>>),
}

/// Why an operation failed.
#[derive(Debug, PartialEq, Eq)]
pub enum BindErrorOf<T> {
    /// `modprobe` could not be started to load a module.
    SpawnModprobe { reason: T },
    /// `modprobe` failed to load a module.
    ModprobeFailed { module: T, status: T },
    /// The modalias could not be read.
    ReadModalias { path: T, reason: T },
    /// The modalias is empty.
    EmptyModalias { device: T },
    /// `modprobe` could not be started to resolve the modalias.
    ResolveSpawn { reason: T },
    /// `modprobe` failed to resolve the modalias.
    ResolveFailed { alias: T, status: T },
    /// `modprobe` printed something that is not UTF-8.
    ResolveOutput { reason: T },
    /// The modalias resolves to no module.
    NoDriverModule { alias: T },
    /// A write failed.
    Write { path: T, reason: T },
    /// Setting the driver override failed.
    SetOverride { path: T, reason: T },
    /// The device is in use and cannot be unbound.
    DeviceBusy { bdf: T },
    /// Unbinding from the current driver failed.
    UnbindCurrent { path: T, reason: T },
    /// Binding to `vfio-pci` failed.
    BindVfio { path: T, reason: T },
}

/// What an operation does after a reply: go on, or finish with a result.
#[derive(Debug, PartialEq, Eq)]
pub enum ProgressOf<T> {
    Next(TaskOf<T>),
    Finished(Result<(), BindErrorOf<T>>),
}

pub type Stage = StageOf<String>;

pub type Task = TaskOf<String>;

pub type Request = RequestOf<String>;

pub type ProcessReport = ProcessReportOf<String, Vec<u8>>;

pub type WriteFailure = WriteFailureOf<String>;

pub type Reply = ReplyOf<String, Vec<u8>>;

pub type BindError = BindErrorOf<String>;

pub type Progress = ProgressOf<String>;

pub type StageModel = StageOf<Seq<char>>;

pub type TaskModel = TaskOf<Seq<char>>;

pub type RequestModel = RequestOf<Seq<char>>;

pub type ReplyModel = ReplyOf<Seq<char>, Seq<u8>>;

pub type BindErrorModel = BindErrorOf<Seq<char>>;

pub type ProgressModel = ProgressOf<Seq<char>>;

impl View for StageOf<String> {
    type V = StageOf<Seq<char>>;

    open spec fn view(&self) -> StageOf<Seq<char>> {
        match self {
            StageOf::UnbindReadLink => StageOf::UnbindReadLink,
            StageOf::UnbindWrite { driver } => StageOf::UnbindWrite { driver: driver@ },
            StageOf::NativeReadClass => StageOf::NativeReadClass,
            StageOf::NativeReadAlias => StageOf::NativeReadAlias,
            StageOf::NativeResolve { alias } => StageOf::NativeResolve { alias: alias@ },
            StageOf::NativeDriverDir { driver } => StageOf::NativeDriverDir { driver: driver@ },
            StageOf::NativeLoad { driver } => StageOf::NativeLoad { driver: driver@ },
            StageOf::NativeOverrideExists { driver } => StageOf::NativeOverrideExists {
                driver: driver@,
            },
            StageOf::NativeClearOverride { driver } => StageOf::NativeClearOverride {
                driver: driver@,
            },
            StageOf::NativeReadLink { driver } => StageOf::NativeReadLink { driver: driver@ },
            StageOf::NativeUnbindCurrent { driver, current } => StageOf::NativeUnbindCurrent {
                driver: driver@,
                current: current@,
            },
            StageOf::NativeBind { driver } => StageOf::NativeBind { driver: driver@ },
            StageOf::VfioDriverDir => StageOf::VfioDriverDir,
            StageOf::VfioLoad => StageOf::VfioLoad,
            StageOf::VfioSetOverride => StageOf::VfioSetOverride,
            StageOf::VfioLinkExists => StageOf::VfioLinkExists,
            StageOf::VfioUnbind => StageOf::VfioUnbind,
            StageOf::VfioBind => StageOf::VfioBind,
            StageOf::VfioClearOverride => StageOf::VfioClearOverride,
        }
    }
}

impl View for TaskOf<String> {
    type V = TaskOf<Seq<char>>;

    open spec fn view(&self) -> TaskOf<Seq<char>> {
        TaskOf { bdf: self.bdf@, stage: self.stage@ }
    }
}

impl View for RequestOf<String> {
    type V = RequestOf<Seq<char>>;

    open spec fn view(&self) -> RequestOf<Seq<char>> {
        match self {
            RequestOf::ReadFile { path } => RequestOf::ReadFile { path: path@ },
            RequestOf::ReadLink { path } => RequestOf::ReadLink { path: path@ },
            RequestOf::CheckExists { path } => RequestOf::CheckExists { path: path@ },
            RequestOf::ResolveAlias { alias } => RequestOf::ResolveAlias { alias: alias@ },
            RequestOf::LoadModule { module } => RequestOf::LoadModule { module: module@ },
            RequestOf::Write { path, value } => RequestOf::Write { path: path@, value: value@ },
        }
    }
}

impl View for ReplyOf<String, Vec<u8>> {
    type V = ReplyOf<Seq<char>, Seq<u8>>;

    open spec fn view(&self) -> ReplyOf<Seq<char>, Seq<u8>> {
        match self {
            ReplyOf::FileRead(Ok(s)) => ReplyOf::FileRead(Ok(s@)),
            ReplyOf::FileRead(Err(e)) => ReplyOf::FileRead(Err(e@)),
            ReplyOf::LinkRead(Some(t)) => ReplyOf::LinkRead(Some(t@)),
            ReplyOf::LinkRead(None) => ReplyOf::LinkRead(None),
            ReplyOf::Existence(b) => ReplyOf::Existence(*b),
            ReplyOf::Ran(Ok(p)) => ReplyOf::Ran(
                Ok(ProcessReportOf { success: p.success, status: p.status@, stdout: p.stdout@ }),
            ),
            ReplyOf::Ran(Err(e)) => ReplyOf::Ran(Err(e@)),
            ReplyOf::Written(Ok(())) => ReplyOf::Written(Ok(())),
            ReplyOf::Written(Err(f)) => ReplyOf::Written(
                Err(WriteFailureOf { busy: f.busy, reason: f.reason@ }),
            ),
        }
    }
}

impl View for BindErrorOf<String> {
    type V = BindErrorOf<Seq<char>>;

    open spec fn view(&self) -> BindErrorOf<Seq<char>> {
        match self {
            BindErrorOf::SpawnModprobe { reason } => BindErrorOf::SpawnModprobe { reason: reason@ },
            BindErrorOf::ModprobeFailed { module, status } => BindErrorOf::ModprobeFailed {
                module: module@,
                status: status@,
            },
            BindErrorOf::ReadModalias { path, reason } => BindErrorOf::ReadModalias {
                path: path@,
                reason: reason@,
            },
            BindErrorOf::EmptyModalias { device } => BindErrorOf::EmptyModalias {
                device: device@,
            },
            BindErrorOf::ResolveSpawn { reason } => BindErrorOf::ResolveSpawn { reason: reason@ },
            BindErrorOf::ResolveFailed { alias, status } => BindErrorOf::ResolveFailed {
                alias: alias@,
                status: status@,
            },
            BindErrorOf::ResolveOutput { reason } => BindErrorOf::ResolveOutput {
                reason: reason@,
            },
            BindErrorOf::NoDriverModule { alias } => BindErrorOf::NoDriverModule {
                alias: alias@,
            },
            BindErrorOf::Write { path, reason } => BindErrorOf::Write {
                path: path@,
                reason: reason@,
            },
            BindErrorOf::SetOverride { path, reason } => BindErrorOf::SetOverride {
                path: path@,
                reason: reason@,
            },
            BindErrorOf::DeviceBusy { bdf } => BindErrorOf::DeviceBusy { bdf: bdf@ },
            BindErrorOf::UnbindCurrent { path, reason } => BindErrorOf::UnbindCurrent {
                path: path@,
                reason: reason@,
            },
            BindErrorOf::BindVfio { path, reason } => BindErrorOf::BindVfio {
                path: path@,
                reason: reason@,
            },
        }
    }
}

impl View for ProgressOf<String> {
    type V = ProgressOf<Seq<char>>;

    open spec fn view(&self) -> ProgressOf<Seq<char>> {
        match self {
            ProgressOf::Next(t) => ProgressOf::Next(t@),
            ProgressOf::Finished(Ok(())) => ProgressOf::Finished(Ok(())),
            ProgressOf::Finished(Err(e)) => ProgressOf::Finished(Err(e@)),
        }
    }
}

/// The request that a task waits on.
pub open spec fn request_of(t: TaskModel) -> RequestModel {
    let bdf = t.bdf;
    match t.stage {
        StageOf::UnbindReadLink => RequestOf::ReadLink {
            path: joined_path(joined_path(devices_root(), bdf), "driver"@),
        },
        StageOf::UnbindWrite { driver } => RequestOf::Write { path: unbind_file(driver), value: bdf },
        StageOf::NativeReadClass => RequestOf::ReadFile { path: class_path(bdf) },
        StageOf::NativeReadAlias => RequestOf::ReadFile { path: modalias_path(bdf) },
        StageOf::NativeResolve { alias } => RequestOf::ResolveAlias { alias },
        StageOf::NativeDriverDir { driver } => RequestOf::CheckExists { path: driver_dir(driver) },
        StageOf::NativeLoad { driver } => RequestOf::LoadModule { module: driver },
        StageOf::NativeOverrideExists { .. } => RequestOf::CheckExists { path: override_path(bdf) },
        StageOf::NativeClearOverride { .. } => RequestOf::Write {
            path: override_path(bdf),
            value: "\n"@,
        },
        StageOf::NativeReadLink { .. } => RequestOf::ReadLink { path: link_path(bdf) },
        StageOf::NativeUnbindCurrent { current, .. } => RequestOf::Write {
            path: driver_dir(current) + "/unbind"@,
            value: bdf,
        },
        StageOf::NativeBind { driver } => RequestOf::Write {
            path: driver_dir(driver) + "/bind"@,
            value: bdf,
        },
        StageOf::VfioDriverDir => RequestOf::CheckExists { path: driver_dir("vfio-pci"@) },
        StageOf::VfioLoad => RequestOf::LoadModule { module: "vfio-pci"@ },
        StageOf::VfioSetOverride => RequestOf::Write {
            path: override_path(bdf),
            value: "vfio-pci\n"@,
        },
        StageOf::VfioLinkExists => RequestOf::CheckExists { path: link_path(bdf) },
        StageOf::VfioUnbind => RequestOf::Write {
            path: joined_path(link_path(bdf), "unbind"@),
            value: bdf + "\n"@,
        },
        StageOf::VfioBind => RequestOf::Write { path: vfio_bind_path(), value: bdf + "\n"@ },
        StageOf::VfioClearOverride => RequestOf::Write { path: override_path(bdf), value: "\n"@ },
    }
}

/// Whether a reply is of the kind that a request calls for.
pub open spec fn answers(q: RequestModel, r: ReplyModel) -> bool {
    match q {
        RequestOf::ReadFile { .. } => r is FileRead,
        RequestOf::ReadLink { .. } => r is LinkRead,
        RequestOf::CheckExists { .. } => r is Existence,
        RequestOf::ResolveAlias { .. } => r is Ran,
        RequestOf::LoadModule { .. } => r is Ran,
        RequestOf::Write { .. } => r is Written,
    }
}

/// The same device at another stage.
pub open spec fn go(bdf: Seq<char>, stage: StageModel) -> ProgressModel {
    ProgressOf::Next(TaskOf { bdf, stage })
}

/// A failure.
pub open spec fn fail(e: BindErrorModel) -> ProgressModel {
    ProgressOf::Finished(Err(e))
}

/// Success.
pub open spec fn done() -> ProgressModel {
    ProgressOf::Finished(Ok(()))
}

/// What a task does with the reply to its request (a reply of another kind
/// leaves it where it is).
pub open spec fn step(t: TaskModel, r: ReplyModel) -> ProgressModel {
    let bdf = t.bdf;
    match (t.stage, r) {
        (StageOf::UnbindReadLink, ReplyOf::LinkRead(target)) => match driver_of_link(target) {
            Some(d) => go(bdf, StageOf::UnbindWrite { driver: d }),
            None => done(),
        },
        (StageOf::UnbindWrite { driver }, ReplyOf::Written(w)) => match w {
            Ok(()) => done(),
            Err(f) => fail(BindErrorOf::Write { path: unbind_file(driver), reason: f.reason }),
        },
        (StageOf::NativeReadClass, ReplyOf::FileRead(contents)) => match contents {
            Ok(c) => if is_display_class(c) {
                go(bdf, StageOf::NativeDriverDir { driver: "nvidia"@ })
            } else {
                go(bdf, StageOf::NativeReadAlias)
            },
            Err(_) => go(bdf, StageOf::NativeReadAlias),
        },
        (StageOf::NativeReadAlias, ReplyOf::FileRead(contents)) => match contents {
            Err(e) => fail(BindErrorOf::ReadModalias { path: modalias_path(bdf), reason: e }),
            Ok(s) => if trimmed(s).len() == 0 {
                fail(BindErrorOf::EmptyModalias { device: device_dir(bdf) })
            } else {
                go(bdf, StageOf::NativeResolve { alias: trimmed(s) })
            },
        },
        (StageOf::NativeResolve { alias }, ReplyOf::Ran(outcome)) => match outcome {
            Err(e) => fail(BindErrorOf::ResolveSpawn { reason: e }),
            Ok(p) => if !p.success {
                fail(BindErrorOf::ResolveFailed { alias, status: p.status })
            } else if !valid_utf8(p.stdout) {
                fail(BindErrorOf::ResolveOutput { reason: utf8_error_text(p.stdout) })
            } else if module_names(decode_utf8(p.stdout)).len() == 0 {
                fail(BindErrorOf::NoDriverModule { alias })
            } else {
                go(
                    bdf,
                    StageOf::NativeDriverDir {
                        driver: pick_driver(
                            preferred_drivers(),
                            module_names(decode_utf8(p.stdout)),
                        )->Some_0,
                    },
                )
            },
        },
        (StageOf::NativeDriverDir { driver }, ReplyOf::Existence(exists)) => if exists {
            go(bdf, StageOf::NativeOverrideExists { driver })
        } else {
            go(bdf, StageOf::NativeLoad { driver })
        },
        (StageOf::NativeLoad { driver }, ReplyOf::Ran(outcome)) => match outcome {
            Err(e) => fail(BindErrorOf::SpawnModprobe { reason: e }),
            Ok(p) => if p.success {
                go(bdf, StageOf::NativeOverrideExists { driver })
            } else {
                fail(BindErrorOf::ModprobeFailed { module: driver, status: p.status })
            },
        },
        (StageOf::NativeOverrideExists { driver }, ReplyOf::Existence(exists)) => if exists {
            go(bdf, StageOf::NativeClearOverride { driver })
        } else {
            go(bdf, StageOf::NativeReadLink { driver })
        },
        (StageOf::NativeClearOverride { driver }, ReplyOf::Written(_)) => go(
            bdf,
            StageOf::NativeReadLink { driver },
        ),
        (StageOf::NativeReadLink { driver }, ReplyOf::LinkRead(target)) => match driver_of_link(
            target,
        ) {
            Some(current) => if current == driver {
                done()
            } else {
                go(bdf, StageOf::NativeUnbindCurrent { driver, current })
            },
            None => go(bdf, StageOf::NativeBind { driver }),
        },
        (StageOf::NativeUnbindCurrent { driver, current }, ReplyOf::Written(w)) => match w {
            Ok(()) => go(bdf, StageOf::NativeBind { driver }),
            Err(f) => fail(
                BindErrorOf::Write { path: driver_dir(current) + "/unbind"@, reason: f.reason },
            ),
        },
        (StageOf::NativeBind { driver }, ReplyOf::Written(w)) => match w {
            Ok(()) => done(),
            Err(f) => fail(
                BindErrorOf::Write { path: driver_dir(driver) + "/bind"@, reason: f.reason },
            ),
        },
        (StageOf::VfioDriverDir, ReplyOf::Existence(exists)) => if exists {
            go(bdf, StageOf::VfioSetOverride)
        } else {
            go(bdf, StageOf::VfioLoad)
        },
        (StageOf::VfioLoad, ReplyOf::Ran(outcome)) => match outcome {
            Err(e) => fail(BindErrorOf::SpawnModprobe { reason: e }),
            Ok(p) => if p.success {
                go(bdf, StageOf::VfioSetOverride)
            } else {
                fail(BindErrorOf::ModprobeFailed { module: "vfio-pci"@, status: p.status })
            },
        },
        (StageOf::VfioSetOverride, ReplyOf::Written(w)) => match w {
            Ok(()) => go(bdf, StageOf::VfioLinkExists),
            Err(f) => fail(BindErrorOf::SetOverride { path: override_path(bdf), reason: f.reason }),
        },
        (StageOf::VfioLinkExists, ReplyOf::Existence(exists)) => if exists {
            go(bdf, StageOf::VfioUnbind)
        } else {
            go(bdf, StageOf::VfioBind)
        },
        (StageOf::VfioUnbind, ReplyOf::Written(w)) => match w {
            Ok(()) => go(bdf, StageOf::VfioBind),
            Err(f) => if f.busy {
                fail(BindErrorOf::DeviceBusy { bdf })
            } else {
                fail(
                    BindErrorOf::UnbindCurrent {
                        path: joined_path(link_path(bdf), "unbind"@),
                        reason: f.reason,
                    },
                )
            },
        },
        (StageOf::VfioBind, ReplyOf::Written(w)) => match w {
            Ok(()) => go(bdf, StageOf::VfioClearOverride),
            Err(f) => fail(BindErrorOf::BindVfio { path: vfio_bind_path(), reason: f.reason }),
        },
        (StageOf::VfioClearOverride, ReplyOf::Written(_)) => done(),
        _ => ProgressOf::Next(t),
    }
}

/// Starts unbinding a device from whatever driver it is bound to.
pub fn unbind(bdf: &str) -> (t: Task)
    ensures
        t@ == unbind_start(bdf@),
{
    TaskOf { bdf: owned(bdf), stage: StageOf::UnbindReadLink }
}

/// Starts binding a device to its host driver. A display function (PCI
/// class `0x03`) goes to `nvidia`; any other function (audio, USB) goes to
/// the module that its modalias resolves to, `nvidia` and then `nouveau`
/// preferred. Where the class cannot be read, the modalias decides.
pub fn bind_to_native_driver(bdf: &str) -> (t: Task)
    ensures
        t@ == native_start(bdf@),
{
    TaskOf { bdf: owned(bdf), stage: StageOf::NativeReadClass }
}

/// Starts binding a device to `vfio-pci`.
pub fn bind_to_vfio(bdf: &str) -> (t: Task)
    ensures
        t@ == vfio_start(bdf@),
{
    TaskOf { bdf: owned(bdf), stage: StageOf::VfioDriverDir }
}

/// Whether a reply is of the kind that a request calls for.
pub fn fits(q: &Request, r: &Reply) -> (b: bool)
    ensures
        b == answers(q@, r@),
{
    match q {
        RequestOf::ReadFile { .. } => matches!(r, ReplyOf::FileRead(_)),
        RequestOf::ReadLink { .. } => matches!(r, ReplyOf::LinkRead(_)),
        RequestOf::CheckExists { .. } => matches!(r, ReplyOf::Existence(_)),
        RequestOf::ResolveAlias { .. } => matches!(r, ReplyOf::Ran(_)),
        RequestOf::LoadModule { .. } => matches!(r, ReplyOf::Ran(_)),
        RequestOf::Write { .. } => matches!(r, ReplyOf::Written(_)),
    }
}

/// The unbind file of the current driver, as the host-driver operation builds it.
fn native_unbind_path(current: &str) -> (r: String)
    ensures
        r@ == driver_dir(current@) + "/unbind"@,
{
    glue3("/sys/bus/pci/drivers/", current, "/unbind")
}

/// The bind file of a driver, as the host-driver operation builds it.
fn native_bind_path(driver: &str) -> (r: String)
    ensures
        r@ == driver_dir(driver@) + "/bind"@,
{
    glue3("/sys/bus/pci/drivers/", driver, "/bind")
}

/// The address followed by a line feed.
fn line_of(bdf: &str) -> (r: String)
    ensures
        r@ == bdf@ + "\n"@,
{
    glue(bdf, "\n")
}

impl TaskOf<String> {
    /// The request the operation waits on.
    pub fn request(&self) -> (q: Request)
        ensures
            q@ == request_of(self@),
    {
        let bdf = self.bdf.as_str();
        match &self.stage {
            StageOf::UnbindReadLink => {
                let dev = join_path("/sys/bus/pci/devices", bdf);
                RequestOf::ReadLink { path: join_path(dev.as_str(), "driver") }
            },
            StageOf::UnbindWrite { driver } => {
                let dir = join_path("/sys/bus/pci/drivers", driver.as_str());
                RequestOf::Write { path: join_path(dir.as_str(), "unbind"), value: owned(bdf) }
            },
            StageOf::NativeReadClass => {
                let (dev, _, _) = dev_paths(bdf);
                RequestOf::ReadFile { path: join_path(dev.as_str(), "class") }
            },
            StageOf::NativeReadAlias => {
                let (dev, _, _) = dev_paths(bdf);
                RequestOf::ReadFile { path: join_path(dev.as_str(), "modalias") }
            },
            StageOf::NativeResolve { alias } => RequestOf::ResolveAlias { alias: alias.clone() },
            StageOf::NativeDriverDir { driver } => RequestOf::CheckExists {
                path: glue("/sys/bus/pci/drivers/", driver.as_str()),
            },
            StageOf::NativeLoad { driver } => RequestOf::LoadModule { module: driver.clone() },
            StageOf::NativeOverrideExists { .. } => {
                let (_, _, over) = dev_paths(bdf);
                RequestOf::CheckExists { path: over }
            },
            StageOf::NativeClearOverride { .. } => {
                let (_, _, over) = dev_paths(bdf);
                RequestOf::Write { path: over, value: owned("\n") }
            },
            StageOf::NativeReadLink { .. } => {
                let (_, link, _) = dev_paths(bdf);
                RequestOf::ReadLink { path: link }
            },
            StageOf::NativeUnbindCurrent { current, .. } => RequestOf::Write {
                path: native_unbind_path(current.as_str()),
                value: owned(bdf),
            },
            StageOf::NativeBind { driver } => RequestOf::Write {
                path: native_bind_path(driver.as_str()),
                value: owned(bdf),
            },
            StageOf::VfioDriverDir => RequestOf::CheckExists {
                path: glue("/sys/bus/pci/drivers/", "vfio-pci"),
            },
            StageOf::VfioLoad => RequestOf::LoadModule { module: owned("vfio-pci") },
            StageOf::VfioSetOverride => {
                let (_, _, over) = dev_paths(bdf);
                RequestOf::Write { path: over, value: owned("vfio-pci\n") }
            },
            StageOf::VfioLinkExists => {
                let (_, link, _) = dev_paths(bdf);
                RequestOf::CheckExists { path: link }
            },
            StageOf::VfioUnbind => {
                let (_, link, _) = dev_paths(bdf);
                RequestOf::Write { path: join_path(link.as_str(), "unbind"), value: line_of(bdf) }
            },
            StageOf::VfioBind => RequestOf::Write {
                path: owned("/sys/bus/pci/drivers/vfio-pci/bind"),
                value: line_of(bdf),
            },
            StageOf::VfioClearOverride => {
                let (_, _, over) = dev_paths(bdf);
                RequestOf::Write { path: over, value: owned("\n") }
            },
        }
    }

    /// Goes on with the reply to the pending request.
    pub fn resume(self, reply: Reply) -> (p: Progress)
        requires
            answers(request_of(self@), reply@),
        ensures
            p@ == step(self@, reply@),
    {
        let bdf = self.bdf;
        match (self.stage, reply) {
            (StageOf::UnbindReadLink, ReplyOf::LinkRead(target)) => match driver_from_link(target) {
                Some(d) => ProgressOf::Next(TaskOf { bdf, stage: StageOf::UnbindWrite { driver: d } }),
                None => ProgressOf::Finished(Ok(())),
            },
            (StageOf::UnbindWrite { driver }, ReplyOf::Written(w)) => match w {
                Ok(()) => ProgressOf::Finished(Ok(())),
                Err(f) => {
                    let dir = join_path("/sys/bus/pci/drivers", driver.as_str());
                    let path = join_path(dir.as_str(), "unbind");
                    ProgressOf::Finished(Err(BindErrorOf::Write { path, reason: f.reason }))
                },
            },
            (StageOf::NativeReadClass, ReplyOf::FileRead(contents)) => {
                let display = match &contents {
                    Ok(c) => names_display_class(c.as_str()),
                    Err(_) => false,
                };
                if display {
                    let driver = owned("nvidia");
                    ProgressOf::Next(TaskOf { bdf, stage: StageOf::NativeDriverDir { driver } })
                } else {
                    ProgressOf::Next(TaskOf { bdf, stage: StageOf::NativeReadAlias })
                }
            },
            (StageOf::NativeReadAlias, ReplyOf::FileRead(contents)) => match contents {
                Err(e) => {
                    let (dev, _, _) = dev_paths(bdf.as_str());
                    let path = join_path(dev.as_str(), "modalias");
                    ProgressOf::Finished(Err(BindErrorOf::ReadModalias { path, reason: e }))
                },
                Ok(s) => {
                    let alias = trim_text(s.as_str());
                    if alias.unicode_len() == 0 {
                        let (dev, _, _) = dev_paths(bdf.as_str());
                        ProgressOf::Finished(Err(BindErrorOf::EmptyModalias { device: dev }))
                    } else {
                        ProgressOf::Next(TaskOf { bdf, stage: StageOf::NativeResolve { alias } })
                    }
                },
            },
            (StageOf::NativeResolve { alias }, ReplyOf::Ran(outcome)) => match outcome {
                Err(e) => ProgressOf::Finished(Err(BindErrorOf::ResolveSpawn { reason: e })),
                Ok(p) => {
                    if !p.success {
                        ProgressOf::Finished(
                            Err(BindErrorOf::ResolveFailed { alias, status: p.status }),
                        )
                    } else {
                        match decode_bytes(p.stdout) {
                            Err(m) => ProgressOf::Finished(
                                Err(BindErrorOf::ResolveOutput { reason: m }),
                            ),
                            Ok(text) => {
                                let modules = driver_modules(text.as_str());
                                match select_preferred_driver(modules.as_slice()) {
                                    Some(driver) => ProgressOf::Next(
                                        TaskOf { bdf, stage: StageOf::NativeDriverDir { driver } },
                                    ),
                                    None => ProgressOf::Finished(
                                        Err(BindErrorOf::NoDriverModule { alias }),
                                    ),
                                }
                            },
                        }
                    }
                },
            },
            (StageOf::NativeDriverDir { driver }, ReplyOf::Existence(exists)) => {
                if exists {
                    ProgressOf::Next(TaskOf { bdf, stage: StageOf::NativeOverrideExists { driver } })
                } else {
                    ProgressOf::Next(TaskOf { bdf, stage: StageOf::NativeLoad { driver } })
                }
            },
            (StageOf::NativeLoad { driver }, ReplyOf::Ran(outcome)) => match outcome {
                Err(e) => ProgressOf::Finished(Err(BindErrorOf::SpawnModprobe { reason: e })),
                Ok(p) => {
                    if p.success {
                        ProgressOf::Next(
                            TaskOf { bdf, stage: StageOf::NativeOverrideExists { driver } },
                        )
                    } else {
                        ProgressOf::Finished(
                            Err(BindErrorOf::ModprobeFailed { module: driver, status: p.status }),
                        )
                    }
                },
            },
            (StageOf::NativeOverrideExists { driver }, ReplyOf::Existence(exists)) => {
                if exists {
                    ProgressOf::Next(TaskOf { bdf, stage: StageOf::NativeClearOverride { driver } })
                } else {
                    ProgressOf::Next(TaskOf { bdf, stage: StageOf::NativeReadLink { driver } })
                }
            },
            (StageOf::NativeClearOverride { driver }, ReplyOf::Written(_)) => ProgressOf::Next(
                TaskOf { bdf, stage: StageOf::NativeReadLink { driver } },
            ),
            (StageOf::NativeReadLink { driver }, ReplyOf::LinkRead(target)) => {
                match driver_from_link(target) {
                    Some(current) => {
                        if same_text(current.as_str(), driver.as_str()) {
                            ProgressOf::Finished(Ok(()))
                        } else {
                            ProgressOf::Next(
                                TaskOf {
                                    bdf,
                                    stage: StageOf::NativeUnbindCurrent { driver, current },
                                },
                            )
                        }
                    },
                    None => ProgressOf::Next(TaskOf { bdf, stage: StageOf::NativeBind { driver } }),
                }
            },
            (StageOf::NativeUnbindCurrent { driver, current }, ReplyOf::Written(w)) => match w {
                Ok(()) => ProgressOf::Next(TaskOf { bdf, stage: StageOf::NativeBind { driver } }),
                Err(f) => ProgressOf::Finished(
                    Err(
                        BindErrorOf::Write {
                            path: native_unbind_path(current.as_str()),
                            reason: f.reason,
                        },
                    ),
                ),
            },
            (StageOf::NativeBind { driver }, ReplyOf::Written(w)) => match w {
                Ok(()) => ProgressOf::Finished(Ok(())),
                Err(f) => ProgressOf::Finished(
                    Err(
                        BindErrorOf::Write {
                            path: native_bind_path(driver.as_str()),
                            reason: f.reason,
                        },
                    ),
                ),
            },
            (StageOf::VfioDriverDir, ReplyOf::Existence(exists)) => {
                if exists {
                    ProgressOf::Next(TaskOf { bdf, stage: StageOf::VfioSetOverride })
                } else {
                    ProgressOf::Next(TaskOf { bdf, stage: StageOf::VfioLoad })
                }
            },
            (StageOf::VfioLoad, ReplyOf::Ran(outcome)) => match outcome {
                Err(e) => ProgressOf::Finished(Err(BindErrorOf::SpawnModprobe { reason: e })),
                Ok(p) => {
                    if p.success {
                        ProgressOf::Next(TaskOf { bdf, stage: StageOf::VfioSetOverride })
                    } else {
                        ProgressOf::Finished(
                            Err(
                                BindErrorOf::ModprobeFailed {
                                    module: owned("vfio-pci"),
                                    status: p.status,
                                },
                            ),
                        )
                    }
                },
            },
            (StageOf::VfioSetOverride, ReplyOf::Written(w)) => match w {
                Ok(()) => ProgressOf::Next(TaskOf { bdf, stage: StageOf::VfioLinkExists }),
                Err(f) => {
                    let (_, _, over) = dev_paths(bdf.as_str());
                    ProgressOf::Finished(
                        Err(BindErrorOf::SetOverride { path: over, reason: f.reason }),
                    )
                },
            },
            (StageOf::VfioLinkExists, ReplyOf::Existence(exists)) => {
                if exists {
                    ProgressOf::Next(TaskOf { bdf, stage: StageOf::VfioUnbind })
                } else {
                    ProgressOf::Next(TaskOf { bdf, stage: StageOf::VfioBind })
                }
            },
            (StageOf::VfioUnbind, ReplyOf::Written(w)) => match w {
                Ok(()) => ProgressOf::Next(TaskOf { bdf, stage: StageOf::VfioBind }),
                Err(f) => {
                    if f.busy {
                        ProgressOf::Finished(Err(BindErrorOf::DeviceBusy { bdf }))
                    } else {
                        let (_, link, _) = dev_paths(bdf.as_str());
                        let path = join_path(link.as_str(), "unbind");
                        ProgressOf::Finished(
                            Err(BindErrorOf::UnbindCurrent { path, reason: f.reason }),
                        )
                    }
                },
            },
            (StageOf::VfioBind, ReplyOf::Written(w)) => match w {
                Ok(()) => ProgressOf::Next(TaskOf { bdf, stage: StageOf::VfioClearOverride }),
                Err(f) => ProgressOf::Finished(
                    Err(
                        BindErrorOf::BindVfio {
                            path: owned("/sys/bus/pci/drivers/vfio-pci/bind"),
                            reason: f.reason,
                        },
                    ),
                ),
            },
            (StageOf::VfioClearOverride, ReplyOf::Written(_)) => ProgressOf::Finished(Ok(())),
            (stage, _) => ProgressOf::Next(TaskOf { bdf, stage }),
        }
    }
}


/// The text of an error, as the service reports it (each context, then ": ",
/// then the cause).
pub open spec fn error_text(e: BindErrorModel) -> Seq<char> {
    match e {
        BindErrorOf::SpawnModprobe { reason } => "spawn modprobe: "@ + reason,
        BindErrorOf::ModprobeFailed { module, status } => "modprobe "@ + module
            + " failed with status "@ + status,
        BindErrorOf::ReadModalias { path, reason } => "read "@ + path + ": "@ + reason,
        BindErrorOf::EmptyModalias { device } => "device "@ + device + " has empty modalias"@,
        BindErrorOf::ResolveSpawn { reason } => "resolve driver via modprobe: "@ + reason,
        BindErrorOf::ResolveFailed { alias, status } => "modprobe --resolve-alias "@ + alias
            + " failed with status "@ + status,
        BindErrorOf::ResolveOutput { reason } => "parse modprobe output: "@ + reason,
        BindErrorOf::NoDriverModule { alias } => "no driver module found for alias "@ + alias,
        BindErrorOf::Write { path, reason } => "write to "@ + path + ": "@ + reason,
        BindErrorOf::SetOverride { path, reason } => "set driver_override=vfio-pci: write to "@
            + path + ": "@ + reason,
        BindErrorOf::DeviceBusy { bdf } => "unbind from current driver: device "@ + bdf
            + " is busy; close users (Xorg/Wayland, CUDA, nvidia-persistenced) and retry"@,
        BindErrorOf::UnbindCurrent { path, reason } => "unbind from current driver: write to "@
            + path + ": "@ + reason,
        BindErrorOf::BindVfio { path, reason } => "bind to vfio-pci: write to "@ + path + ": "@
            + reason,
    }
}

impl BindErrorOf<String> {
    /// The error's text.
    pub fn message(&self) -> (m: String)
        ensures
            m@ == error_text(self@),
    {
        match self {
            BindErrorOf::SpawnModprobe { reason } => glue("spawn modprobe: ", reason.as_str()),
            BindErrorOf::ModprobeFailed { module, status } => glue4(
                "modprobe ",
                module.as_str(),
                " failed with status ",
                status.as_str(),
            ),
            BindErrorOf::ReadModalias { path, reason } => glue4(
                "read ",
                path.as_str(),
                ": ",
                reason.as_str(),
            ),
            BindErrorOf::EmptyModalias { device } => glue3(
                "device ",
                device.as_str(),
                " has empty modalias",
            ),
            BindErrorOf::ResolveSpawn { reason } => glue(
                "resolve driver via modprobe: ",
                reason.as_str(),
            ),
            BindErrorOf::ResolveFailed { alias, status } => glue4(
                "modprobe --resolve-alias ",
                alias.as_str(),
                " failed with status ",
                status.as_str(),
            ),
            BindErrorOf::ResolveOutput { reason } => glue("parse modprobe output: ", reason.as_str()),
            BindErrorOf::NoDriverModule { alias } => glue(
                "no driver module found for alias ",
                alias.as_str(),
            ),
            BindErrorOf::Write { path, reason } => glue4(
                "write to ",
                path.as_str(),
                ": ",
                reason.as_str(),
            ),
            BindErrorOf::SetOverride { path, reason } => glue4(
                "set driver_override=vfio-pci: write to ",
                path.as_str(),
                ": ",
                reason.as_str(),
            ),
            BindErrorOf::DeviceBusy { bdf } => glue3(
                "unbind from current driver: device ",
                bdf.as_str(),
                " is busy; close users (Xorg/Wayland, CUDA, nvidia-persistenced) and retry",
            ),
            BindErrorOf::UnbindCurrent { path, reason } => glue4(
                "unbind from current driver: write to ",
                path.as_str(),
                ": ",
                reason.as_str(),
            ),
            BindErrorOf::BindVfio { path, reason } => glue4(
                "bind to vfio-pci: write to ",
                path.as_str(),
                ": ",
                reason.as_str(),
            ),
        }
    }
}

/// A fresh unbind operation on a device.
pub open spec fn unbind_start(bdf: Seq<char>) -> TaskModel {
    TaskOf { bdf, stage: StageOf::UnbindReadLink }
}

/// A fresh host-driver bind operation on a device: it first reads the
/// device's PCI class.
pub open spec fn native_start(bdf: Seq<char>) -> TaskModel {
    TaskOf { bdf, stage: StageOf::NativeReadClass }
}

/// A fresh VFIO bind operation on a device.
pub open spec fn vfio_start(bdf: Seq<char>) -> TaskModel {
    TaskOf { bdf, stage: StageOf::VfioDriverDir }
}

/// How many more requests a task may make at most, counting the one it waits on.
pub open spec fn remaining_requests(s: StageModel) -> nat {
    match s {
        StageOf::UnbindReadLink => 2,
        StageOf::UnbindWrite { .. } => 1,
        StageOf::NativeReadClass => 10,
        StageOf::NativeReadAlias => 9,
        StageOf::NativeResolve { .. } => 8,
        StageOf::NativeDriverDir { .. } => 7,
        StageOf::NativeLoad { .. } => 6,
        StageOf::NativeOverrideExists { .. } => 5,
        StageOf::NativeClearOverride { .. } => 4,
        StageOf::NativeReadLink { .. } => 3,
        StageOf::NativeUnbindCurrent { .. } => 2,
        StageOf::NativeBind { .. } => 1,
        StageOf::VfioDriverDir => 8,
        StageOf::VfioLoad => 7,
        StageOf::VfioSetOverride => 6,
        StageOf::VfioLinkExists => 5,
        StageOf::VfioUnbind => 4,
        StageOf::VfioBind => 2,
        StageOf::VfioClearOverride => 1,
    }
}

/// Every answered request moves an operation on: it either finishes or
/// reaches a stage with fewer requests left, on the same device. So an
/// unbind makes at most two requests, a host-driver bind at most ten and a
/// VFIO bind at most eight.
pub proof fn law_each_reply_moves_on(t: TaskModel, r: ReplyModel)
    requires
        answers(request_of(t), r),
    ensures
        step(t, r) matches ProgressOf::Next(t2) ==> t2.bdf == t.bdf && remaining_requests(
            t2.stage,
        ) < remaining_requests(t.stage),
{
}

/// The requests a task makes, in order, when its requests get `replies` one
/// by one: up to the reply that finishes it, or to a reply of the wrong kind.
pub open spec fn requests_made(t: TaskModel, replies: Seq<ReplyModel>) -> Seq<RequestModel>
    decreases replies.len(),
{
    let q = request_of(t);
    if replies.len() == 0 || !answers(q, replies[0]) {
        seq![q]
    } else {
        match step(t, replies[0]) {
            ProgressOf::Next(t2) => seq![q] + requests_made(t2, replies.drop_first()),
            ProgressOf::Finished(_) => seq![q],
        }
    }
}

/// Whether a request writes anything other than the device's
/// `driver_override` (which the VFIO operation sets to `vfio-pci` and later
/// clears): that is, whether it unbinds or binds the device.
pub open spec fn moves_to_vfio(bdf: Seq<char>, q: RequestModel) -> bool {
    &&& q is Write
    &&& q != (RequestOf::Write { path: override_path(bdf), value: "vfio-pci\n"@ })
    &&& q != (RequestOf::Write { path: override_path(bdf), value: "\n"@ })
}

/// Whether the `j`-th request sets the device's driver override to
/// `vfio-pci` and its reply says the write succeeded.
pub open spec fn override_set_at(
    bdf: Seq<char>,
    qs: Seq<RequestModel>,
    replies: Seq<ReplyModel>,
    j: int,
) -> bool {
    &&& 0 <= j < qs.len()
    &&& j < replies.len()
    &&& qs[j] == (RequestOf::Write { path: override_path(bdf), value: "vfio-pci\n"@ })
    &&& replies[j] matches ReplyOf::Written(Ok(_))
}

proof fn lemma_requests_made_first(t: TaskModel, replies: Seq<ReplyModel>)
    ensures
        requests_made(t, replies).len() >= 1,
        requests_made(t, replies)[0] == request_of(t),
    decreases replies.len(),
{
    if replies.len() > 0 && answers(request_of(t), replies[0]) {
        if let ProgressOf::Next(t2) = step(t, replies[0]) {
            lemma_requests_made_first(t2, replies.drop_first());
        }
    }
}

/// The VFIO operation, from a stage before the override is set, unbinds and
/// binds only after a successful write of `vfio-pci` to the override.
proof fn lemma_vfio_override_first(t: TaskModel, replies: Seq<ReplyModel>, k: int)
    requires
        t.stage is VfioDriverDir || t.stage is VfioLoad || t.stage is VfioSetOverride,
        0 <= k < requests_made(t, replies).len(),
        moves_to_vfio(t.bdf, requests_made(t, replies)[k]),
    ensures
        exists|j: int|
            0 <= j < k && #[trigger] override_set_at(t.bdf, requests_made(t, replies), replies, j),
    decreases replies.len(),
{
    let qs = requests_made(t, replies);
    lemma_requests_made_first(t, replies);
    if k == 0 {
        assert(!moves_to_vfio(t.bdf, request_of(t)));
    } else {
        let t2 = step(t, replies[0])->Next_0;
        let rest = requests_made(t2, replies.drop_first());
        assert(qs == seq![request_of(t)] + rest);
        assert(qs[k] == rest[k - 1]);
        if t.stage is VfioSetOverride {
            assert(replies.len() > 0 && answers(request_of(t), replies[0]));
            assert(replies[0] is Written);
            assert(replies[0]->Written_0 is Ok);
            assert(override_set_at(t.bdf, qs, replies, 0));
        } else {
            lemma_vfio_override_first(t2, replies.drop_first(), k - 1);
            let j = choose|j: int|
                0 <= j < k - 1 && #[trigger] override_set_at(
                    t2.bdf,
                    rest,
                    replies.drop_first(),
                    j,
                );
            assert(override_set_at(t.bdf, qs, replies, j + 1));
        }
    }
}

/// Binding to `vfio-pci`: whatever the system answers, the device is unbound
/// from its current driver and bound to `vfio-pci` only after its
/// `driver_override` was successfully set to `vfio-pci`.
pub proof fn law_vfio_override_before_rebinding(bdf: Seq<char>, replies: Seq<ReplyModel>, k: int)
    requires
        0 <= k < requests_made(vfio_start(bdf), replies).len(),
        moves_to_vfio(bdf, requests_made(vfio_start(bdf), replies)[k]),
    ensures
        exists|j: int|
            0 <= j < k && #[trigger] override_set_at(
                bdf,
                requests_made(vfio_start(bdf), replies),
                replies,
                j,
            ),
{
    lemma_vfio_override_first(vfio_start(bdf), replies, k);
}

/// Unbinding leaves the device driverless and touches nothing else: every
/// write it makes puts the device's address into the unbind file of the
/// driver that the device's `driver` link names.
pub proof fn law_unbind_only_unbinds(
    bdf: Seq<char>,
    target: Option<Seq<char>>,
    replies: Seq<ReplyModel>,
    k: int,
)
    requires
        replies.len() > 0,
        replies[0] == ReplyOf::<Seq<char>, Seq<u8>>::LinkRead(target),
        0 <= k < requests_made(unbind_start(bdf), replies).len(),
        (requests_made(unbind_start(bdf), replies)[k] is Write),
    ensures
        driver_of_link(target) is Some,
        requests_made(unbind_start(bdf), replies)[k] == (RequestOf::Write {
            path: unbind_file(driver_of_link(target)->Some_0),
            value: bdf,
        }),
{
    let t = unbind_start(bdf);
    let qs = requests_made(t, replies);
    if let ProgressOf::Next(t2) = step(t, replies[0]) {
        let rest = requests_made(t2, replies.drop_first());
        lemma_requests_made_first(t2, replies.drop_first());
        assert(qs == seq![request_of(t)] + rest);
        if k >= 2 {
            let r2 = replies.drop_first();
            assert(rest.len() == 1) by {
                if r2.len() > 0 && answers(request_of(t2), r2[0]) {
                    assert(step(t2, r2[0]) is Finished);
                }
            }
        }
    }
}


/// The driver a host-driver bind has picked, at the stages after picking it;
/// a stage that unbinds does so from another driver.
pub open spec fn picked_driver(s: StageModel) -> Option<Seq<char>> {
    match s {
        StageOf::NativeDriverDir { driver } => Some(driver),
        StageOf::NativeLoad { driver } => Some(driver),
        StageOf::NativeOverrideExists { driver } => Some(driver),
        StageOf::NativeClearOverride { driver } => Some(driver),
        StageOf::NativeReadLink { driver } => Some(driver),
        StageOf::NativeUnbindCurrent { driver, current } => if current != driver {
            Some(driver)
        } else {
            None
        },
        StageOf::NativeBind { driver } => Some(driver),
        _ => None,
    }
}

/// Whether a request unbinds the device from a driver other than `driver`
/// or binds it to `driver`, as the host-driver operation does.
pub open spec fn rebinds_to(bdf: Seq<char>, driver: Seq<char>, q: RequestModel) -> bool {
    ||| q == (RequestOf::Write { path: driver_dir(driver) + "/bind"@, value: bdf })
    ||| exists|current: Seq<char>|
        current != driver && q == (RequestOf::Write {
            path: driver_dir(current) + "/unbind"@,
            value: bdf,
        })
}

/// From a stage at which the host driver is picked, the operation resolves
/// no modalias, and every write other than clearing the override unbinds
/// from another driver or binds to the picked one.
proof fn lemma_native_writes(t: TaskModel, replies: Seq<ReplyModel>, k: int)
    requires
        picked_driver(t.stage) is Some,
        0 <= k < requests_made(t, replies).len(),
    ensures
        !(requests_made(t, replies)[k] is ResolveAlias),
        requests_made(t, replies)[k] is Write && requests_made(t, replies)[k]->Write_path
            != override_path(t.bdf) ==> rebinds_to(
            t.bdf,
            picked_driver(t.stage)->Some_0,
            requests_made(t, replies)[k],
        ),
    decreases replies.len(),
{
    let qs = requests_made(t, replies);
    let d = picked_driver(t.stage)->Some_0;
    lemma_requests_made_first(t, replies);
    if k == 0 {
        if let StageOf::NativeUnbindCurrent { driver, current } = t.stage {
            assert(current != d);
            assert(rebinds_to(t.bdf, d, request_of(t)));
        }
    } else {
        let t2 = step(t, replies[0])->Next_0;
        let rest = requests_made(t2, replies.drop_first());
        assert(qs == seq![request_of(t)] + rest);
        assert(qs[k] == rest[k - 1]);
        assert(t2.bdf == t.bdf);
        assert(picked_driver(t2.stage) == Some(d));
        lemma_native_writes(t2, replies.drop_first(), k - 1);
    }
}

/// The module that a host-driver bind picks from the output of
/// `modprobe --resolve-alias`, when that output names any.
pub open spec fn picked_from(p: ProcessReportOf<Seq<char>, Seq<u8>>) -> Option<Seq<char>> {
    if p.success && valid_utf8(p.stdout) {
        pick_driver(preferred_drivers(), module_names(decode_utf8(p.stdout)))
    } else {
        None
    }
}

/// Whether the first reply of a host-driver bind, to the read of the PCI
/// class, shows a display function.
pub open spec fn shows_display(replies: Seq<ReplyModel>) -> bool {
    &&& replies.len() > 0
    &&& replies[0] matches ReplyOf::FileRead(Ok(c))
    &&& is_display_class(c)
}

/// The driver a host-driver bind settles on, from the replies to its first
/// requests: `nvidia` for a display function, else the module picked from
/// the output of `modprobe --resolve-alias` (its third reply, after the
/// class and the modalias were read).
pub open spec fn native_choice(replies: Seq<ReplyModel>) -> Option<Seq<char>> {
    if shows_display(replies) {
        Some("nvidia"@)
    } else if replies.len() >= 3 && replies[2] is Ran && replies[2]->Ran_0 is Ok {
        picked_from(replies[2]->Ran_0->Ok_0)
    } else {
        None
    }
}

/// Binding to the host driver: whatever the system answers, every write the
/// operation makes, other than clearing the device's `driver_override`,
/// writes the device's address either to the unbind file of a driver other
/// than the chosen one, or to the bind file of the chosen one. The chosen
/// driver is `nvidia` for a display function, and otherwise the module that
/// the device's modalias resolved to (`nvidia`, else `nouveau`, else the
/// first one named).
pub proof fn law_native_binds_chosen_driver(bdf: Seq<char>, replies: Seq<ReplyModel>, k: int)
    requires
        0 <= k < requests_made(native_start(bdf), replies).len(),
        (requests_made(native_start(bdf), replies)[k] is Write),
        requests_made(native_start(bdf), replies)[k]->Write_path != override_path(bdf),
    ensures
        native_choice(replies) is Some,
        rebinds_to(bdf, native_choice(replies)->Some_0, requests_made(native_start(bdf), replies)[k]),
{
    let t0 = native_start(bdf);
    let qs = requests_made(t0, replies);
    lemma_requests_made_first(t0, replies);
    assert(k >= 1);
    let t1 = step(t0, replies[0])->Next_0;
    let r1 = replies.drop_first();
    let qs1 = requests_made(t1, r1);
    lemma_requests_made_first(t1, r1);
    assert(qs == seq![request_of(t0)] + qs1);
    assert(qs[k] == qs1[k - 1]);
    if shows_display(replies) {
        assert(picked_driver(t1.stage) == Some("nvidia"@));
        lemma_native_writes(t1, r1, k - 1);
    } else {
        assert(t1.stage is NativeReadAlias);
        assert(k >= 2);
        let t2 = step(t1, r1[0])->Next_0;
        let r2 = r1.drop_first();
        let qs2 = requests_made(t2, r2);
        lemma_requests_made_first(t2, r2);
        assert(qs1 == seq![request_of(t1)] + qs2);
        assert(qs1[k - 1] == qs2[k - 2]);
        assert(t2.stage is NativeResolve);
        assert(k >= 3);
        let t3 = step(t2, r2[0])->Next_0;
        let r3 = r2.drop_first();
        let qs3 = requests_made(t3, r3);
        assert(qs2 == seq![request_of(t2)] + qs3);
        assert(qs2[k - 2] == qs3[k - 3]);
        assert(r2[0] == replies[2]);
        assert(t3.bdf == bdf);
        law_picked_driver_is_a_module(
            preferred_drivers(),
            module_names(decode_utf8(replies[2]->Ran_0->Ok_0.stdout)),
        );
        assert(picked_driver(t3.stage) == native_choice(replies));
        lemma_native_writes(t3, r3, k - 3);
    }
}

/// Binding a display function to the host driver: once the PCI class shows
/// a display controller, the operation never resolves the modalias, and every
/// write other than clearing the `driver_override` either unbinds the device
/// from a driver other than `nvidia` or binds it to `nvidia`, whatever the
/// modalias would name.
pub proof fn law_display_function_goes_to_nvidia(
    bdf: Seq<char>,
    class: Seq<char>,
    replies: Seq<ReplyModel>,
    k: int,
)
    requires
        replies.len() > 0,
        replies[0] == ReplyOf::<Seq<char>, Seq<u8>>::FileRead(Ok(class)),
        is_display_class(class),
        0 <= k < requests_made(native_start(bdf), replies).len(),
    ensures
        !(requests_made(native_start(bdf), replies)[k] is ResolveAlias),
        requests_made(native_start(bdf), replies)[k] is Write && requests_made(
            native_start(bdf),
            replies,
        )[k]->Write_path != override_path(bdf) ==> rebinds_to(
            bdf,
            "nvidia"@,
            requests_made(native_start(bdf), replies)[k],
        ),
{
    let t0 = native_start(bdf);
    let qs = requests_made(t0, replies);
    lemma_requests_made_first(t0, replies);
    if k >= 1 {
        let t1 = step(t0, replies[0])->Next_0;
        let r1 = replies.drop_first();
        let qs1 = requests_made(t1, r1);
        assert(qs == seq![request_of(t0)] + qs1);
        assert(qs[k] == qs1[k - 1]);
        assert(picked_driver(t1.stage) == Some("nvidia"@));
        lemma_native_writes(t1, r1, k - 1);
    }
}

/// What a task finishes with when its requests get `replies` one by one;
/// nothing while it still waits on a request, or after a reply of the wrong
/// kind.
pub open spec fn outcome(t: TaskModel, replies: Seq<ReplyModel>) -> Option<Result<(), BindErrorModel>>
    decreases replies.len(),
{
    if replies.len() == 0 || !answers(request_of(t), replies[0]) {
        None
    } else {
        match step(t, replies[0]) {
            ProgressOf::Next(t2) => outcome(t2, replies.drop_first()),
            ProgressOf::Finished(r) => Some(r),
        }
    }
}

/// Whether one of the requests writes the device's address to the bind file
/// of `driver`.
pub open spec fn binds_to(bdf: Seq<char>, driver: Seq<char>, qs: Seq<RequestModel>) -> bool {
    exists|k: int|
        0 <= k < qs.len() && #[trigger] qs[k] == (RequestOf::Write {
            path: driver_dir(driver) + "/bind"@,
            value: bdf,
        })
}

/// Whether one of the replies reads a `driver` link naming `driver`.
pub open spec fn found_bound_to(driver: Seq<char>, replies: Seq<ReplyModel>) -> bool {
    exists|j: int|
        0 <= j < replies.len() && (#[trigger] replies[j] matches ReplyOf::LinkRead(target)
            && driver_of_link(target) == Some(driver))
}

/// Whether one of the requests writes the device's address to the bind file
/// of `driver` and its reply says the write succeeded.
pub open spec fn bound_by_write(
    bdf: Seq<char>,
    driver: Seq<char>,
    qs: Seq<RequestModel>,
    replies: Seq<ReplyModel>,
) -> bool {
    exists|k: int|
        0 <= k < qs.len() && k < replies.len() && #[trigger] qs[k] == (RequestOf::Write {
            path: driver_dir(driver) + "/bind"@,
            value: bdf,
        }) && replies[k] is Written && replies[k]->Written_0 is Ok
}

/// From a stage at which the host driver is picked, the operation succeeds
/// only by a successful write to that driver's bind file or by finding the
/// device bound to it already.
proof fn lemma_native_success(t: TaskModel, replies: Seq<ReplyModel>)
    requires
        picked_driver(t.stage) is Some,
        outcome(t, replies) == Some(Ok::<(), BindErrorModel>(())),
    ensures
        bound_by_write(t.bdf, picked_driver(t.stage)->Some_0, requests_made(t, replies), replies)
            || found_bound_to(picked_driver(t.stage)->Some_0, replies),
    decreases replies.len(),
{
    let d = picked_driver(t.stage)->Some_0;
    let qs = requests_made(t, replies);
    lemma_requests_made_first(t, replies);
    match step(t, replies[0]) {
        ProgressOf::Next(t2) => {
            let r2 = replies.drop_first();
            let rest = requests_made(t2, r2);
            assert(qs == seq![request_of(t)] + rest);
            assert(t2.bdf == t.bdf);
            assert(picked_driver(t2.stage) == Some(d));
            lemma_native_success(t2, r2);
            assert(forall|k: int| 0 <= k < rest.len() ==> qs[k + 1] == #[trigger] rest[k]);
            assert(forall|j: int| 0 <= j < r2.len() ==> replies[j + 1] == #[trigger] r2[j]);
            lemma_success_in_tail(t.bdf, d, qs, replies, rest, r2, 1);
        },
        ProgressOf::Finished(_) => {
            if t.stage is NativeBind {
                assert(qs[0] == request_of(t));
                assert(step(t, replies[0]) == done());
                assert(replies[0] is Written);
                assert(replies[0]->Written_0 is Ok);
            } else {
                assert(t.stage is NativeReadLink);
                assert(replies[0] is LinkRead);
            }
        },
    }
}

/// The binding facts of a tail of a run hold of the whole run.
proof fn lemma_success_in_tail(
    bdf: Seq<char>,
    d: Seq<char>,
    qs: Seq<RequestModel>,
    replies: Seq<ReplyModel>,
    qt: Seq<RequestModel>,
    rs: Seq<ReplyModel>,
    shift: int,
)
    requires
        0 <= shift,
        shift + qt.len() <= qs.len(),
        shift + rs.len() <= replies.len(),
        forall|k: int| 0 <= k < qt.len() ==> qs[k + shift] == #[trigger] qt[k],
        forall|j: int| 0 <= j < rs.len() ==> replies[j + shift] == #[trigger] rs[j],
        bound_by_write(bdf, d, qt, rs) || found_bound_to(d, rs),
    ensures
        bound_by_write(bdf, d, qs, replies) || found_bound_to(d, replies),
{
    if bound_by_write(bdf, d, qt, rs) {
        let k = choose|k: int|
            0 <= k < qt.len() && k < rs.len() && #[trigger] qt[k] == (RequestOf::Write {
                path: driver_dir(d) + "/bind"@,
                value: bdf,
            }) && rs[k] is Written && rs[k]->Written_0 is Ok;
        assert(qs[k + shift] == qt[k]);
        assert(replies[k + shift] == rs[k]);
    } else {
        let j = choose|j: int|
            0 <= j < rs.len() && (#[trigger] rs[j] matches ReplyOf::LinkRead(target)
                && driver_of_link(target) == Some(d));
        assert(replies[j + shift] == rs[j]);
    }
}

/// Binding to the host driver succeeds only when the device ends on the
/// chosen driver (`nvidia` for a display function, else the module its
/// modalias resolved to): the operation either wrote the device's address to
/// that driver's bind file and the write succeeded, or read a `driver` link
/// that already named it. A failed write to the bind file, whatever the
/// failure, is never a success.
pub proof fn law_native_success_binds_chosen_driver(bdf: Seq<char>, replies: Seq<ReplyModel>)
    requires
        outcome(native_start(bdf), replies) == Some(Ok::<(), BindErrorModel>(())),
    ensures
        native_choice(replies) is Some,
        binds_to(bdf, native_choice(replies)->Some_0, requests_made(native_start(bdf), replies))
            || found_bound_to(native_choice(replies)->Some_0, replies),
        bound_by_write(
            bdf,
            native_choice(replies)->Some_0,
            requests_made(native_start(bdf), replies),
            replies,
        ) || found_bound_to(native_choice(replies)->Some_0, replies),
{
    let t0 = native_start(bdf);
    let qs = requests_made(t0, replies);
    let t1 = step(t0, replies[0])->Next_0;
    let r1 = replies.drop_first();
    let qs1 = requests_made(t1, r1);
    assert(outcome(t1, r1) == outcome(t0, replies));
    assert(qs == seq![request_of(t0)] + qs1);
    if shows_display(replies) {
        let d = "nvidia"@;
        assert(picked_driver(t1.stage) == Some(d));
        lemma_native_success(t1, r1);
        assert(forall|k: int| 0 <= k < qs1.len() ==> qs[k + 1] == #[trigger] qs1[k]);
        assert(forall|j: int| 0 <= j < r1.len() ==> replies[j + 1] == #[trigger] r1[j]);
        lemma_success_in_tail(bdf, d, qs, replies, qs1, r1, 1);
    } else {
        assert(t1.stage is NativeReadAlias);
        let t2 = step(t1, r1[0])->Next_0;
        let r2 = r1.drop_first();
        let qs2 = requests_made(t2, r2);
        assert(outcome(t2, r2) == outcome(t1, r1));
        assert(qs1 == seq![request_of(t1)] + qs2);
        assert(t2.stage is NativeResolve);
        let t3 = step(t2, r2[0])->Next_0;
        let r3 = r2.drop_first();
        let qs3 = requests_made(t3, r3);
        assert(outcome(t3, r3) == outcome(t2, r2));
        assert(qs2 == seq![request_of(t2)] + qs3);
        assert(r2[0] == replies[2]);
        law_picked_driver_is_a_module(
            preferred_drivers(),
            module_names(decode_utf8(replies[2]->Ran_0->Ok_0.stdout)),
        );
        assert(picked_driver(t3.stage) == native_choice(replies));
        let d = native_choice(replies)->Some_0;
        assert(t3.bdf == bdf);
        lemma_native_success(t3, r3);
        assert(forall|k: int| 0 <= k < qs3.len() ==> qs[k + 3] == #[trigger] qs3[k]);
        assert(forall|j: int| 0 <= j < r3.len() ==> replies[j + 3] == #[trigger] r3[j]);
        lemma_success_in_tail(bdf, d, qs, replies, qs3, r3, 3);
    }
    let d = native_choice(replies)->Some_0;
    if bound_by_write(bdf, d, qs, replies) {
        let k = choose|k: int|
            0 <= k < qs.len() && k < replies.len() && #[trigger] qs[k] == (RequestOf::Write {
                path: driver_dir(d) + "/bind"@,
                value: bdf,
            }) && replies[k] is Written && replies[k]->Written_0 is Ok;
        assert(binds_to(bdf, d, qs));
    }
}

/// A reply that a system on which the device is already bound to `driver`
/// (with its module loaded) gives after the driver is chosen: every
/// `modprobe` run succeeds, and every `driver` link read names `driver`.
pub open spec fn settled_reply(r: ReplyModel, driver: Seq<char>) -> bool {
    match r {
        ReplyOf::Ran(o) => o is Ok && o->Ok_0.success,
        ReplyOf::LinkRead(target) => driver_of_link(target) == Some(driver),
        _ => true,
    }
}

/// Whether a reply reads a modalias with something besides white space.
pub open spec fn reads_some_alias(r: ReplyModel) -> bool {
    r is FileRead && r->FileRead_0 is Ok && trimmed(r->FileRead_0->Ok_0).len() > 0
}

/// The replies a host-driver bind gets on a system where the device is
/// already bound to the driver the bind chooses: the class reads (or not) as
/// before; for a function other than a display one, the modalias reads
/// non-empty and resolves as before; every `modprobe` run succeeds; every
/// `driver` link read names the chosen driver.
pub open spec fn replies_when_bound(replies: Seq<ReplyModel>) -> bool {
    &&& native_choice(replies) is Some
    &&& replies.len() > 0 && replies[0] is FileRead
    &&& !shows_display(replies) ==> reads_some_alias(replies[1])
    &&& forall|j: int|
        0 <= j < replies.len() ==> settled_reply(#[trigger] replies[j], native_choice(replies)->Some_0)
}

/// From a stage after the driver is chosen and before any unbind or bind, on
/// a system where the device is bound to that driver, the operation writes
/// nothing but the clearing of the override, and succeeds if it finishes.
proof fn lemma_native_settled(t: TaskModel, replies: Seq<ReplyModel>, d: Seq<char>)
    requires
        picked_driver(t.stage) == Some(d),
        t.stage is NativeDriverDir || t.stage is NativeLoad || t.stage is NativeOverrideExists
            || t.stage is NativeClearOverride || t.stage is NativeReadLink,
        forall|j: int| 0 <= j < replies.len() ==> settled_reply(#[trigger] replies[j], d),
    ensures
        forall|k: int|
            0 <= k < requests_made(t, replies).len() && (#[trigger] requests_made(t, replies)[k]) is Write
                ==> requests_made(t, replies)[k] == (RequestOf::Write {
                path: override_path(t.bdf),
                value: "\n"@,
            }),
        outcome(t, replies) is Some ==> outcome(t, replies) == Some(Ok::<(), BindErrorModel>(())),
    decreases replies.len(),
{
    let qs = requests_made(t, replies);
    lemma_requests_made_first(t, replies);
    if replies.len() > 0 && answers(request_of(t), replies[0]) {
        assert(settled_reply(replies[0], d));
        if let ProgressOf::Next(t2) = step(t, replies[0]) {
            let r2 = replies.drop_first();
            assert forall|j: int| 0 <= j < r2.len() implies settled_reply(#[trigger] r2[j], d) by {
                assert(r2[j] == replies[j + 1]);
            }
            assert(t2.bdf == t.bdf);
            lemma_native_settled(t2, r2, d);
            let rest = requests_made(t2, r2);
            assert(qs == seq![request_of(t)] + rest);
            assert forall|k: int| 0 <= k < qs.len() && (#[trigger] qs[k]) is Write implies qs[k]
                == (RequestOf::Write { path: override_path(t.bdf), value: "\n"@ }) by {
                if k > 0 {
                    assert(qs[k] == rest[k - 1]);
                }
            }
        }
    }
}

/// Binding to the host driver a second time, once the device is bound to the
/// driver the bind chooses and its module is loaded, writes nothing but the
/// clearing of the device's `driver_override` (no unbind and no bind), and
/// succeeds when it finishes.
pub proof fn law_native_bind_again_only_clears_override(bdf: Seq<char>, replies: Seq<ReplyModel>)
    requires
        replies_when_bound(replies),
    ensures
        forall|k: int|
            0 <= k < requests_made(native_start(bdf), replies).len() && (#[trigger] requests_made(
                native_start(bdf),
                replies,
            )[k]) is Write ==> requests_made(native_start(bdf), replies)[k] == (RequestOf::Write {
                path: override_path(bdf),
                value: "\n"@,
            }),
        outcome(native_start(bdf), replies) is Some ==> outcome(native_start(bdf), replies) == Some(
            Ok::<(), BindErrorModel>(()),
        ),
{
    let d = native_choice(replies)->Some_0;
    let t0 = native_start(bdf);
    let qs = requests_made(t0, replies);
    let t1 = step(t0, replies[0])->Next_0;
    let r1 = replies.drop_first();
    let qs1 = requests_made(t1, r1);
    lemma_requests_made_first(t0, replies);
    assert(qs == seq![request_of(t0)] + qs1);
    assert(outcome(t0, replies) == outcome(t1, r1));
    if shows_display(replies) {
        assert forall|j: int| 0 <= j < r1.len() implies settled_reply(#[trigger] r1[j], d) by {
            assert(r1[j] == replies[j + 1]);
        }
        lemma_native_settled(t1, r1, d);
        assert forall|k: int| 0 <= k < qs.len() && (#[trigger] qs[k]) is Write implies qs[k]
            == (RequestOf::Write { path: override_path(bdf), value: "\n"@ }) by {
            if k > 0 {
                assert(qs[k] == qs1[k - 1]);
            }
        }
    } else {
        assert(t1.stage is NativeReadAlias);
        assert(r1[0] == replies[1]);
        let t2 = step(t1, r1[0])->Next_0;
        let r2 = r1.drop_first();
        let qs2 = requests_made(t2, r2);
        lemma_requests_made_first(t1, r1);
        assert(qs1 == seq![request_of(t1)] + qs2);
        assert(outcome(t1, r1) == outcome(t2, r2));
        assert(r2[0] == replies[2]);
        let p = replies[2]->Ran_0->Ok_0;
        law_picked_driver_is_a_module(preferred_drivers(), module_names(decode_utf8(p.stdout)));
        let t3 = step(t2, r2[0])->Next_0;
        let r3 = r2.drop_first();
        let qs3 = requests_made(t3, r3);
        lemma_requests_made_first(t2, r2);
        assert(qs2 == seq![request_of(t2)] + qs3);
        assert(outcome(t2, r2) == outcome(t3, r3));
        assert(t3.stage == StageOf::NativeDriverDir::<Seq<char>> { driver: d });
        assert forall|j: int| 0 <= j < r3.len() implies settled_reply(#[trigger] r3[j], d) by {
            assert(r3[j] == replies[j + 3]);
        }
        lemma_native_settled(t3, r3, d);
        assert forall|k: int| 0 <= k < qs.len() && (#[trigger] qs[k]) is Write implies qs[k]
            == (RequestOf::Write { path: override_path(bdf), value: "\n"@ }) by {
            if k >= 3 {
                assert(qs[k] == qs1[k - 1]);
                assert(qs1[k - 1] == qs2[k - 2]);
                assert(qs2[k - 2] == qs3[k - 3]);
            } else if k == 2 {
                assert(qs[k] == qs1[1]);
                assert(qs1[1] == qs2[0]);
            } else if k == 1 {
                assert(qs[k] == qs1[0]);
            }
        }
    }
}

/// Unbinding a second time, once the device is driverless, makes no write:
/// it reads the `driver` link, finds no driver and succeeds.
pub proof fn law_unbind_again_writes_nothing(bdf: Seq<char>, replies: Seq<ReplyModel>)
    requires
        replies.len() > 0,
        replies[0] matches ReplyOf::LinkRead(target) && driver_of_link(target) is None,
    ensures
        requests_made(unbind_start(bdf), replies) == seq![request_of(unbind_start(bdf))],
        outcome(unbind_start(bdf), replies) == Some(Ok::<(), BindErrorModel>(())),
{
}

/// Whether a reply says that a write failed.
pub open spec fn write_failed(r: ReplyModel) -> bool {
    r is Written && r->Written_0 is Err
}

/// An operation that succeeds had no failed write, other than a failed
/// clearing of the device's `driver_override` (which the host-driver and
/// VFIO binds ignore): whatever the failure, busy or not, a failed unbind or
/// bind write ends the operation with an error.
pub proof fn law_success_has_no_failed_write(t: TaskModel, replies: Seq<ReplyModel>, k: int)
    requires
        outcome(t, replies) == Some(Ok::<(), BindErrorModel>(())),
        0 <= k < requests_made(t, replies).len(),
        k < replies.len(),
        write_failed(replies[k]),
    ensures
        requests_made(t, replies)[k] == (RequestOf::Write { path: override_path(t.bdf), value: "\n"@ }),
    decreases replies.len(),
{
    let qs = requests_made(t, replies);
    lemma_requests_made_first(t, replies);
    if k == 0 {
        assert(answers(request_of(t), replies[0]));
        assert(step(t, replies[0]) is Next || step(t, replies[0]) == done());
    } else {
        let t2 = step(t, replies[0])->Next_0;
        let r2 = replies.drop_first();
        let rest = requests_made(t2, r2);
        assert(qs == seq![request_of(t)] + rest);
        assert(qs[k] == rest[k - 1]);
        assert(r2[k - 1] == replies[k]);
        law_each_reply_moves_on(t, replies[0]);
        law_success_has_no_failed_write(t2, r2, k - 1);
    }
}

/// Whether one of the requests writes the device's address to `vfio-pci`'s
/// bind file and its reply says the write succeeded.
pub open spec fn bound_to_vfio(bdf: Seq<char>, qs: Seq<RequestModel>, replies: Seq<ReplyModel>) -> bool {
    exists|k: int|
        0 <= k < qs.len() && k < replies.len() && #[trigger] qs[k] == (RequestOf::Write {
            path: vfio_bind_path(),
            value: bdf + "\n"@,
        }) && replies[k] is Written && replies[k]->Written_0 is Ok
}

/// The VFIO operation, from a stage up to its bind, succeeds only after a
/// successful write of the address to `vfio-pci`'s bind file.
proof fn lemma_vfio_success(t: TaskModel, replies: Seq<ReplyModel>)
    requires
        t.stage is VfioDriverDir || t.stage is VfioLoad || t.stage is VfioSetOverride
            || t.stage is VfioLinkExists || t.stage is VfioUnbind || t.stage is VfioBind,
        outcome(t, replies) == Some(Ok::<(), BindErrorModel>(())),
    ensures
        bound_to_vfio(t.bdf, requests_made(t, replies), replies),
    decreases replies.len(),
{
    let qs = requests_made(t, replies);
    lemma_requests_made_first(t, replies);
    let t2 = step(t, replies[0])->Next_0;
    let r2 = replies.drop_first();
    let rest = requests_made(t2, r2);
    assert(qs == seq![request_of(t)] + rest);
    if t.stage is VfioBind {
        assert(replies[0] is Written && replies[0]->Written_0 is Ok);
        assert(qs[0] == request_of(t));
    } else {
        assert(t2.bdf == t.bdf);
        lemma_vfio_success(t2, r2);
        let k = choose|k: int|
            0 <= k < rest.len() && k < r2.len() && #[trigger] rest[k] == (RequestOf::Write {
                path: vfio_bind_path(),
                value: t.bdf + "\n"@,
            }) && r2[k] is Written && r2[k]->Written_0 is Ok;
        assert(qs[k + 1] == rest[k]);
        assert(replies[k + 1] == r2[k]);
    }
}

/// Binding to `vfio-pci` succeeds only if the operation wrote the device's
/// address, followed by a line feed, to `vfio-pci`'s bind file and that
/// write succeeded; a failed bind write, whatever the failure, is never a
/// success.
pub proof fn law_vfio_success_binds_vfio(bdf: Seq<char>, replies: Seq<ReplyModel>)
    requires
        outcome(vfio_start(bdf), replies) == Some(Ok::<(), BindErrorModel>(())),
    ensures
        bound_to_vfio(bdf, requests_made(vfio_start(bdf), replies), replies),
{
    lemma_vfio_success(vfio_start(bdf), replies);
}

/// Unbinding a device whose `driver` link names a driver writes the device's
/// address to that driver's unbind file right after reading the link, and
/// succeeds only if that write succeeds.
pub proof fn law_unbind_writes_to_named_driver(
    bdf: Seq<char>,
    target: Option<Seq<char>>,
    replies: Seq<ReplyModel>,
)
    requires
        replies.len() > 0,
        replies[0] == ReplyOf::<Seq<char>, Seq<u8>>::LinkRead(target),
        driver_of_link(target) is Some,
    ensures
        requests_made(unbind_start(bdf), replies).len() == 2,
        requests_made(unbind_start(bdf), replies)[1] == (RequestOf::Write {
            path: unbind_file(driver_of_link(target)->Some_0),
            value: bdf,
        }),
        outcome(unbind_start(bdf), replies) == Some(Ok::<(), BindErrorModel>(())) <==> (replies.len()
            >= 2 && replies[1] is Written && replies[1]->Written_0 is Ok),
{
    let t = unbind_start(bdf);
    let t2 = step(t, replies[0])->Next_0;
    let r2 = replies.drop_first();
    lemma_requests_made_first(t2, r2);
    assert(outcome(t, replies) == outcome(t2, r2));
    if r2.len() > 0 {
        assert(r2[0] == replies[1]);
        if r2[0] is Written {
            assert(answers(request_of(t2), r2[0]));
            if r2[0]->Written_0 is Ok {
                assert(step(t2, r2[0]) == done());
            } else {
                assert(step(t2, r2[0]) is Finished);
                assert(step(t2, r2[0])->Finished_0 is Err);
            }
        }
    }
    assert(requests_made(t2, r2) =~= seq![request_of(t2)]);
}

/// Whether a request and its reply show the module of `driver` ready: its
/// driver directory exists, or `modprobe` loaded it successfully.
pub open spec fn module_ready(driver: Seq<char>, q: RequestModel, r: ReplyModel) -> bool {
    ||| q == (RequestOf::CheckExists { path: driver_dir(driver) }) && r == ReplyOf::<
        Seq<char>,
        Seq<u8>,
    >::Existence(true)
    ||| q == (RequestOf::LoadModule { module: driver }) && r is Ran && r->Ran_0 is Ok
        && r->Ran_0->Ok_0.success
}

/// The driver whose module a stage checks or loads, for the stages that do.
pub open spec fn readying(s: StageModel) -> Option<Seq<char>> {
    match s {
        StageOf::NativeDriverDir { driver } => Some(driver),
        StageOf::NativeLoad { driver } => Some(driver),
        StageOf::VfioDriverDir => Some("vfio-pci"@),
        StageOf::VfioLoad => Some("vfio-pci"@),
        _ => None,
    }
}

/// From a stage that checks or loads a module, every later write comes after
/// the module was found or loaded.
proof fn lemma_ready_before_writes(t: TaskModel, replies: Seq<ReplyModel>, k: int) -> (j: int)
    requires
        readying(t.stage) is Some,
        0 <= k < requests_made(t, replies).len(),
        requests_made(t, replies)[k] is Write,
    ensures
        0 <= j < k,
        j < replies.len(),
        module_ready(readying(t.stage)->Some_0, requests_made(t, replies)[j], replies[j]),
    decreases replies.len(),
{
    let qs = requests_made(t, replies);
    let d = readying(t.stage)->Some_0;
    lemma_requests_made_first(t, replies);
    let t2 = step(t, replies[0])->Next_0;
    let r2 = replies.drop_first();
    let rest = requests_made(t2, r2);
    assert(qs == seq![request_of(t)] + rest);
    assert(qs[k] == rest[k - 1]);
    if module_ready(d, request_of(t), replies[0]) {
        0
    } else {
        assert(readying(t2.stage) == Some(d));
        let j2 = lemma_ready_before_writes(t2, r2, k - 1);
        assert(qs[j2 + 1] == rest[j2]);
        assert(replies[j2 + 1] == r2[j2]);
        j2 + 1
    }
}

/// Binding to the host driver makes no write (neither clearing the override
/// nor unbinding nor binding) before the chosen driver's module is ready:
/// its driver directory was found, or `modprobe` loaded it successfully.
pub proof fn law_native_module_ready_before_writes(bdf: Seq<char>, replies: Seq<ReplyModel>, k: int)
    requires
        0 <= k < requests_made(native_start(bdf), replies).len(),
        (requests_made(native_start(bdf), replies)[k] is Write),
    ensures
        native_choice(replies) is Some,
        exists|j: int|
            0 <= j < k && j < replies.len() && #[trigger] module_ready(
                native_choice(replies)->Some_0,
                requests_made(native_start(bdf), replies)[j],
                replies[j],
            ),
{
    let t0 = native_start(bdf);
    let qs = requests_made(t0, replies);
    lemma_requests_made_first(t0, replies);
    let t1 = step(t0, replies[0])->Next_0;
    let r1 = replies.drop_first();
    let qs1 = requests_made(t1, r1);
    assert(qs == seq![request_of(t0)] + qs1);
    assert(qs[k] == qs1[k - 1]);
    let d = native_choice(replies)->Some_0;
    if shows_display(replies) {
        let j1 = lemma_ready_before_writes(t1, r1, k - 1);
        assert(qs[j1 + 1] == qs1[j1]);
        assert(replies[j1 + 1] == r1[j1]);
        assert(module_ready(d, qs[j1 + 1], replies[j1 + 1]));
    } else {
        lemma_requests_made_first(t1, r1);
        let t2 = step(t1, r1[0])->Next_0;
        let r2 = r1.drop_first();
        let qs2 = requests_made(t2, r2);
        assert(qs1 == seq![request_of(t1)] + qs2);
        assert(qs1[k - 1] == qs2[k - 2]);
        lemma_requests_made_first(t2, r2);
        let t3 = step(t2, r2[0])->Next_0;
        let r3 = r2.drop_first();
        let qs3 = requests_made(t3, r3);
        assert(qs2 == seq![request_of(t2)] + qs3);
        assert(qs2[k - 2] == qs3[k - 3]);
        assert(r2[0] == replies[2]);
        law_picked_driver_is_a_module(
            preferred_drivers(),
            module_names(decode_utf8(replies[2]->Ran_0->Ok_0.stdout)),
        );
        assert(readying(t3.stage) == native_choice(replies));
        let j3 = lemma_ready_before_writes(t3, r3, k - 3);
        assert(qs[j3 + 3] == qs3[j3]);
        assert(replies[j3 + 3] == r3[j3]);
        assert(module_ready(d, qs[j3 + 3], replies[j3 + 3]));
    }
}

/// Binding to `vfio-pci` makes no write (not even setting the override)
/// before `vfio-pci` is ready: its driver directory was found, or `modprobe`
/// loaded it successfully.
pub proof fn law_vfio_module_ready_before_writes(bdf: Seq<char>, replies: Seq<ReplyModel>, k: int)
    requires
        0 <= k < requests_made(vfio_start(bdf), replies).len(),
        (requests_made(vfio_start(bdf), replies)[k] is Write),
    ensures
        exists|j: int|
            0 <= j < k && j < replies.len() && #[trigger] module_ready(
                "vfio-pci"@,
                requests_made(vfio_start(bdf), replies)[j],
                replies[j],
            ),
{
    let j = lemma_ready_before_writes(vfio_start(bdf), replies, k);
    assert(module_ready("vfio-pci"@, requests_made(vfio_start(bdf), replies)[j], replies[j]));
}

/// The write that clears a device's `driver_override`.
pub open spec fn clear_override(bdf: Seq<char>) -> RequestModel {
    RequestOf::Write { path: override_path(bdf), value: "\n"@ }
}

/// The write that binds a device to a driver, as the host-driver bind makes it.
pub open spec fn native_bind_write(bdf: Seq<char>, driver: Seq<char>) -> RequestModel {
    RequestOf::Write { path: driver_dir(driver) + "/bind"@, value: bdf }
}

/// The host-driver stages from the module check up to reading the link.
pub open spec fn before_link_read(s: StageModel) -> bool {
    ||| s is NativeDriverDir
    ||| s is NativeLoad
    ||| s is NativeOverrideExists
    ||| s is NativeClearOverride
    ||| s is NativeReadLink
}

proof fn lemma_link_read_before_writes(t: TaskModel, replies: Seq<ReplyModel>, k: int) -> (j: int)
    requires
        before_link_read(t.stage),
        0 <= k < requests_made(t, replies).len(),
        requests_made(t, replies)[k] is Write,
        requests_made(t, replies)[k] != clear_override(t.bdf),
    ensures
        0 <= j < k,
        requests_made(t, replies)[j] == (RequestOf::ReadLink { path: link_path(t.bdf) }),
    decreases replies.len(),
{
    let qs = requests_made(t, replies);
    lemma_requests_made_first(t, replies);
    if t.stage is NativeReadLink {
        0
    } else {
        let t2 = step(t, replies[0])->Next_0;
        let r2 = replies.drop_first();
        let rest = requests_made(t2, r2);
        assert(qs == seq![request_of(t)] + rest);
        assert(qs[k] == rest[k - 1]);
        assert(t2.bdf == t.bdf);
        let j2 = lemma_link_read_before_writes(t2, r2, k - 1);
        assert(qs[j2 + 1] == rest[j2]);
        j2 + 1
    }
}

/// What a host-driver bind does right after reading the `driver` link, at
/// position `j` of its run, having chosen `d`.
pub open spec fn after_link_read(
    bdf: Seq<char>,
    d: Seq<char>,
    qs: Seq<RequestModel>,
    replies: Seq<ReplyModel>,
    j: int,
    finished_ok: bool,
) -> bool {
    let found = driver_of_link(replies[j]->LinkRead_0);
    &&& found is None ==> j + 1 < qs.len() && qs[j + 1] == native_bind_write(bdf, d)
    &&& found == Some(d) ==> qs.len() == j + 1 && finished_ok
    &&& found is Some && found->Some_0 != d ==> {
        &&& j + 1 < qs.len()
        &&& qs[j + 1] == (RequestOf::Write {
            path: driver_dir(found->Some_0) + "/unbind"@,
            value: bdf,
        })
        &&& j + 2 < qs.len() ==> replies[j + 1] is Written && replies[j + 1]->Written_0 is Ok
            && qs[j + 2] == native_bind_write(bdf, d)
    }
}

/// After the link is read, a host-driver bind makes only writes.
proof fn lemma_only_writes_after_link(t: TaskModel, replies: Seq<ReplyModel>, i: int)
    requires
        t.stage is NativeUnbindCurrent || t.stage is NativeBind,
        0 <= i < requests_made(t, replies).len(),
    ensures
        requests_made(t, replies)[i] is Write,
    decreases replies.len(),
{
    lemma_requests_made_first(t, replies);
    if i > 0 {
        let t2 = step(t, replies[0])->Next_0;
        let r2 = replies.drop_first();
        assert(requests_made(t, replies) == seq![request_of(t)] + requests_made(t2, r2));
        lemma_only_writes_after_link(t2, r2, i - 1);
    }
}

/// A run makes at most one request more than it gets replies.
proof fn lemma_requests_len(t: TaskModel, replies: Seq<ReplyModel>)
    ensures
        requests_made(t, replies).len() <= replies.len() + 1,
    decreases replies.len(),
{
    if replies.len() > 0 && answers(request_of(t), replies[0]) {
        if let ProgressOf::Next(t2) = step(t, replies[0]) {
            lemma_requests_len(t2, replies.drop_first());
        }
    }
}

proof fn lemma_after_link_read(t: TaskModel, replies: Seq<ReplyModel>, j: int)
    requires
        before_link_read(t.stage),
        picked_driver(t.stage) is Some,
        0 <= j < requests_made(t, replies).len(),
        j < replies.len(),
        requests_made(t, replies)[j] is ReadLink,
        replies[j] is LinkRead,
    ensures
        after_link_read(
            t.bdf,
            picked_driver(t.stage)->Some_0,
            requests_made(t, replies),
            replies,
            j,
            outcome(t, replies) == Some(Ok::<(), BindErrorModel>(())),
        ),
    decreases replies.len(),
{
    let qs = requests_made(t, replies);
    let d = picked_driver(t.stage)->Some_0;
    lemma_requests_made_first(t, replies);
    let t2 = step(t, replies[0])->Next_0;
    let r2 = replies.drop_first();
    let rest = requests_made(t2, r2);
    if j == 0 {
        assert(t.stage is NativeReadLink);
        let found = driver_of_link(replies[0]->LinkRead_0);
        if found is Some && found->Some_0 == d {
            assert(step(t, replies[0]) == done());
            assert(outcome(t, replies) == Some(Ok::<(), BindErrorModel>(())));
            assert(qs.len() == 1);
        } else {
            assert(qs == seq![request_of(t)] + rest);
            lemma_requests_made_first(t2, r2);
            assert(qs[1] == rest[0]);
            if found is Some {
                assert(t2.stage == StageOf::NativeUnbindCurrent { driver: d, current: found->Some_0 });
                if qs.len() > 2 {
                    assert(rest.len() > 1);
                    assert(r2.len() > 0 && answers(request_of(t2), r2[0]));
                    assert(r2[0] == replies[1]);
                    let t3 = step(t2, r2[0])->Next_0;
                    let r3 = r2.drop_first();
                    lemma_requests_made_first(t3, r3);
                    assert(rest == seq![request_of(t2)] + requests_made(t3, r3));
                    assert(qs[2] == rest[1]);
                }
            }
        }
    } else {
        assert(qs == seq![request_of(t)] + rest);
        assert(qs[j] == rest[j - 1]);
        assert(r2[j - 1] == replies[j]);
        if t.stage is NativeReadLink {
            lemma_only_writes_after_link(t2, r2, j - 1);
        }
        assert(t2.bdf == t.bdf);
        assert(picked_driver(t2.stage) == Some(d));
        assert(outcome(t, replies) == outcome(t2, r2));
        lemma_after_link_read(t2, r2, j - 1);
        lemma_requests_len(t2, r2);
        assert(qs.len() == rest.len() + 1);
        if j + 1 < qs.len() {
            assert(qs[j + 1] == rest[j]);
        }
        if j + 2 < qs.len() {
            assert(qs[j + 2] == rest[j + 1]);
            assert(replies[j + 1] == r2[j]);
        }
    }
}

/// From a fresh host-driver bind whose run gets as far as a write or a link
/// read (at position `m`), the task at the stage where the driver is chosen
/// and the number of requests made before it (one for a display function,
/// three otherwise).
proof fn lemma_native_reaches_choice(bdf: Seq<char>, replies: Seq<ReplyModel>, m: int) -> (r: (
    TaskModel,
    int,
))
    requires
        0 <= m < requests_made(native_start(bdf), replies).len(),
        requests_made(native_start(bdf), replies)[m] is Write || requests_made(
            native_start(bdf),
            replies,
        )[m] is ReadLink,
    ensures
        r.1 == 1 || r.1 == 3,
        r.1 <= m,
        r.1 <= replies.len(),
        r.0.bdf == bdf,
        r.0.stage is NativeDriverDir,
        native_choice(replies) is Some,
        picked_driver(r.0.stage) == native_choice(replies),
        requests_made(native_start(bdf), replies).len() == r.1 + requests_made(
            r.0,
            replies.subrange(r.1, replies.len() as int),
        ).len(),
        forall|i: int|
            0 <= i < requests_made(r.0, replies.subrange(r.1, replies.len() as int)).len()
                ==> requests_made(native_start(bdf), replies)[i + r.1] == #[trigger] requests_made(
                r.0,
                replies.subrange(r.1, replies.len() as int),
            )[i],
        outcome(native_start(bdf), replies) == outcome(
            r.0,
            replies.subrange(r.1, replies.len() as int),
        ),
{
    let t0 = native_start(bdf);
    let qs = requests_made(t0, replies);
    lemma_requests_made_first(t0, replies);
    assert(m >= 1);
    let t1 = step(t0, replies[0])->Next_0;
    let r1 = replies.drop_first();
    let qs1 = requests_made(t1, r1);
    assert(qs == seq![request_of(t0)] + qs1);
    assert(qs[m] == qs1[m - 1]);
    assert(outcome(t0, replies) == outcome(t1, r1));
    if shows_display(replies) {
        assert(r1 =~= replies.subrange(1, replies.len() as int));
        assert forall|i: int| 0 <= i < qs1.len() implies qs[i + 1] == #[trigger] qs1[i] by {}
        (t1, 1)
    } else {
        assert(t1.stage is NativeReadAlias);
        lemma_requests_made_first(t1, r1);
        assert(m >= 2);
        let t2 = step(t1, r1[0])->Next_0;
        let r2 = r1.drop_first();
        let qs2 = requests_made(t2, r2);
        assert(qs1 == seq![request_of(t1)] + qs2);
        assert(qs1[m - 1] == qs2[m - 2]);
        assert(outcome(t1, r1) == outcome(t2, r2));
        lemma_requests_made_first(t2, r2);
        assert(m >= 3);
        let t3 = step(t2, r2[0])->Next_0;
        let r3 = r2.drop_first();
        let qs3 = requests_made(t3, r3);
        assert(qs2 == seq![request_of(t2)] + qs3);
        assert(outcome(t2, r2) == outcome(t3, r3));
        assert(r2[0] == replies[2]);
        law_picked_driver_is_a_module(
            preferred_drivers(),
            module_names(decode_utf8(replies[2]->Ran_0->Ok_0.stdout)),
        );
        assert(r3 =~= replies.subrange(3, replies.len() as int));
        assert forall|i: int| 0 <= i < qs3.len() implies qs[i + 3] == #[trigger] qs3[i] by {
            assert(qs[i + 3] == qs1[i + 2]);
            assert(qs1[i + 2] == qs2[i + 1]);
        }
        (t3, 3)
    }
}

/// Binding to the host driver reads the device's `driver` link before any
/// write other than clearing the `driver_override`: it never unbinds or binds
/// without first looking at the driver the device is on.
pub proof fn law_native_reads_link_before_rebinding(bdf: Seq<char>, replies: Seq<ReplyModel>, k: int)
    requires
        0 <= k < requests_made(native_start(bdf), replies).len(),
        (requests_made(native_start(bdf), replies)[k] is Write),
        requests_made(native_start(bdf), replies)[k] != clear_override(bdf),
    ensures
        exists|j: int|
            0 <= j < k && #[trigger] requests_made(native_start(bdf), replies)[j] == (RequestOf::ReadLink {
                path: link_path(bdf),
            }),
{
    let qs = requests_made(native_start(bdf), replies);
    let (t, n) = lemma_native_reaches_choice(bdf, replies, k);
    let rs = replies.subrange(n, replies.len() as int);
    let qt = requests_made(t, rs);
    assert(qs[k] == qt[k - n]);
    let j = lemma_link_read_before_writes(t, rs, k - n);
    assert(qs[j + n] == qt[j]);
}

/// Binding to the host driver, right after reading the device's `driver`
/// link: when the link names no driver, the next request binds the device to
/// the chosen driver; when it names the chosen driver, the operation makes no
/// further request and succeeds; when it names another driver, the next
/// request unbinds the device from that driver, and only if that succeeds
/// does the bind to the chosen driver follow.
pub proof fn law_native_after_link_read(bdf: Seq<char>, replies: Seq<ReplyModel>, j: int)
    requires
        0 <= j < requests_made(native_start(bdf), replies).len(),
        j < replies.len(),
        requests_made(native_start(bdf), replies)[j] is ReadLink,
        replies[j] is LinkRead,
    ensures
        native_choice(replies) is Some,
        after_link_read(
            bdf,
            native_choice(replies)->Some_0,
            requests_made(native_start(bdf), replies),
            replies,
            j,
            outcome(native_start(bdf), replies) == Some(Ok::<(), BindErrorModel>(())),
        ),
{
    let qs = requests_made(native_start(bdf), replies);
    let (t, n) = lemma_native_reaches_choice(bdf, replies, j);
    let rs = replies.subrange(n, replies.len() as int);
    let qt = requests_made(t, rs);
    assert(qs[j] == qt[j - n]);
    assert(rs[j - n] == replies[j]);
    lemma_after_link_read(t, rs, j - n);
    lemma_requests_len(t, rs);
    if j + 1 - n < qt.len() {
        assert(qs[j + 1] == qt[j + 1 - n]);
    }
    if j + 2 - n < qt.len() {
        assert(qs[j + 2] == qt[j + 2 - n]);
        assert(rs[j + 1 - n] == replies[j + 1]);
    }
}

/// The write of a device's address to `vfio-pci`'s bind file.
pub open spec fn vfio_bind_write(bdf: Seq<char>) -> RequestModel {
    RequestOf::Write { path: vfio_bind_path(), value: bdf + "\n"@ }
}

/// The write that unbinds a device through its `driver` link.
pub open spec fn vfio_unbind_write(bdf: Seq<char>) -> RequestModel {
    RequestOf::Write { path: joined_path(link_path(bdf), "unbind"@), value: bdf + "\n"@ }
}

/// The write that sets a device's `driver_override` to `vfio-pci`.
pub open spec fn set_vfio_override(bdf: Seq<char>) -> RequestModel {
    RequestOf::Write { path: override_path(bdf), value: "vfio-pci\n"@ }
}

/// The VFIO stages up to testing the device's `driver` link.
pub open spec fn before_link_check(s: StageModel) -> bool {
    ||| s is VfioDriverDir
    ||| s is VfioLoad
    ||| s is VfioSetOverride
    ||| s is VfioLinkExists
}

/// The VFIO stages.
pub open spec fn vfio_stage(s: StageModel) -> bool {
    ||| before_link_check(s)
    ||| s is VfioUnbind
    ||| s is VfioBind
    ||| s is VfioClearOverride
}

proof fn lemma_vfio_only_writes_after_check(t: TaskModel, replies: Seq<ReplyModel>, i: int)
    requires
        t.stage is VfioUnbind || t.stage is VfioBind || t.stage is VfioClearOverride,
        0 <= i < requests_made(t, replies).len(),
    ensures
        requests_made(t, replies)[i] is Write,
    decreases replies.len(),
{
    lemma_requests_made_first(t, replies);
    if i > 0 {
        let t2 = step(t, replies[0])->Next_0;
        let r2 = replies.drop_first();
        assert(requests_made(t, replies) == seq![request_of(t)] + requests_made(t2, r2));
        lemma_vfio_only_writes_after_check(t2, r2, i - 1);
    }
}

proof fn lemma_vfio_check_before_writes(t: TaskModel, replies: Seq<ReplyModel>, k: int) -> (j: int)
    requires
        before_link_check(t.stage),
        0 <= k < requests_made(t, replies).len(),
        requests_made(t, replies)[k] is Write,
        requests_made(t, replies)[k] != set_vfio_override(t.bdf),
    ensures
        0 <= j < k,
        !(t.stage is VfioLinkExists) ==> j >= 1,
        requests_made(t, replies)[j] == (RequestOf::CheckExists { path: link_path(t.bdf) }),
    decreases replies.len(),
{
    let qs = requests_made(t, replies);
    lemma_requests_made_first(t, replies);
    if t.stage is VfioLinkExists {
        0
    } else {
        let t2 = step(t, replies[0])->Next_0;
        let r2 = replies.drop_first();
        let rest = requests_made(t2, r2);
        assert(qs == seq![request_of(t)] + rest);
        assert(qs[k] == rest[k - 1]);
        assert(t2.bdf == t.bdf);
        let j2 = lemma_vfio_check_before_writes(t2, r2, k - 1);
        assert(qs[j2 + 1] == rest[j2]);
        j2 + 1
    }
}

/// What a VFIO bind does right after testing the `driver` link at position
/// `j` of its run.
pub open spec fn after_link_check(
    bdf: Seq<char>,
    qs: Seq<RequestModel>,
    replies: Seq<ReplyModel>,
    j: int,
) -> bool {
    &&& replies[j]->Existence_0 ==> {
        &&& j + 1 < qs.len()
        &&& qs[j + 1] == vfio_unbind_write(bdf)
        &&& j + 2 < qs.len() ==> replies[j + 1] is Written && replies[j + 1]->Written_0 is Ok
            && qs[j + 2] == vfio_bind_write(bdf)
    }
    &&& !replies[j]->Existence_0 ==> j + 1 < qs.len() && qs[j + 1] == vfio_bind_write(bdf)
}

proof fn lemma_vfio_after_check(t: TaskModel, replies: Seq<ReplyModel>, j: int)
    requires
        before_link_check(t.stage),
        t.stage is VfioDriverDir ==> j >= 1,
        0 <= j < requests_made(t, replies).len(),
        j < replies.len(),
        requests_made(t, replies)[j] is CheckExists,
        replies[j] is Existence,
    ensures
        after_link_check(t.bdf, requests_made(t, replies), replies, j),
    decreases replies.len(),
{
    let qs = requests_made(t, replies);
    lemma_requests_made_first(t, replies);
    let t2 = step(t, replies[0])->Next_0;
    let r2 = replies.drop_first();
    let rest = requests_made(t2, r2);
    if j == 0 {
        assert(t.stage is VfioLinkExists);
        assert(qs == seq![request_of(t)] + rest);
        lemma_requests_made_first(t2, r2);
        assert(qs[1] == rest[0]);
        if replies[0]->Existence_0 {
            assert(t2.stage is VfioUnbind);
            if qs.len() > 2 {
                assert(r2.len() > 0 && answers(request_of(t2), r2[0]));
                assert(r2[0] == replies[1]);
                let t3 = step(t2, r2[0])->Next_0;
                let r3 = r2.drop_first();
                lemma_requests_made_first(t3, r3);
                assert(rest == seq![request_of(t2)] + requests_made(t3, r3));
                assert(qs[2] == rest[1]);
            }
        }
    } else {
        assert(qs == seq![request_of(t)] + rest);
        assert(qs[j] == rest[j - 1]);
        assert(r2[j - 1] == replies[j]);
        if t.stage is VfioLinkExists {
            lemma_vfio_only_writes_after_check(t2, r2, j - 1);
        }
        assert(t2.bdf == t.bdf);
        lemma_vfio_after_check(t2, r2, j - 1);
        lemma_requests_len(t2, r2);
        if j + 1 < qs.len() {
            assert(qs[j + 1] == rest[j]);
        }
        if j + 2 < qs.len() {
            assert(qs[j + 2] == rest[j + 1]);
            assert(replies[j + 1] == r2[j]);
        }
    }
}

/// Binding to `vfio-pci` tests the device's `driver` link before any write
/// other than setting the override: it unbinds and binds only after looking.
pub proof fn law_vfio_checks_link_before_rebinding(bdf: Seq<char>, replies: Seq<ReplyModel>, k: int)
    requires
        0 <= k < requests_made(vfio_start(bdf), replies).len(),
        (requests_made(vfio_start(bdf), replies)[k] is Write),
        requests_made(vfio_start(bdf), replies)[k] != set_vfio_override(bdf),
    ensures
        exists|j: int|
            1 <= j < k && #[trigger] requests_made(vfio_start(bdf), replies)[j] == (RequestOf::CheckExists {
                path: link_path(bdf),
            }),
{
    let j = lemma_vfio_check_before_writes(vfio_start(bdf), replies, k);
    assert(requests_made(vfio_start(bdf), replies)[j] == (RequestOf::CheckExists {
        path: link_path(bdf),
    }));
}

/// Binding to `vfio-pci`, right after testing the device's `driver` link
/// (the test after the first request): when the device is bound, the next
/// request unbinds it through the link, and only if that succeeds does the
/// bind to `vfio-pci` follow; when it is not, the next request binds it.
pub proof fn law_vfio_after_link_check(bdf: Seq<char>, replies: Seq<ReplyModel>, j: int)
    requires
        1 <= j < requests_made(vfio_start(bdf), replies).len(),
        j < replies.len(),
        requests_made(vfio_start(bdf), replies)[j] is CheckExists,
        replies[j] is Existence,
    ensures
        after_link_check(bdf, requests_made(vfio_start(bdf), replies), replies, j),
{
    lemma_vfio_after_check(vfio_start(bdf), replies, j);
}

proof fn lemma_vfio_ends_clearing(t: TaskModel, replies: Seq<ReplyModel>)
    requires
        vfio_stage(t.stage),
        outcome(t, replies) == Some(Ok::<(), BindErrorModel>(())),
    ensures
        requests_made(t, replies).len() > 0,
        requests_made(t, replies).last() == clear_override(t.bdf),
    decreases replies.len(),
{
    let qs = requests_made(t, replies);
    lemma_requests_made_first(t, replies);
    if let ProgressOf::Next(t2) = step(t, replies[0]) {
        let r2 = replies.drop_first();
        let rest = requests_made(t2, r2);
        assert(qs == seq![request_of(t)] + rest);
        assert(t2.bdf == t.bdf);
        lemma_vfio_ends_clearing(t2, r2);
        assert(qs.last() == rest.last());
    } else {
        assert(t.stage is VfioClearOverride);
        assert(qs.len() == 1);
    }
}

/// A successful bind to `vfio-pci` ends by clearing the device's
/// `driver_override`, so that the device can later go back to its host
/// driver.
pub proof fn law_vfio_success_ends_clearing_override(bdf: Seq<char>, replies: Seq<ReplyModel>)
    requires
        outcome(vfio_start(bdf), replies) == Some(Ok::<(), BindErrorModel>(())),
    ensures
        requests_made(vfio_start(bdf), replies).len() > 0,
        requests_made(vfio_start(bdf), replies).last() == clear_override(bdf),
{
    lemma_vfio_ends_clearing(vfio_start(bdf), replies);
}

} // verus!
