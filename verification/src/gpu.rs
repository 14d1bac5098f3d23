//! NVIDIA PCI devices as sysfs describes them, the state of their driver
//! binding, which of their functions are display controllers, and the choice
//! of a host driver among the modules that a PCI modalias resolves to.
use vstd::prelude::*;
use crate::text::{
    ends_in, file_name_of, final_component, is_plain_name, lowercase_of, same_text, to_lower,
    trim_text, trimmed, views_of,
};

verus! {

/// A PCI function of an NVIDIA device.
#[derive(Debug, Clone, PartialEq, Eq)]
pub struct Gpu {
    /// Bus/device/function address, such as `0000:01:00.0`.
    pub bdf: String,
    /// Vendor id as sysfs prints it, such as `0x10de`.
    pub vendor: String,
    /// Device id as sysfs prints it, such as `0x1b80`.
    pub device: String,
    /// The kernel driver the function is bound to, if any.
    pub driver: Option<String>,
}

/// Which kind of driver a function is bound to.
#[derive(Debug, Clone, PartialEq, Eq)]
pub enum GpuState {
    /// No driver is bound.
    Unbound,
    Nvidia,
    Vfio,
    Other(String),
}

/// The name under which the proprietary driver registers.
pub open spec fn nvidia_name() -> Seq<char> {
    "nvidia"@
}

/// The name under which the VFIO PCI driver registers.
pub open spec fn vfio_name() -> Seq<char> {
    "vfio-pci"@
}

/// The open-source NVIDIA driver.
pub open spec fn nouveau_name() -> Seq<char> {
    "nouveau"@
}

/// The PCI vendor id of NVIDIA, in the lower-case form sysfs uses.
pub open spec fn nvidia_vendor_id() -> Seq<char> {
    "0x10de"@
}

/// A copy of an optional text, equal to it.
pub fn copy_opt_text(t: &Option<String>) -> (r: Option<String>)
    ensures
        r == *t,
{
    match t {
        Some(s) => Some(s.clone()),
        None => None,
    }
}

impl Gpu {
    /// A copy of this record, equal to it.
    pub fn duplicate(&self) -> (r: Gpu)
        ensures
            r == *self,
    {
        Gpu {
            bdf: self.bdf.clone(),
            vendor: self.vendor.clone(),
            device: self.device.clone(),
            driver: copy_opt_text(&self.driver),
        }
    }

    /// The binding state: no driver, `nvidia`, `vfio-pci`, or another driver.
    pub fn state(&self) -> (s: GpuState)
        ensures
            match self.driver {
                None => s == GpuState::Unbound,
                Some(d) => if d@ == nvidia_name() {
                    s == GpuState::Nvidia
                } else if d@ == vfio_name() {
                    s == GpuState::Vfio
                } else {
                    s matches GpuState::Other(o) && o@ == d@
                },
            },
    {
        match &self.driver {
            None => GpuState::Unbound,
            Some(d) => {
                if same_text(d.as_str(), "nvidia") {
                    GpuState::Nvidia
                } else if same_text(d.as_str(), "vfio-pci") {
                    GpuState::Vfio
                } else {
                    GpuState::Other(d.clone())
                }
            },
        }
    }
}

/// The driver named by the target of a device's `driver` link: the link
/// target's final path component, or nothing when there is no link.
pub open spec fn driver_of_link(target: Option<Seq<char>>) -> Option<Seq<char>> {
    match target {
        Some(t) => final_component(t),
        None => None,
    }
}

/// The views of an optional text.
pub open spec fn opt_view(t: Option<String>) -> Option<Seq<char>> {
    match t {
        Some(s) => Some(s@),
        None => None,
    }
}

/// The driver a device is bound to, given where its `driver` link points
/// (`None` when the link cannot be read): the target's final component, such
/// as `nvidia` for `../../../../bus/pci/drivers/nvidia`.
pub fn driver_from_link(target: Option<String>) -> (r: Option<String>)
    ensures
        opt_view(r) == driver_of_link(opt_view(target)),
        forall|name: Seq<char>|
            #[trigger] is_plain_name(name) && target is Some && ends_in(target->Some_0@, name)
                ==> opt_view(r) == Some(name),
{
    match target {
        Some(t) => file_name_of(t.as_str()),
        None => None,
    }
}

/// A device's address, such as `0000:01:00.0`, from the path of its sysfs
/// directory: the path's final component, if it has one (the name after the
/// last `/`, when that is a plain name).
pub fn device_address(dir: &str) -> (r: Option<String>)
    ensures
        opt_view(r) == final_component(dir@),
        forall|name: Seq<char>|
            #[trigger] ends_in(dir@, name) && is_plain_name(name) ==> opt_view(r) == Some(name),
{
    file_name_of(dir)
}

/// Whether a lower-cased vendor id is NVIDIA's.
pub fn is_nvidia_vendor_id(lowered: &str) -> (r: bool)
    ensures
        r == (lowered@ == nvidia_vendor_id()),
{
    same_text(lowered, "0x10de")
}

/// Whether the contents of a sysfs `vendor` file name NVIDIA, compared after
/// trimming and lower-casing.
pub open spec fn names_nvidia(vendor_raw: Seq<char>) -> bool {
    lowercase_of(trimmed(vendor_raw)) == nvidia_vendor_id()
}

/// The trimmed vendor id when the contents of a sysfs `vendor` file name
/// NVIDIA, else nothing.
pub fn nvidia_vendor(vendor_raw: &str) -> (r: Option<String>)
    ensures
        names_nvidia(vendor_raw@) <==> r is Some,
        r matches Some(v) ==> v@ == trimmed(vendor_raw@),
{
    let vendor = trim_text(vendor_raw);
    let lowered = to_lower(vendor.as_str());
    if is_nvidia_vendor_id(lowered.as_str()) {
        Some(vendor)
    } else {
        None
    }
}

/// Whether the contents of a sysfs `class` file name a display controller:
/// PCI base class `0x03` (VGA, XGA, 3D and other display controllers), which
/// sysfs prints as `0x03` followed by the sub-class and programming
/// interface, such as `0x030000`. An audio or USB function of a GPU has
/// another base class (`0x04`, `0x0c`).
pub open spec fn is_display_class(class_raw: Seq<char>) -> bool {
    let c = trimmed(class_raw);
    &&& c.len() >= 4
    &&& c[0] == '0'
    &&& c[1] == 'x'
    &&& c[2] == '0'
    &&& c[3] == '3'
}

/// Whether the contents of a sysfs `class` file name a display controller.
pub fn names_display_class(class_raw: &str) -> (r: bool)
    ensures
        r == is_display_class(class_raw@),
{
    let class = trim_text(class_raw);
    let c = class.as_str();
    if c.unicode_len() < 4 {
        return false;
    }
    c.get_char(0) == '0' && c.get_char(1) == 'x' && c.get_char(2) == '0' && c.get_char(3) == '3'
}

/// The record of a device from its address, its (already trimmed) vendor id,
/// the raw contents of its `device` file and the target of its `driver` link.
pub fn gpu_record(bdf: String, vendor: String, device_raw: &str, link_target: Option<String>) -> (g: Gpu)
    ensures
        g.bdf == bdf,
        g.vendor == vendor,
        g.device@ == trimmed(device_raw@),
        opt_view(g.driver) == driver_of_link(opt_view(link_target)),
{
    Gpu { bdf, vendor, device: trim_text(device_raw), driver: driver_from_link(link_target) }
}

/// The host drivers preferred for a device, most preferred first.
pub open spec fn preferred_drivers() -> Seq<Seq<char>> {
    seq![nvidia_name(), nouveau_name()]
}

/// The first of `prefs` that `modules` holds; failing that, the first module.
pub open spec fn pick_driver(prefs: Seq<Seq<char>>, modules: Seq<Seq<char>>) -> Option<Seq<char>>
    decreases prefs.len(),
{
    if prefs.len() == 0 {
        if modules.len() > 0 {
            Some(modules[0])
        } else {
            None
        }
    } else if modules.contains(prefs[0]) {
        Some(prefs[0])
    } else {
        pick_driver(prefs.drop_first(), modules)
    }
}

/// The driver picked among modules is one of them, and some driver is picked
/// whenever there is any module.
pub proof fn law_picked_driver_is_a_module(prefs: Seq<Seq<char>>, modules: Seq<Seq<char>>)
    ensures
        pick_driver(prefs, modules) is Some <==> modules.len() > 0,
        pick_driver(prefs, modules) matches Some(d) ==> modules.contains(d),
    decreases prefs.len(),
{
    if prefs.len() > 0 {
        law_picked_driver_is_a_module(prefs.drop_first(), modules);
        if modules.contains(prefs[0]) {
            assert(modules.len() > 0);
        }
    } else if modules.len() > 0 {
        assert(modules.contains(modules[0]));
    }
}

/// Which module is picked depends only on which names the modules hold, as
/// long as one of the preferred names is among them.
proof fn lemma_pick_by_membership(prefs: Seq<Seq<char>>, m1: Seq<Seq<char>>, m2: Seq<Seq<char>>)
    requires
        exists|i: int| 0 <= i < prefs.len() && m1.contains(#[trigger] prefs[i]),
        forall|x: Seq<char>| m1.contains(x) <==> m2.contains(x),
    ensures
        pick_driver(prefs, m1) == pick_driver(prefs, m2),
    decreases prefs.len(),
{
    if !m1.contains(prefs[0]) {
        let i = choose|i: int| 0 <= i < prefs.len() && m1.contains(#[trigger] prefs[i]);
        let rest = prefs.drop_first();
        assert(rest[i - 1] == prefs[i]);
        lemma_pick_by_membership(rest, m1, m2);
    }
}

/// Reordering the modules that a modalias resolves to does not change the
/// driver picked, when `nvidia` or `nouveau` is among them (otherwise the
/// first module is picked, which a reordering may change).
pub proof fn law_pick_ignores_order(modules: Seq<Seq<char>>, reordered: Seq<Seq<char>>)
    requires
        reordered.to_multiset() == modules.to_multiset(),
        modules.contains(nvidia_name()) || modules.contains(nouveau_name()),
    ensures
        pick_driver(preferred_drivers(), reordered) == pick_driver(preferred_drivers(), modules),
{
    broadcast use vstd::seq_lib::group_to_multiset_ensures;

    assert forall|x: Seq<char>| modules.contains(x) <==> reordered.contains(x) by {
        assert(modules.contains(x) <==> modules.to_multiset().count(x) > 0);
        assert(reordered.contains(x) <==> reordered.to_multiset().count(x) > 0);
    }
    let prefs = preferred_drivers();
    if modules.contains(nvidia_name()) {
        assert(modules.contains(prefs[0]));
    } else {
        assert(modules.contains(prefs[1]));
    }
    lemma_pick_by_membership(prefs, modules, reordered);
}

/// Appending modules does not change the driver picked when `nvidia` is
/// among the first ones, nor when `nouveau` is and the appended ones do not
/// bring `nvidia`.
pub proof fn law_pick_survives_appending(modules: Seq<Seq<char>>, extra: Seq<Seq<char>>)
    requires
        modules.contains(nvidia_name()) || (modules.contains(nouveau_name()) && !extra.contains(
            nvidia_name(),
        )),
    ensures
        pick_driver(preferred_drivers(), modules + extra) == pick_driver(preferred_drivers(), modules),
{
    reveal_with_fuel(pick_driver, 3);
    let all = modules + extra;
    assert forall|x: Seq<char>| modules.contains(x) implies all.contains(x) by {
        let i = choose|i: int| 0 <= i < modules.len() && modules[i] == x;
        assert(all[i] == x);
    }
    if !modules.contains(nvidia_name()) {
        assert(!all.contains(nvidia_name())) by {
            if all.contains(nvidia_name()) {
                let i = choose|i: int| 0 <= i < all.len() && all[i] == nvidia_name();
                if i < modules.len() {
                    assert(modules[i] == all[i]);
                } else {
                    assert(extra[i - modules.len()] == all[i]);
                }
            }
        }
    }
    let prefs = preferred_drivers();
    assert(prefs[0] == nvidia_name() && prefs[1] == nouveau_name());
    assert(prefs.drop_first()[0] == nouveau_name());
}

/// The module whose view is `name`, if `modules` holds one.
fn find_module(modules: &[String], name: &str) -> (r: Option<String>)
    ensures
        views_of(modules@).contains(name@) <==> r is Some,
        r matches Some(m) ==> m@ == name@,
{
    let ghost views = views_of(modules@);
    let mut i: usize = 0;
    while i < modules.len()
        invariant
            i <= modules.len(),
            views == views_of(modules@),
            forall|j: int| 0 <= j < i ==> views[j] != name@,
        decreases modules.len() - i,
    {
        if same_text(modules[i].as_str(), name) {
            assert(views[i as int] == name@);
            return Some(modules[i].clone());
        }
        i = i + 1;
    }
    None
}

/// Picks the host driver among the modules that a modalias resolves to:
/// `nvidia` if present, else `nouveau`, else the first module.
pub fn select_preferred_driver(modules: &[String]) -> (r: Option<String>)
    ensures
        opt_view(r) == pick_driver(preferred_drivers(), views_of(modules@)),
        r is Some <==> modules@.len() > 0,
{
    let ghost views = views_of(modules@);
    let prefs: Vec<&str> = vec!["nvidia", "nouveau"];
    assert(prefs@.map_values(|p: &str| p@) =~= preferred_drivers());
    assert(preferred_drivers().skip(0) =~= preferred_drivers());
    let mut i: usize = 0;
    while i < prefs.len()
        invariant
            i <= prefs.len(),
            prefs@.len() == 2,
            views == views_of(modules@),
            prefs@.map_values(|p: &str| p@) == preferred_drivers(),
            pick_driver(preferred_drivers(), views) == pick_driver(
                preferred_drivers().skip(i as int),
                views,
            ),
        decreases prefs.len() - i,
    {
        let ghost rest = preferred_drivers().skip(i as int);
        assert(rest[0] == prefs@[i as int]@);
        assert(rest.drop_first() =~= preferred_drivers().skip(i + 1));
        let found = find_module(modules, prefs[i]);
        if found.is_some() {
            return found;
        }
        i = i + 1;
    }
    assert(preferred_drivers().skip(2).len() == 0);
    if modules.len() > 0 {
        Some(modules[0].clone())
    } else {
        None
    }
}

/// The text split at each line feed (one piece more than there are line
/// feeds).
pub open spec fn split_lines(s: Seq<char>) -> Seq<Seq<char>>
    decreases s.len(),
{
    if s.len() == 0 {
        seq![Seq::empty()]
    } else {
        let init = split_lines(s.drop_last());
        if s.last() == '\n' {
            init.push(Seq::empty())
        } else {
            init.update(init.len() - 1, init.last().push(s.last()))
        }
    }
}

/// The trimmed pieces that are not empty, in order.
pub open spec fn nonblank_trimmed(pieces: Seq<Seq<char>>) -> Seq<Seq<char>>
    decreases pieces.len(),
{
    if pieces.len() == 0 {
        Seq::empty()
    } else {
        let rest = nonblank_trimmed(pieces.drop_last());
        let t = trimmed(pieces.last());
        if t.len() > 0 {
            rest.push(t)
        } else {
            rest
        }
    }
}

/// The module names that `modprobe --resolve-alias` printed: its lines,
/// trimmed, without the blank ones.
pub open spec fn module_names(output: Seq<char>) -> Seq<Seq<char>> {
    nonblank_trimmed(split_lines(output))
}

/// Splitting a prefix that ends before a line feed: the pieces up to the last
/// line feed, then the text after it.
proof fn lemma_split_prefix(s: Seq<char>, i: int, start: int, done: Seq<Seq<char>>)
    requires
        0 <= start <= i < s.len(),
        split_lines(s.take(i)) == done.push(s.subrange(start, i)),
    ensures
        s[i] == '\n' ==> split_lines(s.take(i + 1)) == done.push(s.subrange(start, i)).push(
            Seq::empty(),
        ),
        s[i] != '\n' ==> split_lines(s.take(i + 1)) == done.push(s.subrange(start, i + 1)),
{
    assert(s.take(i + 1).drop_last() =~= s.take(i));
    assert(s.take(i + 1).last() == s[i]);
    if s[i] != '\n' {
        let init = split_lines(s.take(i));
        assert(init.last() == s.subrange(start, i));
        assert(init.last().push(s[i]) =~= s.subrange(start, i + 1));
        assert(init.update(init.len() - 1, s.subrange(start, i + 1)) =~= done.push(
            s.subrange(start, i + 1),
        ));
    }
}

/// The module names in the standard output of `modprobe --resolve-alias`
/// (`str::lines` followed by `trim` keeps the same names: a carriage return
/// before a line feed is white space that `trim` removes).
pub fn driver_modules(output: &str) -> (r: Vec<String>)
    ensures
        views_of(r@) == module_names(output@),
{
    let n = output.unicode_len();
    let mut names: Vec<String> = Vec::new();
    let ghost mut done: Seq<Seq<char>> = Seq::empty();
    let mut start: usize = 0;
    let mut i: usize = 0;
    assert(output@.take(0) =~= Seq::<char>::empty());
    assert(output@.subrange(0, 0) =~= Seq::<char>::empty());
    assert(split_lines(Seq::<char>::empty()) == done.push(Seq::<char>::empty()));
    while i < n
        invariant
            n == output@.len(),
            0 <= start <= i <= n,
            split_lines(output@.take(i as int)) == done.push(output@.subrange(start as int, i as int)),
            views_of(names@) == nonblank_trimmed(done),
        decreases n - i,
    {
        let c = output.get_char(i);
        proof {
            lemma_split_prefix(output@, i as int, start as int, done);
        }
        if c == '\n' {
            let piece = output.substring_char(start, i);
            let t = trim_text(piece);
            let ghost old_names = names@;
            proof {
                assert(done.push(output@.subrange(start as int, i as int)).drop_last() =~= done);
            }
            if t.unicode_len() > 0 {
                names.push(t);
                assert(views_of(names@) =~= views_of(old_names).push(trimmed(piece@)));
            }
            proof {
                done = done.push(output@.subrange(start as int, i as int));
                assert(output@.subrange((i + 1) as int, (i + 1) as int) =~= Seq::<char>::empty());
            }
            start = i + 1;
        }
        i = i + 1;
    }
    let piece = output.substring_char(start, n);
    let t = trim_text(piece);
    let ghost old_names = names@;
    assert(output@.take(n as int) =~= output@);
    assert(done.push(output@.subrange(start as int, n as int)).drop_last() =~= done);
    if t.unicode_len() > 0 {
        names.push(t);
        assert(views_of(names@) =~= views_of(old_names).push(trimmed(piece@)));
    }
    names
}

} // verus!
