//! The tray's menu, the commands its entries send, and the background worker
//! that carries those commands out against the service and reports back.
use vstd::prelude::*;
use crate::gpu::Gpu;
use crate::tray::{
    bdf_list, format_bdf_list, format_group_header, group_bdfs, group_gpus, group_header,
    grouped, law_grouping_is_unique, same_group, DeviceGroup,
};
use crate::text::{glue3, owned, views_of};

verus! {

/// A request from the menu to the worker.
#[derive(Debug, PartialEq, Eq)]
pub enum CommandOf<L> {
    /// Fetch the status again and show it.
    Refresh,
    /// Bind the listed functions back to their host drivers.
    BindGroupToNvidia(L),
    /// Bind the listed functions to `vfio-pci`.
    BindGroupToVfio(L),
    /// Unbind the listed functions.
    UnbindGroup(L),
}

/// What activating a menu entry does.
#[derive(Debug, PartialEq, Eq)]
pub enum MenuActionOf<L> {
    /// Nothing.
    Nothing,
    /// Send a command to the worker.
    Send(CommandOf<L>),
    /// Quit the tray.
    Quit,
}

/// An entry of the menu, or a separator line.
#[derive(Debug, PartialEq, Eq)]
pub enum MenuItemOf<T, L> {
    Entry { label: T, enabled: bool, action: MenuActionOf<L> },
    Separator,
}

pub type Command = CommandOf<Vec<String>>;

pub type MenuAction = MenuActionOf<Vec<String>>;

pub type MenuItem = MenuItemOf<String, Vec<String>>;

pub type CommandModel = CommandOf<Seq<Seq<char>>>;

pub type MenuActionModel = MenuActionOf<Seq<Seq<char>>>;

pub type MenuItemModel = MenuItemOf<Seq<char>, Seq<Seq<char>>>;

impl View for CommandOf<Vec<String>> {
    type V = CommandOf<Seq<Seq<char>>>;

    open spec fn view(&self) -> CommandOf<Seq<Seq<char>>> {
        match self {
            CommandOf::Refresh => CommandOf::Refresh,
            CommandOf::BindGroupToNvidia(l) => CommandOf::BindGroupToNvidia(views_of(l@)),
            CommandOf::BindGroupToVfio(l) => CommandOf::BindGroupToVfio(views_of(l@)),
            CommandOf::UnbindGroup(l) => CommandOf::UnbindGroup(views_of(l@)),
        }
    }
}

impl View for MenuActionOf<Vec<String>> {
    type V = MenuActionOf<Seq<Seq<char>>>;

    open spec fn view(&self) -> MenuActionOf<Seq<Seq<char>>> {
        match self {
            MenuActionOf::Nothing => MenuActionOf::Nothing,
            MenuActionOf::Send(c) => MenuActionOf::Send(c@),
            MenuActionOf::Quit => MenuActionOf::Quit,
        }
    }
}

impl View for MenuItemOf<String, Vec<String>> {
    type V = MenuItemOf<Seq<char>, Seq<Seq<char>>>;

    open spec fn view(&self) -> MenuItemOf<Seq<char>, Seq<Seq<char>>> {
        match self {
            MenuItemOf::Entry { label, enabled, action } => MenuItemOf::Entry {
                label: label@,
                enabled: *enabled,
                action: action@,
            },
            MenuItemOf::Separator => MenuItemOf::Separator,
        }
    }
}

/// The views of some menu items.
pub open spec fn items_view(items: Seq<MenuItem>) -> Seq<MenuItemModel> {
    items.map_values(|i: MenuItem| i@)
}

/// An entry.
pub open spec fn entry(label: Seq<char>, enabled: bool, action: MenuActionModel) -> MenuItemModel {
    MenuItemOf::Entry { label, enabled, action }
}

/// Sends the command unless it would act on no function at all.
pub open spec fn send_unless_empty(bdfs: Seq<Seq<char>>, c: CommandModel) -> MenuActionModel {
    if bdfs.len() == 0 {
        MenuActionOf::Nothing
    } else {
        MenuActionOf::Send(c)
    }
}

/// The address of a group's video function, or `n/a`.
pub open spec fn video_or_na(grp: DeviceGroup) -> Seq<char> {
    match grp.video {
        Some(v) => v.bdf@,
        None => "n/a"@,
    }
}

/// The entries for one group: its header (disabled), binding to `nvidia`
/// (enabled when the group has a video function), binding to `vfio-pci` and
/// unbinding (enabled when it has any function), each acting on all the
/// group's functions, and a separator.
pub open spec fn group_section(grp: DeviceGroup) -> Seq<MenuItemModel> {
    let bdfs = group_bdfs(grp);
    seq![
        entry(group_header(grp), false, MenuActionOf::Nothing),
        entry(
            "  → Bind to nvidia ("@ + video_or_na(grp) + ")"@,
            grp.video is Some,
            send_unless_empty(bdfs, CommandOf::BindGroupToNvidia(bdfs)),
        ),
        entry(
            "  → Bind to vfio-pci ("@ + bdf_list(bdfs) + ")"@,
            bdfs.len() > 0,
            send_unless_empty(bdfs, CommandOf::BindGroupToVfio(bdfs)),
        ),
        entry(
            "  → Unbind ("@ + bdf_list(bdfs) + ")"@,
            bdfs.len() > 0,
            send_unless_empty(bdfs, CommandOf::UnbindGroup(bdfs)),
        ),
        MenuItemOf::Separator,
    ]
}

/// The sections of all groups, in order.
pub open spec fn group_sections(groups: Seq<DeviceGroup>) -> Seq<MenuItemModel>
    decreases groups.len(),
{
    if groups.len() == 0 {
        Seq::empty()
    } else {
        group_sections(groups.drop_last()) + group_section(groups.last())
    }
}

/// The whole menu: refresh and a separator; the groups' sections, or a
/// disabled note that no GPU was found; then quit.
pub open spec fn menu_for(groups: Seq<DeviceGroup>) -> Seq<MenuItemModel> {
    seq![
        entry("Refresh status"@, true, MenuActionOf::Send(CommandOf::Refresh)),
        MenuItemOf::Separator,
    ] + (if groups.len() == 0 {
        seq![entry("No NVIDIA GPU found"@, false, MenuActionOf::Nothing)]
    } else {
        group_sections(groups)
    }) + seq![entry("Quit"@, true, MenuActionOf::Quit)]
}

/// A copy of a list of texts.
fn copy_texts(l: &Vec<String>) -> (r: Vec<String>)
    ensures
        r@ == l@,
{
    let mut out: Vec<String> = Vec::new();
    let mut i: usize = 0;
    while i < l.len()
        invariant
            i <= l.len(),
            out@ == l@.take(i as int),
        decreases l.len() - i,
    {
        out.push(l[i].clone());
        assert(out@ =~= l@.take(i + 1));
        i = i + 1;
    }
    assert(l@.take(l.len() as int) =~= l@);
    out
}

/// The entries for one group.
pub fn group_entries(group: &DeviceGroup) -> (r: Vec<MenuItem>)
    ensures
        items_view(r@) == group_section(*group),
{
    let bdfs = group.all_bdfs();
    let has_devices = bdfs.len() > 0;
    let video_label = match &group.video {
        Some(v) => glue3("  → Bind to nvidia (", v.bdf.as_str(), ")"),
        None => glue3("  → Bind to nvidia (", "n/a", ")"),
    };
    let list = format_bdf_list(bdfs.as_slice());
    let nvidia_action = if has_devices {
        MenuActionOf::Send(CommandOf::BindGroupToNvidia(copy_texts(&bdfs)))
    } else {
        MenuActionOf::Nothing
    };
    let vfio_action = if has_devices {
        MenuActionOf::Send(CommandOf::BindGroupToVfio(copy_texts(&bdfs)))
    } else {
        MenuActionOf::Nothing
    };
    let unbind_action = if has_devices {
        MenuActionOf::Send(CommandOf::UnbindGroup(copy_texts(&bdfs)))
    } else {
        MenuActionOf::Nothing
    };
    let mut out: Vec<MenuItem> = Vec::new();
    out.push(
        MenuItemOf::Entry {
            label: format_group_header(group),
            enabled: false,
            action: MenuActionOf::Nothing,
        },
    );
    out.push(
        MenuItemOf::Entry {
            label: video_label,
            enabled: group.video.is_some(),
            action: nvidia_action,
        },
    );
    out.push(
        MenuItemOf::Entry {
            label: glue3("  → Bind to vfio-pci (", list.as_str(), ")"),
            enabled: has_devices,
            action: vfio_action,
        },
    );
    out.push(
        MenuItemOf::Entry {
            label: glue3("  → Unbind (", list.as_str(), ")"),
            enabled: has_devices,
            action: unbind_action,
        },
    );
    out.push(MenuItemOf::Separator);
    proof {
        reveal_strlit("n/a");
        assert(items_view(out@) =~= group_section(*group));
    }
    out
}

/// The menu for some groups.
pub fn menu_items(groups: &[DeviceGroup]) -> (r: Vec<MenuItem>)
    ensures
        items_view(r@) == menu_for(groups@),
{
    let mut out: Vec<MenuItem> = Vec::new();
    out.push(
        MenuItemOf::Entry {
            label: owned("Refresh status"),
            enabled: true,
            action: MenuActionOf::Send(CommandOf::Refresh),
        },
    );
    out.push(MenuItemOf::Separator);
    let ghost lead = items_view(out@);
    if groups.len() == 0 {
        out.push(
            MenuItemOf::Entry {
                label: owned("No NVIDIA GPU found"),
                enabled: false,
                action: MenuActionOf::Nothing,
            },
        );
    } else {
        let mut i: usize = 0;
        assert(groups@.take(0) =~= Seq::<DeviceGroup>::empty());
        while i < groups.len()
            invariant
                i <= groups.len(),
                items_view(out@) =~= lead + group_sections(groups@.take(i as int)),
            decreases groups.len() - i,
        {
            let section = group_entries(&groups[i]);
            let ghost before = out@;
            let mut j: usize = 0;
            while j < section.len()
                invariant
                    j <= section.len(),
                    items_view(out@) =~= items_view(before) + items_view(section@.take(j as int)),
                decreases section.len() - j,
            {
                let item = copy_item(&section[j]);
                let ghost mid = out@;
                out.push(item);
                assert(items_view(out@) =~= items_view(mid).push(section@[j as int]@));
                assert(items_view(section@.take(j + 1)) =~= items_view(section@.take(j as int)).push(
                    section@[j as int]@,
                ));
                j = j + 1;
            }
            assert(section@.take(section.len() as int) =~= section@);
            assert(groups@.take(i + 1).drop_last() =~= groups@.take(i as int));
            i = i + 1;
        }
        assert(groups@.take(groups.len() as int) =~= groups@);
    }
    let ghost body = out@;
    out.push(MenuItemOf::Entry { label: owned("Quit"), enabled: true, action: MenuActionOf::Quit });
    assert(items_view(out@) =~= items_view(body).push(entry("Quit"@, true, MenuActionOf::Quit)));
    assert(lead =~= seq![
        entry("Refresh status"@, true, MenuActionOf::Send(CommandOf::Refresh)),
        MenuItemOf::Separator,
    ]);
    out
}

/// A copy of a command.
pub fn copy_command(c: &Command) -> (r: Command)
    ensures
        r@ == c@,
{
    match c {
        CommandOf::Refresh => CommandOf::Refresh,
        CommandOf::BindGroupToNvidia(l) => CommandOf::BindGroupToNvidia(copy_texts(l)),
        CommandOf::BindGroupToVfio(l) => CommandOf::BindGroupToVfio(copy_texts(l)),
        CommandOf::UnbindGroup(l) => CommandOf::UnbindGroup(copy_texts(l)),
    }
}

/// A copy of a menu item.
fn copy_item(item: &MenuItem) -> (r: MenuItem)
    ensures
        r@ == item@,
{
    match item {
        MenuItemOf::Entry { label, enabled, action } => MenuItemOf::Entry {
            label: label.clone(),
            enabled: *enabled,
            action: match action {
                MenuActionOf::Nothing => MenuActionOf::Nothing,
                MenuActionOf::Send(c) => MenuActionOf::Send(copy_command(c)),
                MenuActionOf::Quit => MenuActionOf::Quit,
            },
        },
        MenuItemOf::Separator => MenuItemOf::Separator,
    }
}

/// Groups with the same addresses and functions have the same sections.
proof fn lemma_sections_agree(a: Seq<DeviceGroup>, b: Seq<DeviceGroup>)
    requires
        a.len() == b.len(),
        forall|i: int| 0 <= i < a.len() ==> same_group(#[trigger] a[i], b[i]),
    ensures
        group_sections(a) == group_sections(b),
    decreases a.len(),
{
    if a.len() > 0 {
        let a1 = a.drop_last();
        let b1 = b.drop_last();
        assert forall|i: int| 0 <= i < a1.len() implies same_group(#[trigger] a1[i], b1[i]) by {
            assert(same_group(a[i], b[i]));
        }
        lemma_sections_agree(a1, b1);
        assert(same_group(a.last(), b.last()));
        assert(group_section(a.last()) == group_section(b.last()));
    }
}

/// The tray's menu for the devices that the service reported: the menu of
/// their grouping.
pub fn tray_menu(gpus: &[Gpu]) -> (r: Vec<MenuItem>)
    ensures
        forall|groups: Seq<DeviceGroup>|
            grouped(gpus@, groups) ==> items_view(r@) == menu_for(groups),
{
    let groups = group_gpus(gpus);
    let r = menu_items(groups.as_slice());
    proof {
        assert forall|other: Seq<DeviceGroup>| grouped(gpus@, other) implies items_view(r@)
            == menu_for(other) by {
            law_grouping_is_unique(gpus@, groups@, other);
            lemma_sections_agree(groups@, other);
        }
    }
    r
}

/// Whether `x` is the address of one of a group's functions.
pub open spec fn is_function_of(grp: DeviceGroup, x: Seq<char>) -> bool {
    ||| (grp.video is Some && grp.video->Some_0.bdf@ == x)
    ||| (grp.audio is Some && grp.audio->Some_0.bdf@ == x)
    ||| exists|i: int| 0 <= i < grp.others@.len() && (#[trigger] grp.others@[i]).bdf@ == x
}

/// How many functions a group has.
pub open spec fn function_count(grp: DeviceGroup) -> nat {
    (if grp.video is Some { 1nat } else { 0nat }) + (if grp.audio is Some { 1nat } else { 0nat })
        + grp.others@.len()
}

/// The functions that a menu action acts on, when it sends a group command.
pub open spec fn acted_on(a: MenuActionModel) -> Option<Seq<Seq<char>>> {
    match a {
        MenuActionOf::Send(CommandOf::BindGroupToNvidia(l)) => Some(l),
        MenuActionOf::Send(CommandOf::BindGroupToVfio(l)) => Some(l),
        MenuActionOf::Send(CommandOf::UnbindGroup(l)) => Some(l),
        _ => None,
    }
}

/// Whether a list of addresses names every function of a group once, and
/// nothing else.
pub open spec fn names_whole_group(grp: DeviceGroup, l: Seq<Seq<char>>) -> bool {
    &&& l.len() == function_count(grp)
    &&& forall|x: Seq<char>| #[trigger] l.contains(x) <==> is_function_of(grp, x)
}

/// Whether a menu item is an entry that sends a command of the given kind
/// (0: bind to `nvidia`, 1: bind to `vfio-pci`, 2: unbind).
pub open spec fn sends_kind(item: MenuItemModel, kind: int) -> bool {
    item is Entry && match item->Entry_action {
        MenuActionOf::Send(CommandOf::BindGroupToNvidia(_)) => kind == 0,
        MenuActionOf::Send(CommandOf::BindGroupToVfio(_)) => kind == 1,
        MenuActionOf::Send(CommandOf::UnbindGroup(_)) => kind == 2,
        _ => false,
    }
}

proof fn lemma_group_bdfs_name_the_group(grp: DeviceGroup)
    ensures
        names_whole_group(grp, group_bdfs(grp)),
{
    let lead = crate::tray::opt_bdf(grp.video) + crate::tray::opt_bdf(grp.audio);
    let rest = crate::tray::bdfs_of(grp.others@);
    let l = group_bdfs(grp);
    assert(l == lead + rest);
    assert(rest.len() == grp.others@.len());
    assert forall|x: Seq<char>| l.contains(x) <==> is_function_of(grp, x) by {
        if l.contains(x) {
            let k = choose|k: int| 0 <= k < l.len() && l[k] == x;
            if k >= lead.len() {
                assert(rest[k - lead.len()] == x);
                assert(grp.others@[k - lead.len()].bdf@ == x);
            }
        }
        if is_function_of(grp, x) {
            if grp.video is Some && grp.video->Some_0.bdf@ == x {
                assert(l[0] == x);
            } else if grp.audio is Some && grp.audio->Some_0.bdf@ == x {
                assert(l[lead.len() - 1] == x);
            } else {
                let i = choose|i: int|
                    0 <= i < grp.others@.len() && (#[trigger] grp.others@[i]).bdf@ == x;
                assert(rest[i] == x);
                assert(l[lead.len() + i] == x);
            }
        }
    }
}

/// A group's entries that bind it to `nvidia`, bind it to `vfio-pci` or
/// unbind it each act on every function of the group (video, audio and all
/// the others) and on nothing else; a group with any function has all three.
pub proof fn law_group_commands_act_on_the_whole_group(grp: DeviceGroup)
    ensures
        forall|k: int|
            0 <= k < group_section(grp).len() && #[trigger] group_section(grp)[k] is Entry
                && acted_on(group_section(grp)[k]->Entry_action) is Some ==> names_whole_group(
                grp,
                acted_on(group_section(grp)[k]->Entry_action)->Some_0,
            ),
        function_count(grp) > 0 ==> (exists|k: int|
            0 <= k < group_section(grp).len() && #[trigger] sends_kind(group_section(grp)[k], 0)),
        function_count(grp) > 0 ==> (exists|k: int|
            0 <= k < group_section(grp).len() && #[trigger] sends_kind(group_section(grp)[k], 1)),
        function_count(grp) > 0 ==> (exists|k: int|
            0 <= k < group_section(grp).len() && #[trigger] sends_kind(group_section(grp)[k], 2)),
{
    lemma_group_bdfs_name_the_group(grp);
    let sec = group_section(grp);
    if function_count(grp) > 0 {
        assert(group_bdfs(grp).len() > 0);
        assert(sends_kind(sec[1], 0));
        assert(sends_kind(sec[2], 1));
        assert(sends_kind(sec[3], 2));
    }
}

proof fn lemma_sections_in_order(groups: Seq<DeviceGroup>, i: int)
    requires
        0 <= i < groups.len(),
    ensures
        group_sections(groups).len() == 5 * groups.len(),
        group_sections(groups).subrange(5 * i, 5 * i + 5) == group_section(groups[i]),
    decreases groups.len(),
{
    let init = groups.drop_last();
    if groups.len() > 1 {
        if i < groups.len() - 1 {
            lemma_sections_in_order(init, i);
            assert(init[i] == groups[i]);
        } else {
            lemma_sections_in_order(init, 0);
        }
    }
    let all = group_sections(groups);
    assert(all == group_sections(init) + group_section(groups.last()));
    if groups.len() == 1 {
        assert(group_sections(init) =~= Seq::<MenuItemModel>::empty());
    }
    if i < groups.len() - 1 {
        assert(all.subrange(5 * i, 5 * i + 5) =~= group_sections(init).subrange(5 * i, 5 * i + 5));
    } else {
        assert(all.subrange(5 * i, 5 * i + 5) =~= group_section(groups.last()));
    }
}

/// The menu of some groups holds each group's entries, in the order of the
/// groups, after the refresh entry and its separator: no group is left out.
pub proof fn law_menu_holds_every_group(groups: Seq<DeviceGroup>, i: int)
    requires
        0 <= i < groups.len(),
    ensures
        forall|k: int|
            0 <= k < group_section(groups[i]).len() ==> menu_for(groups)[2 + 5 * i + k]
                == #[trigger] group_section(groups[i])[k],
{
    lemma_sections_in_order(groups, i);
    let secs = group_sections(groups);
    let m = menu_for(groups);
    assert forall|k: int| 0 <= k < group_section(groups[i]).len() implies m[2 + 5 * i + k]
        == #[trigger] group_section(groups[i])[k] by {
        assert(secs.subrange(5 * i, 5 * i + 5)[k] == secs[5 * i + k]);
        assert(m[2 + 5 * i + k] == secs[5 * i + k]);
    }
}

} // verus!
