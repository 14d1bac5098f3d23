use nvbind::gpu::Gpu;
use nvbind::menu::{tray_menu, CommandOf, MenuActionOf, MenuItemOf};
use nvbind::tray::{
    format_bdf_list, format_device, format_device_or_placeholder, format_group_header, group_gpus,
    split_bdf, DeviceGroup,
};

fn gpu(bdf: &str, device: &str, driver: Option<&str>) -> Gpu {
    Gpu {
        bdf: bdf.to_string(),
        vendor: "0x10de".to_string(),
        device: device.to_string(),
        driver: driver.map(|d| d.to_string()),
    }
}

#[test]
fn split_address_with_function() {
    assert_eq!(split_bdf("0000:01:00.1"), ("0000:01:00".to_string(), Some("1".to_string())));
}

#[test]
fn split_address_without_function() {
    assert_eq!(split_bdf("0000:01:00"), ("0000:01:00".to_string(), None));
    assert_eq!(split_bdf(""), ("".to_string(), None));
}

#[test]
fn split_address_at_last_dot() {
    assert_eq!(split_bdf("a.b.c"), ("a.b".to_string(), Some("c".to_string())));
    assert_eq!(split_bdf("x."), ("x".to_string(), Some("".to_string())));
}

#[test]
fn split_then_join_gives_address_back() {
    for bdf in ["0000:01:00.0", "a.b.c", ".7", "x."] {
        let (base, func) = split_bdf(bdf);
        assert_eq!(format!("{}.{}", base, func.unwrap()), bdf);
    }
}

#[test]
fn grouping_by_slot_sorted() {
    let gpus = vec![
        gpu("0000:02:00.0", "0x2204", Some("nvidia")),
        gpu("0000:01:00.1", "0x10f0", None),
        gpu("0000:01:00.0", "0x1b80", Some("nvidia")),
        gpu("0000:01:00.3", "0x1ad7", None),
        gpu("0000:01:00.2", "0x1ad6", Some("xhci_hcd")),
    ];
    let groups = group_gpus(&gpus);
    assert_eq!(groups.len(), 2);
    assert_eq!(groups[0].base, "0000:01:00");
    assert_eq!(groups[0].video, Some(gpus[2].clone()));
    assert_eq!(groups[0].audio, Some(gpus[1].clone()));
    assert_eq!(groups[0].others, vec![gpus[3].clone(), gpus[4].clone()]);
    assert_eq!(groups[1].base, "0000:02:00");
    assert_eq!(groups[1].video, Some(gpus[0].clone()));
    assert_eq!(groups[1].audio, None);
    assert!(groups[1].others.is_empty());
    assert_eq!(
        groups[0].all_bdfs(),
        vec!["0000:01:00.0", "0000:01:00.1", "0000:01:00.3", "0000:01:00.2"]
    );
}

#[test]
fn grouping_keeps_last_of_a_function() {
    let gpus = vec![gpu("0000:01:00.0", "0x1", None), gpu("0000:01:00.0", "0x2", None), gpu("0000:01:00", "0x3", None)];
    let groups = group_gpus(&gpus);
    assert_eq!(groups.len(), 1);
    assert_eq!(groups[0].video, Some(gpus[2].clone()));
}

#[test]
fn grouping_nothing() {
    assert!(group_gpus(&[]).is_empty());
}

#[test]
fn new_group_is_empty() {
    let g = DeviceGroup::new("0000:03:00".to_string());
    assert_eq!(g.base, "0000:03:00");
    assert!(g.all_bdfs().is_empty());
}

#[test]
fn device_shown_with_ids_and_driver() {
    assert_eq!(
        format_device(&gpu("0000:01:00.0", "0x1b80", Some("nvidia"))),
        "0000:01:00.0 [0x10de:0x1b80] [nvidia]"
    );
    assert_eq!(format_device(&gpu("0000:01:00.1", "0x10f0", None)), "0000:01:00.1 [0x10de:0x10f0] [none]");
}

#[test]
fn missing_function_placeholder() {
    assert_eq!(
        format_device_or_placeholder(None, "0000:01:00", "1", "audio"),
        "0000:01:00.1 [no audio function]"
    );
    let g = gpu("0000:01:00.0", "0x1b80", None);
    assert_eq!(format_device_or_placeholder(Some(&g), "0000:01:00", "0", "video"), format_device(&g));
}

#[test]
fn group_header_joins_parts() {
    let gpus = vec![gpu("0000:01:00.0", "0x1b80", Some("vfio-pci")), gpu("0000:01:00.2", "0x1ad6", None)];
    let groups = group_gpus(&gpus);
    assert_eq!(
        format_group_header(&groups[0]),
        "0000:01:00.0 [0x10de:0x1b80] [vfio-pci] | 0000:01:00.1 [no audio function] | 0000:01:00.2 [0x10de:0x1ad6] [none]"
    );
}

#[test]
fn address_lists() {
    assert_eq!(format_bdf_list(&[]), "n/a");
    assert_eq!(format_bdf_list(&["a".to_string()]), "a");
    assert_eq!(format_bdf_list(&["a".to_string(), "b".to_string()]), "a, b");
}

#[test]
fn menu_without_gpus() {
    let items = tray_menu(&[]);
    assert_eq!(
        items,
        vec![
            MenuItemOf::Entry {
                label: "Refresh status".to_string(),
                enabled: true,
                action: MenuActionOf::Send(CommandOf::Refresh)
            },
            MenuItemOf::Separator,
            MenuItemOf::Entry {
                label: "No NVIDIA GPU found".to_string(),
                enabled: false,
                action: MenuActionOf::Nothing
            },
            MenuItemOf::Entry { label: "Quit".to_string(), enabled: true, action: MenuActionOf::Quit },
        ]
    );
}

#[test]
fn menu_for_one_group() {
    let gpus = vec![gpu("0000:01:00.0", "0x1b80", Some("nvidia")), gpu("0000:01:00.1", "0x10f0", Some("snd_hda_intel"))];
    let items = tray_menu(&gpus);
    let both = vec!["0000:01:00.0".to_string(), "0000:01:00.1".to_string()];
    assert_eq!(items.len(), 8);
    assert_eq!(
        items[2],
        MenuItemOf::Entry {
            label: "0000:01:00.0 [0x10de:0x1b80] [nvidia] | 0000:01:00.1 [0x10de:0x10f0] [snd_hda_intel]".to_string(),
            enabled: false,
            action: MenuActionOf::Nothing
        }
    );
    assert_eq!(
        items[3],
        MenuItemOf::Entry {
            label: "  → Bind to nvidia (0000:01:00.0)".to_string(),
            enabled: true,
            action: MenuActionOf::Send(CommandOf::BindGroupToNvidia(both.clone()))
        }
    );
    assert_eq!(
        items[4],
        MenuItemOf::Entry {
            label: "  → Bind to vfio-pci (0000:01:00.0, 0000:01:00.1)".to_string(),
            enabled: true,
            action: MenuActionOf::Send(CommandOf::BindGroupToVfio(both.clone()))
        }
    );
    assert_eq!(
        items[5],
        MenuItemOf::Entry {
            label: "  → Unbind (0000:01:00.0, 0000:01:00.1)".to_string(),
            enabled: true,
            action: MenuActionOf::Send(CommandOf::UnbindGroup(both))
        }
    );
    assert_eq!(items[6], MenuItemOf::Separator);
    assert_eq!(items[7], MenuItemOf::Entry { label: "Quit".to_string(), enabled: true, action: MenuActionOf::Quit });
}

#[test]
fn menu_nvidia_entry_disabled_without_video() {
    let gpus = vec![gpu("0000:01:00.1", "0x10f0", None)];
    let items = tray_menu(&gpus);
    assert_eq!(
        items[3],
        MenuItemOf::Entry {
            label: "  → Bind to nvidia (n/a)".to_string(),
            enabled: false,
            action: MenuActionOf::Send(CommandOf::BindGroupToNvidia(vec!["0000:01:00.1".to_string()]))
        }
    );
}
