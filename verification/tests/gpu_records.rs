use nvbind::gpu::{
    device_address, driver_from_link, gpu_record, is_nvidia_vendor_id, names_display_class, nvidia_vendor, Gpu,
    GpuState,
};
use nvbind::text::{trim_text, white_space};

fn gpu(bdf: &str, driver: Option<&str>) -> Gpu {
    Gpu {
        bdf: bdf.to_string(),
        vendor: "0x10de".to_string(),
        device: "0x1b80".to_string(),
        driver: driver.map(|d| d.to_string()),
    }
}

#[test]
fn state_of_unbound_function() {
    assert_eq!(gpu("0000:01:00.0", None).state(), GpuState::Unbound);
}

#[test]
fn state_of_nvidia_function() {
    assert_eq!(gpu("0000:01:00.0", Some("nvidia")).state(), GpuState::Nvidia);
}

#[test]
fn state_of_vfio_function() {
    assert_eq!(gpu("0000:01:00.0", Some("vfio-pci")).state(), GpuState::Vfio);
}

#[test]
fn state_of_other_driver() {
    assert_eq!(
        gpu("0000:01:00.1", Some("snd_hda_intel")).state(),
        GpuState::Other("snd_hda_intel".to_string())
    );
    assert_eq!(
        gpu("0000:01:00.0", Some("NVIDIA")).state(),
        GpuState::Other("NVIDIA".to_string())
    );
}

#[test]
fn vendor_file_of_nvidia() {
    assert_eq!(nvidia_vendor("0x10de\n"), Some("0x10de".to_string()));
    assert_eq!(nvidia_vendor("  0x10DE \n"), Some("0x10DE".to_string()));
}

#[test]
fn vendor_file_of_other_vendor() {
    assert_eq!(nvidia_vendor("0x8086\n"), None);
    assert_eq!(nvidia_vendor(""), None);
    assert_eq!(nvidia_vendor("0x10de0"), None);
}

#[test]
fn vendor_id_compares_exactly() {
    assert!(is_nvidia_vendor_id("0x10de"));
    assert!(!is_nvidia_vendor_id("0x10DE"));
}

#[test]
fn record_trims_device_and_names_driver() {
    let g = gpu_record(
        "0000:01:00.0".to_string(),
        "0x10de".to_string(),
        "0x1b80\n",
        Some("../../../../bus/pci/drivers/nvidia".to_string()),
    );
    assert_eq!(g, gpu("0000:01:00.0", Some("nvidia")));
}

#[test]
fn record_without_driver_link() {
    let g = gpu_record("0000:01:00.1".to_string(), "0x10de".to_string(), " 0x1b80 ", None);
    assert_eq!(g.device, "0x1b80");
    assert_eq!(g.driver, None);
}

#[test]
fn driver_is_last_component_of_link() {
    assert_eq!(
        driver_from_link(Some("../../../bus/pci/drivers/vfio-pci".to_string())),
        Some("vfio-pci".to_string())
    );
    assert_eq!(driver_from_link(Some("..".to_string())), None);
    assert_eq!(driver_from_link(None), None);
}

#[test]
fn trimming_matches_str_trim() {
    for raw in ["  0x10de\n", "\t\u{3000}a b\u{85}", "", " \n\t ", "x", "\u{2028}y\u{200a}"] {
        assert_eq!(trim_text(raw), raw.trim());
    }
    assert_eq!(trim_text(" a b "), "a b");
    assert!(white_space('\u{a0}') && white_space('\r') && !white_space('a') && !white_space('\u{200b}'));
}

#[test]
fn display_classes() {
    assert!(names_display_class("0x030000\n"));
    assert!(names_display_class(" 0x030200"));
    assert!(names_display_class("0x0380"));
    assert!(!names_display_class("0x040300\n"));
    assert!(!names_display_class("0x0c0330"));
    assert!(!names_display_class("0x0"));
    assert!(!names_display_class(""));
}

#[test]
fn device_address_is_the_last_component() {
    assert_eq!(device_address("/sys/bus/pci/devices/0000:01:00.0"), Some("0000:01:00.0".to_string()));
    assert_eq!(device_address("/"), None);
}
