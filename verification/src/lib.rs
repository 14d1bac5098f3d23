//! Switching NVIDIA GPUs between host drivers and `vfio-pci`: the decisions
//! of the sysfs operations, of the D-Bus service and of the tray menu.
pub mod text;
pub mod gpu;
pub mod sysfs;
pub mod tray;
pub mod menu;
pub mod worker;
pub mod daemon;
