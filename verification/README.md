# nvbind

Switches NVIDIA GPUs between their host drivers and `vfio-pci` through sysfs,
with a system D-Bus service (`org.example.NvBind`, guarded by PolicyKit) and a
desktop tray that talks to it.

- `src/` — the verified library:
  - `text` — string helpers and the std string/path calls the logic uses;
  - `gpu` — device records, binding state, reading sysfs values, telling a
    display function by its PCI class, picking a host driver among the
    modules a modalias resolves to;
  - `sysfs` — unbind / bind to the host driver (`nvidia` for a display
    function, the modalias's module for the others) / bind to `vfio-pci`, as state
    machines that name each request (read, test, run `modprobe`, write) and
    go on with its reply; their error texts;
  - `daemon` — how the service handles a call: authorize, unbind, bind;
  - `tray`, `menu`, `worker` — grouping devices by PCI slot, the menu shown
    for them, and the tray's background jobs.
- `app/` — the programs: `nvbind daemon` (zbus service, PolicyKit query,
  performing the sysfs requests) and `nvbind tray` (ksni tray, notifications).
- `tests/` — tests of the library.
