# kernel

The verified core of the aarch64 multiprocessor support of an operating-system
kernel.

- `src/` is the library. What it decides and computes is stated in contracts and
  proved by Verus: the boot sequence (`start`), starting other processors
  (`secondary`), setting interrupt controllers up (`gic`), exceptions, requests
  and waits (`interrupt`), messages between processors (`ipi`), taking turns
  (`context::switch`), the block that processors share (`smp_sync`), the clock
  and the timer (`device::rtc`, `time`), the cache of path lookups
  (`vfs_cache`), and the scheme that does nothing (`scheme::null`).
- Device trees are read by the `fdt` crate. `dtb::tree` holds the functions that
  call it, with what is believed of them; `dtb::walk` decides beforehand whether
  a blob can be handed to it.
- `app/` is the code around the library that touches the machine: system
  registers, device memory, firmware calls and shared state.
- `tests/` runs the library on a host.

Readings of clocks and registers, answers of the firmware and addresses of
allocated memory are arguments of the library's functions.
