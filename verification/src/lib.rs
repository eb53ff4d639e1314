//! Verified core of the aarch64 SMP support of an operating-system kernel.

pub mod consts;
pub mod context;
pub mod counter;
pub mod cpu_set;
pub mod device;
pub mod dtb;
pub mod gic;
pub mod interrupt;
pub mod ipi;
pub mod percpu;
pub mod scheme;
pub mod secondary;
pub mod smp_diag;
pub mod smp_sync;
pub mod start;
pub mod text;
pub mod time;
pub mod vfs_cache;
