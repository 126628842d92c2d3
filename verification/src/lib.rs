//! Control of real-time scheduling on Linux: control groups and their HCBS
//! servers, CPU sets and affinity, scheduling policies, CPU frequency, idle and
//! P-state settings. The library computes what is written to and read from the
//! kernel's files and system calls; the program around it does the I/O.
pub mod cgroup;
pub mod common;
pub mod cpu_control;
pub mod cpuset;
pub mod debugfs;
pub mod sched_policy;
pub mod text;
pub mod time;
