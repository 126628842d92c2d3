//! Settings of the HCBS real-time cgroup server.
pub mod multi;
pub mod uni;
