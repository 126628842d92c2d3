//! Paths of the cgroup v1 hierarchy, whose CPU controller is mounted at `cpu`.
use vstd::prelude::*;

use crate::cgroup::CGROUP_ROOT;
use crate::text::push_str;

verus! {

/// Get absolute path of a given cgroup
pub fn cgroup_abs_path(name: &str) -> (p: String)
    ensures
        p@ == CGROUP_ROOT@ + "/cpu/"@ + name@,
{
    let mut p = String::new();
    push_str(&mut p, CGROUP_ROOT);
    push_str(&mut p, "/cpu/");
    push_str(&mut p, name);
    p
}

/// The directory where the CPU controller of cgroup v1 is mounted.
pub fn cpu_controller_dir() -> (p: String)
    ensures
        p@ == CGROUP_ROOT@ + "/cpu"@,
{
    let mut p = String::new();
    push_str(&mut p, CGROUP_ROOT);
    push_str(&mut p, "/cpu");
    p
}

} // verus!
