//! Paths and controller settings of the cgroup v2 hierarchy.
use vstd::prelude::*;

use crate::cgroup::CGROUP_ROOT;
use crate::common::{FileWrite, ShellMount};
use crate::text::{contains_text, push_str, str_chars, str_contains, to_owned_string};

verus! {

/// Get absolute path of a given cgroup
pub fn cgroup_abs_path(name: &str) -> (p: String)
    ensures
        p@ == CGROUP_ROOT@ + "/"@ + name@,
{
    let mut p = String::new();
    push_str(&mut p, CGROUP_ROOT);
    push_str(&mut p, "/");
    push_str(&mut p, name);
    p
}

/// The file that lists the controllers enabled for the children of a cgroup.
pub fn subtree_control_path(name: &str) -> (p: String)
    ensures
        p@ == CGROUP_ROOT@ + "/"@ + name@ + "/cgroup.subtree_control"@,
{
    let mut p = cgroup_abs_path(name);
    push_str(&mut p, "/cgroup.subtree_control");
    p
}

/// Whether the text of a `cgroup.subtree_control` file enables the CPU controller: it
/// holds `cpu`
pub fn cpu_controller_enabled(controllers: &str) -> (b: bool)
    ensures
        b == contains_text(controllers@, "cpu"@),
{
    str_contains(controllers, "cpu")
}

/// The write that enables the CPU controller for the children of a cgroup.
pub fn enable_cpu_controller(name: &str) -> (w: FileWrite)
    ensures
        w.path@ == CGROUP_ROOT@ + "/"@ + name@ + "/cgroup.subtree_control"@,
        w.data@ == "+cpu"@,
{
    FileWrite { path: subtree_control_path(name), data: to_owned_string("+cpu") }
}

/// The cgroups whose CPU controller creating `name` enables, from the root down: the
/// empty ancestors of its path, the one at its end where the path is relative, none
/// where it is absolute.
pub fn cpu_controller_ancestors(name: &str) -> (r: Vec<String>)
    ensures
        name@.len() > 0 && name@[0] == '/' ==> r@.len() == 0,
        !(name@.len() > 0 && name@[0] == '/') ==> r@.len() == 1 && r@[0]@ == ""@,
{
    let chars = str_chars(name);
    let mut r: Vec<String> = Vec::new();
    if chars.len() > 0 && chars[0] == '/' {
        return r;
    }
    r.push(to_owned_string(""));
    r
}

/// Mounting the cgroup v2 file system: `mount | grep cgroup2` tells whether it is
/// mounted, `mount -t cgroup2 none /sys/fs/cgroup` mounts it.
pub fn mount_cgroup_fs() -> (m: ShellMount)
    ensures
        m.check_command() == "mount | grep cgroup2"@,
        m.mount_command() == "mount -t cgroup2 none /sys/fs/cgroup"@,
        m.stage() == crate::common::MountStage::Start,
{
    ShellMount::new("mount | grep cgroup2", "mount -t cgroup2 none /sys/fs/cgroup")
}

} // verus!
