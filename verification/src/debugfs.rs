//! The debug file system.
use vstd::prelude::*;

use crate::common::{MountStage, ShellMount};

verus! {

/// Mounting the debug file system: `mount | grep debugfs` tells whether it is mounted,
/// `mount -t debugfs none /sys/kernel/debug` mounts it.
pub fn mount_debug_fs() -> (m: ShellMount)
    ensures
        m.check_command() == "mount | grep debugfs"@,
        m.mount_command() == "mount -t debugfs none /sys/kernel/debug"@,
        m.stage() == MountStage::Start,
{
    ShellMount::new("mount | grep debugfs", "mount -t debugfs none /sys/kernel/debug")
}

} // verus!
