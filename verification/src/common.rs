//! Types shared by the modules of the library.
use vstd::prelude::*;

use crate::text::to_owned_string;

verus! {

/// Type to represent PIDs of processes
pub type Pid = u32;

/// Type to represent CPU ids
pub type CpuID = u32;

/// What keeps the text of a kernel file from being read as the value it holds.
#[derive(Debug, Clone, Copy, PartialEq, Eq, Structural)]
pub enum Error {
    /// A field that is not a decimal number of the expected type.
    InvalidNumber,
    /// A field that holds none of the values it may hold.
    UnexpectedValue,
    /// Text whose layout is not the one of the file.
    InvalidFormat,
    /// A number of CPU idle states that differs from the one of the CPU.
    IncorrectStateCount,
}

/// A write of `data` to the file at `path`, as the kernel's control files expect it.
#[derive(Debug, Clone, PartialEq, Eq)]
pub struct FileWrite {
    pub path: String,
    pub data: String,
}

/// The path and text of a file write, as characters.
pub open spec fn write_view(w: FileWrite) -> (Seq<char>, Seq<char>) {
    (w.path@, w.data@)
}

/// What a shell command reported: the length of its standard output and whether it
/// exited successfully.
#[derive(Debug, Clone, Copy, PartialEq, Eq, Structural)]
pub struct ShellOutput {
    pub stdout_len: usize,
    pub success: bool,
}

/// Where a mount procedure stands.
#[derive(Debug, Clone, Copy, PartialEq, Eq, Structural)]
pub enum MountStage {
    /// Nothing has run yet.
    Start,
    /// The check command runs: its output tells whether the file system is mounted.
    Checking,
    /// The mount command runs.
    Mounting,
    /// The procedure is over.
    Done,
}

/// What the caller of a mount procedure does next.
#[derive(Debug)]
pub enum MountAction {
    /// Run this shell command and report its output.
    Run(String),
    /// The file system was mounted already.
    AlreadyMounted,
    /// The mount command succeeded.
    Mounted,
    /// The mount command failed.
    Failed,
}

/// Mounting a file system with the shell: a check command whose non-empty output means
/// that it is mounted, then, only where it is not, a mount command that must succeed.
pub struct ShellMount {
    check: String,
    mount: String,
    stage: MountStage,
}

impl ShellMount {
    pub closed spec fn check_command(&self) -> Seq<char> {
        self.check@
    }

    pub closed spec fn mount_command(&self) -> Seq<char> {
        self.mount@
    }

    pub closed spec fn stage(&self) -> MountStage {
        self.stage
    }

    /// A procedure that checks with `check` and mounts with `mount`.
    pub fn new(check: &str, mount: &str) -> (m: Self)
        ensures
            m.check_command() == check@,
            m.mount_command() == mount@,
            m.stage() == MountStage::Start,
    {
        ShellMount { check: to_owned_string(check), mount: to_owned_string(mount), stage: MountStage::Start }
    }

    /// The first action: run the check command.
    pub fn start(&mut self) -> (a: MountAction)
        requires
            old(self).stage() == MountStage::Start,
        ensures
            a matches MountAction::Run(c) && c@ == old(self).check_command(),
            final(self).stage() == MountStage::Checking,
            final(self).check_command() == old(self).check_command(),
            final(self).mount_command() == old(self).mount_command(),
    {
        self.stage = MountStage::Checking;
        MountAction::Run(self.check.clone())
    }

    /// The next action, once the command that ran last reported `output`: after the check,
    /// a non-empty output ends the procedure, else the mount command runs; after the mount
    /// command, its success decides.
    pub fn on_output(&mut self, output: ShellOutput) -> (a: MountAction)
        requires
            old(self).stage() == MountStage::Checking || old(self).stage() == MountStage::Mounting,
        ensures
            final(self).check_command() == old(self).check_command(),
            final(self).mount_command() == old(self).mount_command(),
            old(self).stage() == MountStage::Checking && output.stdout_len > 0 ==> (a matches MountAction::AlreadyMounted)
                && final(self).stage() == MountStage::Done,
            old(self).stage() == MountStage::Checking && output.stdout_len == 0 ==> (a matches MountAction::Run(c)
                && c@ == old(self).mount_command()) && final(self).stage() == MountStage::Mounting,
            old(self).stage() == MountStage::Mounting && output.success ==> (a matches MountAction::Mounted)
                && final(self).stage() == MountStage::Done,
            old(self).stage() == MountStage::Mounting && !output.success ==> (a matches MountAction::Failed)
                && final(self).stage() == MountStage::Done,
    {
        match self.stage {
            MountStage::Checking => {
                if output.stdout_len > 0 {
                    self.stage = MountStage::Done;
                    MountAction::AlreadyMounted
                } else {
                    self.stage = MountStage::Mounting;
                    MountAction::Run(self.mount.clone())
                }
            },
            _ => {
                self.stage = MountStage::Done;
                if output.success {
                    MountAction::Mounted
                } else {
                    MountAction::Failed
                }
            },
        }
    }
}

} // verus!
