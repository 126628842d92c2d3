//! Control groups: their paths, the files that list their processes, the
//! system-wide real-time limits, and the cgroup of a process.
use vstd::prelude::*;

use crate::common::{Error, FileWrite, Pid, ShellMount};
use crate::text::{
    chars_eq, chars_to_string, decimal, decimal_string, line_ranges, lines, parse_trimmed,
    parse_unsigned, parse_unsigned_range, push_decimal, push_str, ranges_view, starts_with,
    str_chars, trim, trim_range, to_owned_string,
};

pub mod cgroup_v1;
pub mod cgroup_v2;
pub mod hcbs;

verus! {

pub const CGROUP_ROOT: &'static str = "/sys/fs/cgroup";

/// The file that sets the period of real-time tasks of the system.
pub const SYSTEM_RT_PERIOD_FILE: &'static str = "/proc/sys/kernel/sched_rt_period_us";

/// The file that sets the runtime of real-time tasks of the system, per period.
pub const SYSTEM_RT_RUNTIME_FILE: &'static str = "/proc/sys/kernel/sched_rt_runtime_us";

/// Get absolute path of a given cgroup
pub fn cgroup_abs_path(name: &str) -> (p: String)
    ensures
        p@ == CGROUP_ROOT@ + "/"@ + name@,
{
    cgroup_v2::cgroup_abs_path(name)
}

/// The file that lists the processes of a cgroup.
pub fn cgroup_procs_path(name: &str) -> (p: String)
    ensures
        p@ == CGROUP_ROOT@ + "/"@ + name@ + "/cgroup.procs"@,
{
    let mut p = cgroup_abs_path(name);
    push_str(&mut p, "/cgroup.procs");
    p
}

/// Get the number of processes that a `cgroup.procs` file lists: its lines
pub fn cgroup_num_procs(procs: &str) -> (n: usize)
    ensures
        n == lines(procs@).len(),
{
    let chars = str_chars(procs);
    let ranges = line_ranges(&chars);
    ranges.len()
}

/// The numbers of lines that each are a PID, or `None` where one is not.
pub open spec fn parse_pids(lines: Seq<Seq<char>>) -> Option<Seq<Pid>>
    decreases lines.len(),
{
    if lines.len() == 0 {
        Some(seq![])
    } else {
        match (parse_pids(lines.drop_last()), parse_unsigned(lines.last(), u32::MAX as nat)) {
            (Some(pids), Some(n)) => Some(pids.push(n as Pid)),
            _ => None,
        }
    }
}

/// Get the PIDs that a `cgroup.procs` file lists, one per line
pub fn cgroup_pids(procs: &str) -> (r: Result<Vec<Pid>, Error>)
    ensures
        match parse_pids(lines(procs@)) {
            Some(pids) => r matches Ok(v) && v@ == pids,
            None => r matches Err(Error::InvalidNumber),
        },
{
    let chars = str_chars(procs);
    let ranges = line_ranges(&chars);
    let ghost all = ranges_view(chars@, ranges@);
    let mut pids: Vec<Pid> = Vec::new();
    let mut k: usize = 0;
    while k < ranges.len()
        invariant
            0 <= k <= ranges@.len(),
            all == ranges_view(chars@, ranges@),
            all == lines(procs@),
            crate::text::ranges_within(ranges@, chars@.len()),
            parse_pids(all.subrange(0, k as int)) == Some(pids@),
        decreases ranges@.len() - k,
    {
        let (a, b) = ranges[k];
        assert(all.subrange(0, k + 1).drop_last() =~= all.subrange(0, k as int));
        assert(all.subrange(0, k + 1).last() == chars@.subrange(a as int, b as int));
        match parse_unsigned_range(&chars, a, b, u32::MAX as u64) {
            Some(n) => {
                pids.push(n as Pid);
            },
            None => {
                proof {
                    lemma_parse_pids_prefix(all, k + 1);
                }
                return Err(Error::InvalidNumber);
            },
        }
        k = k + 1;
    }
    assert(all.subrange(0, k as int) =~= all);
    Ok(pids)
}

/// Where a prefix of the lines holds a line that is not a PID, so do the lines.
proof fn lemma_parse_pids_prefix(all: Seq<Seq<char>>, k: int)
    requires
        0 <= k <= all.len(),
        parse_pids(all.subrange(0, k)) is None,
    ensures
        parse_pids(all) is None,
    decreases all.len() - k,
{
    if k < all.len() {
        assert(all.subrange(0, k + 1).drop_last() =~= all.subrange(0, k));
        lemma_parse_pids_prefix(all, k + 1);
    } else {
        assert(all.subrange(0, k) =~= all);
    }
}

/// Mounting the cgroup file system
pub fn mount_cgroup_fs() -> (m: ShellMount)
    ensures
        m.check_command() == "mount | grep cgroup2"@,
        m.mount_command() == "mount -t cgroup2 none /sys/fs/cgroup"@,
        m.stage() == crate::common::MountStage::Start,
{
    cgroup_v2::mount_cgroup_fs()
}

/// Read the text of /proc/sys/kernel/sched_rt_period_us
pub fn get_system_rt_period_us(contents: &str) -> (r: Result<u64, Error>)
    ensures
        match parse_unsigned(trim(contents@), u64::MAX as nat) {
            Some(n) => r == Ok::<u64, Error>(n as u64),
            None => r == Err::<u64, Error>(Error::InvalidNumber),
        },
{
    match parse_trimmed(contents, u64::MAX) {
        Some(n) => Ok(n),
        None => Err(Error::InvalidNumber),
    }
}

/// Read the text of /proc/sys/kernel/sched_rt_runtime_us
pub fn get_system_rt_runtime_us(contents: &str) -> (r: Result<u64, Error>)
    ensures
        match parse_unsigned(trim(contents@), u64::MAX as nat) {
            Some(n) => r == Ok::<u64, Error>(n as u64),
            None => r == Err::<u64, Error>(Error::InvalidNumber),
        },
{
    match parse_trimmed(contents, u64::MAX) {
        Some(n) => Ok(n),
        None => Err(Error::InvalidNumber),
    }
}

/// Write to /proc/sys/kernel/sched_rt_period_us
pub fn set_system_rt_period_us(period_us: u64) -> (w: FileWrite)
    ensures
        w.path@ == SYSTEM_RT_PERIOD_FILE@,
        w.data@ == decimal(period_us as nat),
{
    FileWrite { path: to_owned_string(SYSTEM_RT_PERIOD_FILE), data: decimal_string(period_us) }
}

/// Write to /proc/sys/kernel/sched_rt_runtime_us
pub fn set_system_rt_runtime_us(runtime_us: u64) -> (w: FileWrite)
    ensures
        w.path@ == SYSTEM_RT_RUNTIME_FILE@,
        w.data@ == decimal(runtime_us as nat),
{
    FileWrite { path: to_owned_string(SYSTEM_RT_RUNTIME_FILE), data: decimal_string(runtime_us) }
}

/// The file that names the cgroup of a process.
pub fn pid_cgroup_path(pid: Pid) -> (p: String)
    ensures
        p@ == "/proc/"@ + decimal(pid as nat) + "/cgroup"@,
{
    let mut p = String::new();
    push_str(&mut p, "/proc/");
    push_decimal(&mut p, pid as u64);
    push_str(&mut p, "/cgroup");
    p
}

/// The cgroup that the text of `/proc/<pid>/cgroup` names: what follows `0::/` in the
/// trimmed text, `.` where nothing follows it; `None` where the text does not start
/// with `0::/`.
pub open spec fn pid_cgroup_of(contents: Seq<char>) -> Option<Seq<char>> {
    let t = trim(contents);
    if starts_with(t, "0::/"@) {
        let rest = t.subrange(4, t.len() as int);
        if rest.len() == 0 {
            Some("."@)
        } else {
            Some(rest)
        }
    } else {
        None
    }
}

/// Get the cgroup that the text of `/proc/<pid>/cgroup` names
pub fn get_pid_cgroup(contents: &str) -> (r: Result<String, Error>)
    ensures
        match pid_cgroup_of(contents@) {
            Some(name) => r matches Ok(s) && s@ == name,
            None => r matches Err(Error::InvalidFormat),
        },
{
    let chars = str_chars(contents);
    let (a, b) = trim_range(&chars, 0, chars.len());
    assert(chars@.subrange(0, chars@.len() as int) =~= chars@);
    let ghost t = chars@.subrange(a as int, b as int);
    let prefix = str_chars("0::/");
    proof {
        reveal_strlit("0::/");
    }
    if b - a < prefix.len() || !chars_eq(&chars, a, a + prefix.len(), &prefix) {
        proof {
            if prefix@.len() <= t.len() {
                assert(t.subrange(0, prefix@.len() as int) =~= chars@.subrange(
                    a as int,
                    a + prefix@.len(),
                ));
            }
        }
        return Err(Error::InvalidFormat);
    }
    assert(t.subrange(0, prefix@.len() as int) =~= chars@.subrange(a as int, a + prefix@.len()));
    assert(t.subrange(4, t.len() as int) =~= chars@.subrange(a + 4, b as int));
    if a + prefix.len() == b {
        return Ok(to_owned_string("."));
    }
    Ok(chars_to_string(&chars, a + prefix.len(), b))
}

/// Check if the given PID is one of the lines of a `cgroup.procs` file
pub fn is_pid_in_cgroup(procs: &str, pid: Pid) -> (b: bool)
    ensures
        b == (exists|k: int| 0 <= k < lines(procs@).len() && #[trigger] lines(procs@)[k] == decimal(
            pid as nat,
        )),
{
    let chars = str_chars(procs);
    let ranges = line_ranges(&chars);
    let pid_text = decimal_string(pid as u64);
    let pid_chars = str_chars(pid_text.as_str());
    let ghost all = ranges_view(chars@, ranges@);
    let mut k: usize = 0;
    while k < ranges.len()
        invariant
            0 <= k <= ranges@.len(),
            all == ranges_view(chars@, ranges@),
            all == lines(procs@),
            pid_chars@ == decimal(pid as nat),
            crate::text::ranges_within(ranges@, chars@.len()),
            forall|j: int| 0 <= j < k ==> #[trigger] all[j] != decimal(pid as nat),
        decreases ranges@.len() - k,
    {
        let (a, b) = ranges[k];
        if chars_eq(&chars, a, b, &pid_chars) {
            assert(all[k as int] == decimal(pid as nat));
            return true;
        }
        k = k + 1;
    }
    false
}

/// Assign a process to a cgroup: its PID written to the cgroup's `cgroup.procs` file
pub fn assign_pid_to_cgroup(name: &str, pid: Pid) -> (w: FileWrite)
    ensures
        w.path@ == CGROUP_ROOT@ + "/"@ + name@ + "/cgroup.procs"@,
        w.data@ == decimal(pid as nat),
{
    FileWrite { path: cgroup_procs_path(name), data: decimal_string(pid as u64) }
}


/// Whether a cgroup name is `.`, the root cgroup.
pub fn is_root_cgroup(name: &str) -> (b: bool)
    ensures
        b == (name@ == "."@),
{
    let chars = str_chars(name);
    let dot = str_chars(".");
    assert(chars@.subrange(0, chars@.len() as int) =~= chars@);
    chars_eq(&chars, 0, chars.len(), &dot)
}

/// Where a cgroup deletion stands.
#[derive(Debug, Clone, Copy, PartialEq, Eq, Structural)]
pub enum DeleteStage {
    /// Nothing has run yet.
    Start,
    /// Whether the cgroup exists is being checked.
    CheckingExists,
    /// The processes of the cgroup are counted for the first time.
    FirstCount,
    /// The processes of the cgroup are counted for the second time.
    SecondCount,
    /// The deletion is over.
    Done,
}

/// What the caller of a cgroup deletion does next.
#[derive(Debug, Clone, Copy, PartialEq, Eq, Structural)]
pub enum DeleteAction {
    /// Check whether the cgroup exists and report it.
    CheckExists,
    /// Count the processes of the cgroup and report their number.
    CountProcs,
    /// Wait this many milliseconds, then count the processes of the cgroup and report
    /// their number.
    WaitThenCount(u64),
    /// The root cgroup is never deleted: done, with success.
    Root,
    /// The cgroup does not exist: done, with success.
    Missing,
    /// The cgroup still has processes: done, with the active-processes error.
    Busy,
    /// Remove the directory of the cgroup: done.
    Remove,
}

/// Deleting a cgroup: the root is left alone, a missing cgroup is no error; a cgroup
/// whose processes do not all leave within a 100 ms wait is refused, any other is
/// removed.
pub struct DeleteCgroup {
    root: bool,
    stage: DeleteStage,
}

impl DeleteCgroup {
    /// Whether the deletion is of the root cgroup.
    pub closed spec fn is_root(&self) -> bool {
        self.root
    }

    pub closed spec fn stage(&self) -> DeleteStage {
        self.stage
    }

    /// The first action: nothing for the root cgroup, else check that the cgroup exists.
    pub fn start(&mut self) -> (a: DeleteAction)
        requires
            old(self).stage() == DeleteStage::Start,
        ensures
            final(self).is_root() == old(self).is_root(),
            old(self).is_root() ==> a == DeleteAction::Root && final(self).stage() == DeleteStage::Done,
            !old(self).is_root() ==> a == DeleteAction::CheckExists && final(self).stage()
                == DeleteStage::CheckingExists,
    {
        if self.root {
            self.stage = DeleteStage::Done;
            DeleteAction::Root
        } else {
            self.stage = DeleteStage::CheckingExists;
            DeleteAction::CheckExists
        }
    }

    /// The next action once the check reported whether the cgroup exists: done where it
    /// does not, else count its processes.
    pub fn on_exists(&mut self, exists: bool) -> (a: DeleteAction)
        requires
            old(self).stage() == DeleteStage::CheckingExists,
        ensures
            final(self).is_root() == old(self).is_root(),
            !exists ==> a == DeleteAction::Missing && final(self).stage() == DeleteStage::Done,
            exists ==> a == DeleteAction::CountProcs && final(self).stage() == DeleteStage::FirstCount,
    {
        if exists {
            self.stage = DeleteStage::FirstCount;
            DeleteAction::CountProcs
        } else {
            self.stage = DeleteStage::Done;
            DeleteAction::Missing
        }
    }

    /// The next action once a count of the processes reported `n`: after the first count,
    /// count again, after a 100 ms wait where there were processes; after the second,
    /// refuse where processes remain, else remove the cgroup.
    pub fn on_procs(&mut self, n: usize) -> (a: DeleteAction)
        requires
            old(self).stage() == DeleteStage::FirstCount || old(self).stage() == DeleteStage::SecondCount,
        ensures
            final(self).is_root() == old(self).is_root(),
            old(self).stage() == DeleteStage::FirstCount && n > 0 ==> a == DeleteAction::WaitThenCount(100)
                && final(self).stage() == DeleteStage::SecondCount,
            old(self).stage() == DeleteStage::FirstCount && n == 0 ==> a == DeleteAction::CountProcs
                && final(self).stage() == DeleteStage::SecondCount,
            old(self).stage() == DeleteStage::SecondCount && n > 0 ==> a == DeleteAction::Busy
                && final(self).stage() == DeleteStage::Done,
            old(self).stage() == DeleteStage::SecondCount && n == 0 ==> a == DeleteAction::Remove
                && final(self).stage() == DeleteStage::Done,
    {
        match self.stage {
            DeleteStage::FirstCount => {
                self.stage = DeleteStage::SecondCount;
                if n > 0 {
                    DeleteAction::WaitThenCount(100)
                } else {
                    DeleteAction::CountProcs
                }
            },
            _ => {
                self.stage = DeleteStage::Done;
                if n > 0 {
                    DeleteAction::Busy
                } else {
                    DeleteAction::Remove
                }
            },
        }
    }
}

/// Delete cgroup
///
/// Tries to delete the given cgroup. A cgroup can be deleted only if there are no
/// active processes inside; the procedure waits once to give the kernel time to clean
/// up after processes that exit.
pub fn delete_cgroup(name: &str) -> (p: DeleteCgroup)
    ensures
        p.is_root() == (name@ == "."@),
        p.stage() == DeleteStage::Start,
{
    DeleteCgroup { root: is_root_cgroup(name), stage: DeleteStage::Start }
}

// ---------------------------------------------------------------------------
// Laws
// ---------------------------------------------------------------------------

/// Reading back the system real-time period (or runtime) that a write set gives the
/// value written.
pub proof fn law_system_rt_read_back(value: u64)
    ensures
        parse_unsigned(trim(decimal(value as nat)), u64::MAX as nat) == Some(value as nat),
{
    crate::text::lemma_decimal(value as nat);
    crate::text::lemma_digit_char(0);
    let d = decimal(value as nat);
    assert(crate::text::is_digit(d[0]));
    assert(crate::text::is_digit(d[d.len() - 1]));
    crate::text::lemma_trim_unchanged(d);
    crate::text::lemma_parse_decimal(value as nat, u64::MAX as nat);
}


/// The PIDs of lines that each are a PID: one for each line, the number that the line
/// holds.
proof fn lemma_parse_pids_each(ls: Seq<Seq<char>>)
    requires
        parse_pids(ls) is Some,
    ensures
        parse_pids(ls).unwrap().len() == ls.len(),
        forall|k: int|
            0 <= k < ls.len() ==> parse_unsigned(#[trigger] ls[k], u32::MAX as nat) == Some(
                parse_pids(ls).unwrap()[k] as nat,
            ),
    decreases ls.len(),
{
    if ls.len() > 0 {
        lemma_parse_pids_each(ls.drop_last());
        let pids = parse_pids(ls).unwrap();
        assert forall|k: int| 0 <= k < ls.len() implies parse_unsigned(#[trigger] ls[k], u32::MAX as nat)
            == Some(pids[k] as nat) by {
            if k < ls.len() - 1 {
                assert(ls[k] == ls.drop_last()[k]);
            }
        }
    }
}

/// Read from one `cgroup.procs` text, the PIDs are as many as the processes counted, and
/// a process found in the cgroup is among its PIDs.
pub proof fn law_procs_consistent(procs: Seq<char>, pid: Pid)
    requires
        parse_pids(lines(procs)) is Some,
    ensures
        parse_pids(lines(procs)).unwrap().len() == lines(procs).len(),
        (exists|k: int| 0 <= k < lines(procs).len() && #[trigger] lines(procs)[k] == decimal(pid as nat))
            ==> parse_pids(lines(procs)).unwrap().contains(pid),
{
    let ls = lines(procs);
    lemma_parse_pids_each(ls);
    if exists|k: int| 0 <= k < ls.len() && #[trigger] ls[k] == decimal(pid as nat) {
        let k = choose|k: int| 0 <= k < ls.len() && #[trigger] ls[k] == decimal(pid as nat);
        crate::text::lemma_parse_decimal(pid as nat, u32::MAX as nat);
        let pids = parse_pids(ls).unwrap();
        assert(parse_unsigned(ls[k], u32::MAX as nat) == Some(pids[k] as nat));
        assert(pids[k] == pid);
    }
}


/// The text `0::/<p>` of a process's cgroup file, with any whitespace after it, names the
/// cgroup `p`, all of it, whatever its length, where `p` does not end with whitespace.
pub proof fn law_pid_cgroup_name(p: Seq<char>, w: Seq<char>)
    requires
        p.len() > 0,
        !crate::text::is_whitespace(p.last()),
        forall|k: int| 0 <= k < w.len() ==> crate::text::is_whitespace(#[trigger] w[k]),
    ensures
        pid_cgroup_of("0::/"@ + p + w) == Some(p),
{
    reveal_strlit("0::/");
    let core = "0::/"@ + p;
    let s = core + w;
    let n = core.len() as int;
    assert(s[0] == '0');
    assert(crate::text::skip_whitespace(s, 0) == 0);
    crate::text::lemma_skip_whitespace_back(s, 0, s.len() as int);
    let r = crate::text::skip_whitespace_back(s, 0, s.len() as int);
    assert(s[n - 1] == p.last());
    if r < n {
        assert(crate::text::is_whitespace(s[n - 1]));
    }
    if r > n {
        assert(s[r - 1] == w[r - 1 - n]);
    }
    assert(r == n);
    assert(crate::text::trim(s) =~= core);
    assert(core.subrange(0, 4) =~= "0::/"@);
    assert(core.subrange(4, core.len() as int) =~= p);
}


/// The text of a `cgroup.procs` file that lists PIDs: each in decimal on a line of its
/// own.
pub open spec fn procs_text(pids: Seq<Pid>) -> Seq<char>
    decreases pids.len(),
{
    if pids.len() == 0 {
        seq![]
    } else {
        decimal(pids[0] as nat) + "\n"@ + procs_text(pids.drop_first())
    }
}

/// The line feed at the end of a run of other characters ends the line.
proof fn lemma_line_end_run(s: Seq<char>, i: int, j: int)
    requires
        0 <= i <= j < s.len(),
        forall|k: int| i <= k < j ==> #[trigger] s[k] != '\n',
        s[j] == '\n',
    ensures
        crate::text::line_end(s, i) == j,
    decreases j - i,
{
    if i < j {
        lemma_line_end_run(s, i + 1, j);
    }
}

/// The lines of a PID list that follows any text `pre` are the PIDs in decimal.
proof fn lemma_procs_lines(pre: Seq<char>, pids: Seq<Pid>)
    ensures
        crate::text::lines_from(pre + procs_text(pids), pre.len() as int) == pids.map_values(
            |p: Pid| decimal(p as nat),
        ),
    decreases pids.len(),
{
    reveal_strlit("\n");
    let s = pre + procs_text(pids);
    let i = pre.len() as int;
    if pids.len() == 0 {
        assert(pids.map_values(|p: Pid| decimal(p as nat)) =~= Seq::<Seq<char>>::empty());
    } else {
        let d = decimal(pids[0] as nat);
        let rest = pids.drop_first();
        let pre2 = pre + d + "\n"@;
        assert(s =~= pre2 + procs_text(rest));
        crate::text::lemma_decimal(pids[0] as nat);
        let e = i + d.len();
        assert forall|k: int| i <= k < e implies #[trigger] s[k] != '\n' by {
            assert(s[k] == d[k - i]);
            assert(crate::text::is_digit(d[k - i]));
        }
        assert(s[e] == '\n');
        lemma_line_end_run(s, i, e);
        assert(s[e - 1] == d[d.len() - 1]);
        assert(crate::text::is_digit(d[d.len() - 1]));
        assert(crate::text::line_text(s, i, e) =~= d);
        lemma_procs_lines(pre2, rest);
        assert(pre2.len() == e + 1);
        assert(pids.map_values(|p: Pid| decimal(p as nat)) =~= seq![d] + rest.map_values(
            |p: Pid| decimal(p as nat),
        ));
    }
}

/// The PIDs in decimal, one per line, read back as the PIDs.
proof fn lemma_parse_decimal_pids(pids: Seq<Pid>)
    ensures
        parse_pids(pids.map_values(|p: Pid| decimal(p as nat))) == Some(pids),
    decreases pids.len(),
{
    if pids.len() > 0 {
        let ls = pids.map_values(|p: Pid| decimal(p as nat));
        assert(ls.drop_last() =~= pids.drop_last().map_values(|p: Pid| decimal(p as nat)));
        lemma_parse_decimal_pids(pids.drop_last());
        crate::text::lemma_parse_decimal(pids.last() as nat, u32::MAX as nat);
        assert(pids.drop_last().push(pids.last()) =~= pids);
    }
}

/// A `cgroup.procs` text that lists PIDs one per line counts them, reads back as them,
/// and holds a PID exactly where it lists it.
pub proof fn law_procs_read_back(pids: Seq<Pid>, pid: Pid)
    ensures
        lines(procs_text(pids)).len() == pids.len(),
        parse_pids(lines(procs_text(pids))) == Some(pids),
        (exists|k: int| 0 <= k < lines(procs_text(pids)).len() && #[trigger] lines(procs_text(pids))[k]
            == decimal(pid as nat)) <==> pids.contains(pid),
{
    let s = procs_text(pids);
    lemma_procs_lines(Seq::<char>::empty(), pids);
    assert(Seq::<char>::empty() + s =~= s);
    let ls = lines(s);
    assert(ls == pids.map_values(|p: Pid| decimal(p as nat)));
    lemma_parse_decimal_pids(pids);
    if exists|k: int| 0 <= k < ls.len() && #[trigger] ls[k] == decimal(pid as nat) {
        let k = choose|k: int| 0 <= k < ls.len() && #[trigger] ls[k] == decimal(pid as nat);
        crate::text::lemma_decimal(pid as nat);
        crate::text::lemma_decimal(pids[k] as nat);
        assert(pids[k] == pid);
    }
    if pids.contains(pid) {
        let k = choose|k: int| 0 <= k < pids.len() && pids[k] == pid;
        assert(ls[k] == decimal(pid as nat));
    }
}

} // verus!
