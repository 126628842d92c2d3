//! Scheduling policies and flags of tasks, and their encoding in the attributes
//! of the `sched_setattr` / `sched_getattr` system calls.
use vstd::prelude::*;

use crate::common::Pid;

verus! {

/// Linux policy number of `SCHED_OTHER`, as in `libc`.
pub const SCHED_OTHER: i32 = 0;

/// Linux policy number of `SCHED_FIFO`, as in `libc`.
pub const SCHED_FIFO: i32 = 1;

/// Linux policy number of `SCHED_RR`, as in `libc`.
pub const SCHED_RR: i32 = 2;

/// Linux policy number of `SCHED_BATCH`, as in `libc`.
pub const SCHED_BATCH: i32 = 3;

/// Linux policy number of `SCHED_IDLE`, as in `libc`.
pub const SCHED_IDLE: i32 = 5;

/// Linux policy number of `SCHED_DEADLINE`, as in `libc`.
pub const SCHED_DEADLINE: i32 = 6;

/// The `SCHED_FLAG_RESET_ON_FORK` bit of `sched_attr.sched_flags`, as in `libc`.
pub const SCHED_FLAG_RESET_ON_FORK: u64 = 1;

/// The `SCHED_FLAG_RECLAIM` bit of `sched_attr.sched_flags`, as in `libc`.
pub const SCHED_FLAG_RECLAIM: u64 = 2;

/// Nanoseconds in a millisecond.
pub const MILLI_TO_NANO: u64 = 1000000;

/// Scheduling Policy
#[derive(Debug, Clone, Copy, PartialEq, Eq, Structural)]
pub enum SchedPolicy {
    OTHER { nice: i32 },
    BATCH { nice: i32 },
    IDLE,
    FIFO(i32),
    RR(i32),
    DEADLINE { runtime_ms: u64, deadline_ms: u64, period_ms: u64 },
}

impl SchedPolicy {
    /// Builder for SCHED_OTHER at niceness zero
    pub fn other() -> (p: Self)
        ensures
            p == (SchedPolicy::OTHER { nice: 0 }),
    {
        SchedPolicy::OTHER { nice: 0 }
    }

    pub fn is_other(&self) -> (b: bool)
        ensures
            b == (*self is OTHER),
    {
        match self {
            Self::OTHER { .. } => true,
            _ => false,
        }
    }

    pub fn is_fifo_rr(&self) -> (b: bool)
        ensures
            b == (*self is FIFO || *self is RR),
    {
        match self {
            Self::FIFO(_) => true,
            Self::RR(_) => true,
            _ => false,
        }
    }

    pub fn is_deadline(&self) -> (b: bool)
        ensures
            b == (*self is DEADLINE),
    {
        match self {
            Self::DEADLINE { .. } => true,
            _ => false,
        }
    }
}

/// Scheduling Flags
#[derive(Debug, Clone, Copy, PartialEq, Eq, Structural)]
pub struct SchedFlags(u32);

/// The bits of the known flags.
pub open spec fn all_flag_bits() -> u32 {
    3
}

impl SchedFlags {
    /// The flag `RESET_ON_FORK`.
    pub fn reset_on_fork() -> (f: Self)
        ensures
            f.spec_bits() == 1,
    {
        SchedFlags(1)
    }

    /// The flag `RECLAIM`.
    pub fn reclaim() -> (f: Self)
        ensures
            f.spec_bits() == 2,
    {
        SchedFlags(2)
    }

    /// The bits of the flags.
    pub closed spec fn spec_bits(self) -> u32 {
        self.0
    }

    /// No flag.
    pub fn empty() -> (f: Self)
        ensures
            f.spec_bits() == 0,
    {
        SchedFlags(0)
    }

    /// Every known flag.
    pub fn all() -> (f: Self)
        ensures
            f.spec_bits() == all_flag_bits(),
    {
        SchedFlags(3)
    }

    pub fn bits(&self) -> (b: u32)
        ensures
            b == self.spec_bits(),
    {
        self.0
    }

    /// The flags of `bits`, where it holds no unknown bit.
    pub fn from_bits(bits: u32) -> (f: Option<Self>)
        ensures
            bits & all_flag_bits() == bits ==> (f matches Some(g) && g.spec_bits() == bits),
            bits & all_flag_bits() != bits ==> f is None,
    {
        if bits & 3 == bits {
            Some(SchedFlags(bits))
        } else {
            None
        }
    }

    /// The flags of `bits`, without its unknown bits.
    pub fn from_bits_truncate(bits: u32) -> (f: Self)
        ensures
            f.spec_bits() == bits & all_flag_bits(),
    {
        SchedFlags(bits & 3)
    }

    /// The flags of `bits`, unknown bits included.
    pub fn from_bits_retain(bits: u32) -> (f: Self)
        ensures
            f.spec_bits() == bits,
    {
        SchedFlags(bits)
    }

    pub fn is_empty(&self) -> (b: bool)
        ensures
            b == (self.spec_bits() == 0),
    {
        self.0 == 0
    }

    pub fn is_all(&self) -> (b: bool)
        ensures
            b == (all_flag_bits() | self.spec_bits() == self.spec_bits()),
    {
        3 | self.0 == self.0
    }

    pub fn intersects(&self, other: Self) -> (b: bool)
        ensures
            b == (self.spec_bits() & other.spec_bits() != 0),
    {
        self.0 & other.0 != 0
    }

    pub fn contains(&self, other: Self) -> (b: bool)
        ensures
            b == (self.spec_bits() & other.spec_bits() == other.spec_bits()),
    {
        self.0 & other.0 == other.0
    }

    pub fn insert(&mut self, other: Self)
        ensures
            final(self).spec_bits() == old(self).spec_bits() | other.spec_bits(),
    {
        self.0 = self.0 | other.0;
    }

    pub fn remove(&mut self, other: Self)
        ensures
            final(self).spec_bits() == old(self).spec_bits() & !other.spec_bits(),
    {
        self.0 = self.0 & !other.0;
    }

    pub fn toggle(&mut self, other: Self)
        ensures
            final(self).spec_bits() == old(self).spec_bits() ^ other.spec_bits(),
    {
        self.0 = self.0 ^ other.0;
    }

    pub fn set(&mut self, other: Self, value: bool)
        ensures
            value ==> final(self).spec_bits() == old(self).spec_bits() | other.spec_bits(),
            !value ==> final(self).spec_bits() == old(self).spec_bits() & !other.spec_bits(),
    {
        if value {
            self.insert(other);
        } else {
            self.remove(other);
        }
    }

    pub fn intersection(self, other: Self) -> (f: Self)
        ensures
            f.spec_bits() == self.spec_bits() & other.spec_bits(),
    {
        SchedFlags(self.0 & other.0)
    }

    pub fn union(self, other: Self) -> (f: Self)
        ensures
            f.spec_bits() == self.spec_bits() | other.spec_bits(),
    {
        SchedFlags(self.0 | other.0)
    }

    pub fn difference(self, other: Self) -> (f: Self)
        ensures
            f.spec_bits() == self.spec_bits() & !other.spec_bits(),
    {
        SchedFlags(self.0 & !other.0)
    }

    pub fn symmetric_difference(self, other: Self) -> (f: Self)
        ensures
            f.spec_bits() == self.spec_bits() ^ other.spec_bits(),
    {
        SchedFlags(self.0 ^ other.0)
    }

    pub fn complement(self) -> (f: Self)
        ensures
            f.spec_bits() == !self.spec_bits() & all_flag_bits(),
    {
        SchedFlags(!self.0 & 3)
    }
}

/// `a | b`: the union of two sets of flags.
impl std::ops::BitOr for SchedFlags {
    type Output = SchedFlags;

    fn bitor(self, rhs: SchedFlags) -> (f: SchedFlags)
        ensures
            f.spec_bits() == self.spec_bits() | rhs.spec_bits(),
    {
        self.union(rhs)
    }
}

impl vstd::std_specs::ops::BitOrSpecImpl for SchedFlags {
    open spec fn obeys_bitor_spec() -> bool {
        true
    }

    open spec fn bitor_req(self, rhs: SchedFlags) -> bool {
        true
    }

    closed spec fn bitor_spec(self, rhs: SchedFlags) -> SchedFlags {
        SchedFlags(self.0 | rhs.0)
    }
}

/// `a & b`: the flags that both sets hold.
impl std::ops::BitAnd for SchedFlags {
    type Output = SchedFlags;

    fn bitand(self, rhs: SchedFlags) -> (f: SchedFlags)
        ensures
            f.spec_bits() == self.spec_bits() & rhs.spec_bits(),
    {
        self.intersection(rhs)
    }
}

impl vstd::std_specs::ops::BitAndSpecImpl for SchedFlags {
    open spec fn obeys_bitand_spec() -> bool {
        true
    }

    open spec fn bitand_req(self, rhs: SchedFlags) -> bool {
        true
    }

    closed spec fn bitand_spec(self, rhs: SchedFlags) -> SchedFlags {
        SchedFlags(self.0 & rhs.0)
    }
}

/// `a ^ b`: the flags that exactly one of the sets holds.
impl std::ops::BitXor for SchedFlags {
    type Output = SchedFlags;

    fn bitxor(self, rhs: SchedFlags) -> (f: SchedFlags)
        ensures
            f.spec_bits() == self.spec_bits() ^ rhs.spec_bits(),
    {
        self.symmetric_difference(rhs)
    }
}

impl vstd::std_specs::ops::BitXorSpecImpl for SchedFlags {
    open spec fn obeys_bitxor_spec() -> bool {
        true
    }

    open spec fn bitxor_req(self, rhs: SchedFlags) -> bool {
        true
    }

    closed spec fn bitxor_spec(self, rhs: SchedFlags) -> SchedFlags {
        SchedFlags(self.0 ^ rhs.0)
    }
}

/// `a - b`: the flags of `a` that `b` does not hold.
impl std::ops::Sub for SchedFlags {
    type Output = SchedFlags;

    fn sub(self, rhs: SchedFlags) -> (f: SchedFlags)
        ensures
            f.spec_bits() == self.spec_bits() & !rhs.spec_bits(),
    {
        self.difference(rhs)
    }
}

impl vstd::std_specs::ops::SubSpecImpl for SchedFlags {
    open spec fn obeys_sub_spec() -> bool {
        true
    }

    open spec fn sub_req(self, rhs: SchedFlags) -> bool {
        true
    }

    closed spec fn sub_spec(self, rhs: SchedFlags) -> SchedFlags {
        SchedFlags(self.0 & !rhs.0)
    }
}

/// `!a`: the known flags that the set does not hold.
impl std::ops::Not for SchedFlags {
    type Output = SchedFlags;

    fn not(self) -> (f: SchedFlags)
        ensures
            f.spec_bits() == !self.spec_bits() & all_flag_bits(),
    {
        self.complement()
    }
}

impl vstd::std_specs::ops::NotSpecImpl for SchedFlags {
    open spec fn obeys_not_spec() -> bool {
        true
    }

    open spec fn not_req(self) -> bool {
        true
    }

    closed spec fn not_spec(self) -> SchedFlags {
        SchedFlags(!self.0 & 3)
    }
}

/// The fields of the kernel's `sched_attr` that the policy and the flags set, as plain
/// values (its `size` field is the caller's to fill).
#[derive(Debug, Clone, Copy, PartialEq, Eq, Structural)]
pub struct SchedAttr {
    pub sched_policy: u32,
    pub sched_flags: u64,
    pub sched_nice: i32,
    pub sched_priority: u32,
    pub sched_runtime: u64,
    pub sched_deadline: u64,
    pub sched_period: u64,
}

impl SchedAttr {
    /// The attributes with every field zero, which `sched_getattr` fills.
    pub fn zeroed() -> (a: Self)
        ensures
            a == (SchedAttr {
                sched_policy: 0,
                sched_flags: 0,
                sched_nice: 0,
                sched_priority: 0,
                sched_runtime: 0,
                sched_deadline: 0,
                sched_period: 0,
            }),
    {
        SchedAttr {
            sched_policy: 0,
            sched_flags: 0,
            sched_nice: 0,
            sched_priority: 0,
            sched_runtime: 0,
            sched_deadline: 0,
            sched_period: 0,
        }
    }
}

/// A policy with its flags.
#[derive(Debug, Clone, Copy, PartialEq, Eq, Structural)]
pub struct SchedData {
    pub policy: SchedPolicy,
    pub flags: SchedFlags,
}

#[derive(Debug)]
pub enum GetSchedPolicyError {
    SyscallError(std::io::Error),
    UnknownPolicy(i32),
}

#[derive(Debug)]
pub enum SetSchedPolicyError {
    SyscallError(std::io::Error),
    DeadlineWOResetOnFork,
}

#[derive(Debug)]
pub struct GetSchedError {
    pid: Pid,
    error: GetSchedPolicyError,
}

#[derive(Debug)]
pub struct SetSchedError {
    pid: Pid,
    error: SetSchedPolicyError,
}

impl GetSchedError {
    pub closed spec fn spec_pid(&self) -> Pid {
        self.pid
    }

    pub closed spec fn spec_error(&self) -> &GetSchedPolicyError {
        &self.error
    }

    /// The task whose policy could not be read.
    pub fn pid(&self) -> (p: Pid)
        ensures
            p == self.spec_pid(),
    {
        self.pid
    }

    /// Why the policy could not be read.
    pub fn error(&self) -> (e: &GetSchedPolicyError)
        ensures
            e == self.spec_error(),
    {
        &self.error
    }
}

impl SetSchedError {
    pub closed spec fn spec_pid(&self) -> Pid {
        self.pid
    }

    pub closed spec fn spec_error(&self) -> &SetSchedPolicyError {
        &self.error
    }

    /// The error of a `sched_setattr` call for task `pid` that failed.
    pub fn syscall_failed(pid: Pid, error: std::io::Error) -> (e: Self)
        ensures
            e.spec_pid() == pid,
            e.spec_error() matches SetSchedPolicyError::SyscallError(x) && x == error,
    {
        SetSchedError { pid, error: SetSchedPolicyError::SyscallError(error) }
    }

    /// The task whose policy could not be set.
    pub fn pid(&self) -> (p: Pid)
        ensures
            p == self.spec_pid(),
    {
        self.pid
    }

    /// Why the policy could not be set.
    pub fn error(&self) -> (e: &SetSchedPolicyError)
        ensures
            e == self.spec_error(),
    {
        &self.error
    }
}

/// The Linux policy number of a policy.
pub open spec fn policy_number(p: SchedPolicy) -> i32 {
    match p {
        SchedPolicy::OTHER { .. } => SCHED_OTHER,
        SchedPolicy::BATCH { .. } => SCHED_BATCH,
        SchedPolicy::IDLE => SCHED_IDLE,
        SchedPolicy::FIFO(_) => SCHED_FIFO,
        SchedPolicy::RR(_) => SCHED_RR,
        SchedPolicy::DEADLINE { .. } => SCHED_DEADLINE,
    }
}

/// The policy that attributes read from the kernel describe, or `None` where their
/// policy number is not one of the six known ones.
pub open spec fn policy_of_attr(a: SchedAttr) -> Option<SchedPolicy> {
    let n = a.sched_policy as i32;
    if n == SCHED_OTHER {
        Some(SchedPolicy::OTHER { nice: a.sched_nice })
    } else if n == SCHED_BATCH {
        Some(SchedPolicy::BATCH { nice: a.sched_nice })
    } else if n == SCHED_IDLE {
        Some(SchedPolicy::IDLE)
    } else if n == SCHED_FIFO {
        Some(SchedPolicy::FIFO(a.sched_priority as i32))
    } else if n == SCHED_RR {
        Some(SchedPolicy::RR(a.sched_priority as i32))
    } else if n == SCHED_DEADLINE {
        Some(
            SchedPolicy::DEADLINE {
                runtime_ms: a.sched_runtime,
                deadline_ms: a.sched_deadline,
                period_ms: a.sched_period,
            },
        )
    } else {
        None
    }
}

/// The flags that the `sched_flags` field of attributes read from the kernel
/// holds: `RESET_ON_FORK` and `RECLAIM`, the other bits dropped.
pub open spec fn flag_bits_of_attr(sched_flags: u64) -> u32 {
    (if sched_flags & SCHED_FLAG_RESET_ON_FORK > 0 {
        1u32
    } else {
        0u32
    }) | (if sched_flags & SCHED_FLAG_RECLAIM > 0 {
        2u32
    } else {
        0u32
    })
}

/// The `sched_flags` field that flags are set with: `RESET_ON_FORK` and `RECLAIM`,
/// the other bits dropped.
pub open spec fn attr_flags_of(bits: u32) -> u64 {
    (if bits & 1 == 1 {
        SCHED_FLAG_RESET_ON_FORK
    } else {
        0u64
    }) | (if bits & 2 == 2 {
        SCHED_FLAG_RECLAIM
    } else {
        0u64
    })
}

/// Setting a deadline policy asks for the `RESET_ON_FORK` flag.
pub open spec fn deadline_without_reset(policy: SchedPolicy, flags: SchedFlags) -> bool {
    policy is DEADLINE && flags.spec_bits() & 1 != 1
}

/// The times of a deadline policy fit in nanoseconds.
pub open spec fn deadline_fits(policy: SchedPolicy) -> bool {
    match policy {
        SchedPolicy::DEADLINE { runtime_ms, deadline_ms, period_ms } => {
            &&& runtime_ms * MILLI_TO_NANO <= u64::MAX
            &&& deadline_ms * MILLI_TO_NANO <= u64::MAX
            &&& period_ms * MILLI_TO_NANO <= u64::MAX
        },
        _ => true,
    }
}

/// The attributes that set a policy with its flags: deadline times go from milliseconds to
/// nanoseconds.
pub open spec fn attr_of(policy: SchedPolicy, flags: SchedFlags) -> SchedAttr {
    SchedAttr {
        sched_policy: policy_number(policy) as u32,
        sched_flags: attr_flags_of(flags.spec_bits()),
        sched_nice: match policy {
            SchedPolicy::OTHER { nice } => nice,
            SchedPolicy::BATCH { nice } => nice,
            _ => 0,
        },
        sched_priority: match policy {
            SchedPolicy::FIFO(prio) => prio as u32,
            SchedPolicy::RR(prio) => prio as u32,
            _ => 0,
        },
        sched_runtime: match policy {
            SchedPolicy::DEADLINE { runtime_ms, .. } => (runtime_ms * MILLI_TO_NANO) as u64,
            _ => 0,
        },
        sched_deadline: match policy {
            SchedPolicy::DEADLINE { deadline_ms, .. } => (deadline_ms * MILLI_TO_NANO) as u64,
            _ => 0,
        },
        sched_period: match policy {
            SchedPolicy::DEADLINE { period_ms, .. } => (period_ms * MILLI_TO_NANO) as u64,
            _ => 0,
        },
    }
}

impl SchedData {
    /// The policy and flags of attributes read from the kernel
    pub fn try_from_attr(value: SchedAttr) -> (r: Result<SchedData, GetSchedPolicyError>)
        ensures
            match policy_of_attr(value) {
                Some(policy) => r matches Ok(data) && data.policy == policy
                    && data.flags.spec_bits() == flag_bits_of_attr(value.sched_flags),
                None => r matches Err(GetSchedPolicyError::UnknownPolicy(n)) && n
                    == value.sched_policy as i32,
            },
    {
        let n = value.sched_policy as i32;
        let policy = if n == SCHED_OTHER {
            SchedPolicy::OTHER { nice: value.sched_nice }
        } else if n == SCHED_BATCH {
            SchedPolicy::BATCH { nice: value.sched_nice }
        } else if n == SCHED_IDLE {
            SchedPolicy::IDLE
        } else if n == SCHED_FIFO {
            SchedPolicy::FIFO(value.sched_priority as i32)
        } else if n == SCHED_RR {
            SchedPolicy::RR(value.sched_priority as i32)
        } else if n == SCHED_DEADLINE {
            SchedPolicy::DEADLINE {
                runtime_ms: value.sched_runtime,
                deadline_ms: value.sched_deadline,
                period_ms: value.sched_period,
            }
        } else {
            return Err(GetSchedPolicyError::UnknownPolicy(n));
        };
        let mut flags = SchedFlags::empty();
        if (value.sched_flags & SCHED_FLAG_RESET_ON_FORK) > 0 {
            flags.insert(SchedFlags::reset_on_fork());
        }
        if (value.sched_flags & SCHED_FLAG_RECLAIM) > 0 {
            flags.insert(SchedFlags::reclaim());
        }
        proof {
            let f = value.sched_flags;
            assert((0u32 | 0u32) == 0u32 && (0u32 | 1u32) == 1u32 && (0u32 | 2u32) == 2u32 && ((
            0u32 | 1u32) | 2u32) == 3u32 && (1u32 | 0u32) == 1u32 && (1u32 | 2u32) == 3u32)
                by (bit_vector);
        }
        Ok(SchedData { policy, flags })
    }

    /// The attributes that set the policy with its flags; a deadline policy without the
    /// `RESET_ON_FORK` flag is refused
    pub fn try_into_attr(self) -> (r: Result<SchedAttr, SetSchedPolicyError>)
        requires
            !deadline_without_reset(self.policy, self.flags) ==> deadline_fits(self.policy),
        ensures
            deadline_without_reset(self.policy, self.flags) ==> r matches Err(
                SetSchedPolicyError::DeadlineWOResetOnFork,
            ),
            !deadline_without_reset(self.policy, self.flags) ==> r == Ok::<
                SchedAttr,
                SetSchedPolicyError,
            >(attr_of(self.policy, self.flags)),
    {
        let SchedData { policy, flags } = self;
        let sched_policy = match policy {
            SchedPolicy::OTHER { .. } => SCHED_OTHER,
            SchedPolicy::BATCH { .. } => SCHED_BATCH,
            SchedPolicy::IDLE => SCHED_IDLE,
            SchedPolicy::FIFO(_) => SCHED_FIFO,
            SchedPolicy::RR(_) => SCHED_RR,
            SchedPolicy::DEADLINE { .. } => SCHED_DEADLINE,
        } as u32;
        let mut sched_flags: u64 = 0;
        if let SchedPolicy::DEADLINE { .. } = policy {
            if !flags.contains(SchedFlags::reset_on_fork()) {
                return Err(SetSchedPolicyError::DeadlineWOResetOnFork);
            }
        }
        if flags.contains(SchedFlags::reset_on_fork()) {
            sched_flags = sched_flags | SCHED_FLAG_RESET_ON_FORK;
        }
        if flags.contains(SchedFlags::reclaim()) {
            sched_flags = sched_flags | SCHED_FLAG_RECLAIM;
        }
        proof {
            assert((0u64 | 1u64) == 1u64 && (0u64 | 2u64) == 2u64 && (1u64 | 2u64) == 3u64 && (0u64
                | 0u64) == 0u64 && (1u64 | 0u64) == 1u64) by (bit_vector);
        }
        let sched_nice = match policy {
            SchedPolicy::OTHER { nice } => nice,
            SchedPolicy::BATCH { nice } => nice,
            _ => 0,
        };
        let sched_priority = match policy {
            SchedPolicy::FIFO(prio) => prio as u32,
            SchedPolicy::RR(prio) => prio as u32,
            _ => 0,
        };
        let (sched_runtime, sched_deadline, sched_period) = match policy {
            SchedPolicy::DEADLINE { runtime_ms, deadline_ms, period_ms } => (
                runtime_ms * MILLI_TO_NANO,
                deadline_ms * MILLI_TO_NANO,
                period_ms * MILLI_TO_NANO,
            ),
            _ => (0, 0, 0),
        };
        Ok(
            SchedAttr {
                sched_policy,
                sched_flags,
                sched_nice,
                sched_priority,
                sched_runtime,
                sched_deadline,
                sched_period,
            },
        )
    }
}

/// The outcome of reading the policy of task `pid`: the attributes that
/// `sched_getattr` gave, or the error of the call.
pub fn get_sched_policy(pid: Pid, attr: Result<SchedAttr, std::io::Error>) -> (r: Result<
    (SchedPolicy, SchedFlags),
    GetSchedError,
>)
    ensures
        match attr {
            Err(e) => r matches Err(err) && err.spec_pid() == pid && (err.spec_error() matches GetSchedPolicyError::SyscallError(x) && x == e),
            Ok(a) => match policy_of_attr(a) {
                Some(policy) => r matches Ok((p, f)) && p == policy && f.spec_bits()
                    == flag_bits_of_attr(a.sched_flags),
                None => r matches Err(err) && err.spec_pid() == pid && (err.spec_error() matches GetSchedPolicyError::UnknownPolicy(n) && n == a.sched_policy as i32),
            },
        },
{
    match attr {
        Err(e) => Err(GetSchedError { pid, error: GetSchedPolicyError::SyscallError(e) }),
        Ok(a) => match SchedData::try_from_attr(a) {
            Ok(data) => Ok((data.policy, data.flags)),
            Err(error) => Err(GetSchedError { pid, error }),
        },
    }
}

/// The attributes that `sched_setattr` is called with to give task `pid` a policy with
/// its flags, or why the policy cannot be set.
pub fn set_sched_policy_attr(pid: Pid, policy: SchedPolicy, flags: SchedFlags) -> (r: Result<
    SchedAttr,
    SetSchedError,
>)
    requires
        !deadline_without_reset(policy, flags) ==> deadline_fits(policy),
    ensures
        deadline_without_reset(policy, flags) ==> (r matches Err(err) && err.spec_pid() == pid
            && (err.spec_error() matches SetSchedPolicyError::DeadlineWOResetOnFork)),
        !deadline_without_reset(policy, flags) ==> r == Ok::<SchedAttr, SetSchedError>(
            attr_of(policy, flags),
        ),
{
    match (SchedData { policy, flags }).try_into_attr() {
        Ok(attr) => Ok(attr),
        Err(error) => Err(SetSchedError { pid, error }),
    }
}

// ---------------------------------------------------------------------------
// Laws
// ---------------------------------------------------------------------------

/// Reading back the attributes that set a policy other than a deadline one gives the
/// policy and the known flags.
pub proof fn law_attr_round_trip(policy: SchedPolicy, flags: SchedFlags)
    requires
        !(policy is DEADLINE),
    ensures
        policy_of_attr(attr_of(policy, flags)) == Some(policy),
        flag_bits_of_attr(attr_of(policy, flags).sched_flags) == flags.spec_bits()
            & all_flag_bits(),
{
    lemma_flag_bits_round_trip(flags.spec_bits());
    match policy {
        SchedPolicy::FIFO(prio) => {
            assert((prio as u32) as i32 == prio) by (bit_vector);
        },
        SchedPolicy::RR(prio) => {
            assert((prio as u32) as i32 == prio) by (bit_vector);
        },
        _ => {},
    }
}

/// Reading back the attributes that set a deadline policy gives its times in
/// nanoseconds: a million times the milliseconds it was set with.
pub proof fn law_deadline_read_back(runtime_ms: u64, deadline_ms: u64, period_ms: u64, flags: SchedFlags)
    requires
        deadline_fits(SchedPolicy::DEADLINE { runtime_ms, deadline_ms, period_ms }),
    ensures
        policy_of_attr(attr_of(SchedPolicy::DEADLINE { runtime_ms, deadline_ms, period_ms }, flags))
            == Some(
            SchedPolicy::DEADLINE {
                runtime_ms: (runtime_ms * MILLI_TO_NANO) as u64,
                deadline_ms: (deadline_ms * MILLI_TO_NANO) as u64,
                period_ms: (period_ms * MILLI_TO_NANO) as u64,
            },
        ),
{
}

proof fn lemma_flag_bits_round_trip(b: u32)
    ensures
        flag_bits_of_attr(attr_flags_of(b)) == b & 3,
{
    let f: u64 = attr_flags_of(b);
    assert(f == ((if b & 1 == 1 { 1u64 } else { 0u64 }) | (if b & 2 == 2 { 2u64 } else { 0u64 })));
    assert(((if b & 1 == 1 { 1u64 } else { 0u64 }) | (if b & 2 == 2 { 2u64 } else { 0u64 })) & 1
        > 0 <==> b & 1 == 1) by (bit_vector);
    assert(((if b & 1 == 1 { 1u64 } else { 0u64 }) | (if b & 2 == 2 { 2u64 } else { 0u64 })) & 2
        > 0 <==> b & 2 == 2) by (bit_vector);
    assert(((if b & 1 == 1 { 1u32 } else { 0u32 }) | (if b & 2 == 2 { 2u32 } else { 0u32 })) == b
        & 3) by (bit_vector);
}

/// After inserting flags into a set, the set contains them.
pub proof fn law_insert_contains(set: SchedFlags, flags: SchedFlags)
    ensures
        (set.spec_bits() | flags.spec_bits()) & flags.spec_bits() == flags.spec_bits(),
{
    let (a, b) = (set.spec_bits(), flags.spec_bits());
    assert((a | b) & b == b) by (bit_vector);
}

/// After removing flags from a set, the set has none of them.
pub proof fn law_remove_disjoint(set: SchedFlags, flags: SchedFlags)
    ensures
        (set.spec_bits() & !flags.spec_bits()) & flags.spec_bits() == 0,
{
    let (a, b) = (set.spec_bits(), flags.spec_bits());
    assert((a & !b) & b == 0) by (bit_vector);
}

/// Toggling flags twice gives back the set.
pub proof fn law_toggle_twice(set: SchedFlags, flags: SchedFlags)
    ensures
        (set.spec_bits() ^ flags.spec_bits()) ^ flags.spec_bits() == set.spec_bits(),
{
    let (a, b) = (set.spec_bits(), flags.spec_bits());
    assert((a ^ b) ^ b == a) by (bit_vector);
}

/// The complement of the complement of a set is its known flags.
pub proof fn law_complement_twice(set: SchedFlags)
    ensures
        !(!set.spec_bits() & all_flag_bits()) & all_flag_bits() == set.spec_bits() & all_flag_bits(),
{
    let a = set.spec_bits();
    assert(!(!a & 3u32) & 3u32 == a & 3u32) by (bit_vector);
}


/// The attributes that set a policy hold only the fields that the policy uses: a
/// priority only for `FIFO` and `RR` (the one given), a niceness only for `OTHER` and
/// `BATCH` (the one given), times only for `DEADLINE` (in nanoseconds); every other of
/// these fields is zero.
pub proof fn law_attr_fields_of_policy(policy: SchedPolicy, flags: SchedFlags)
    ensures
        match policy {
            SchedPolicy::FIFO(p) => attr_of(policy, flags).sched_priority as i32 == p,
            SchedPolicy::RR(p) => attr_of(policy, flags).sched_priority as i32 == p,
            _ => attr_of(policy, flags).sched_priority == 0,
        },
        match policy {
            SchedPolicy::OTHER { nice } => attr_of(policy, flags).sched_nice == nice,
            SchedPolicy::BATCH { nice } => attr_of(policy, flags).sched_nice == nice,
            _ => attr_of(policy, flags).sched_nice == 0,
        },
        match policy {
            SchedPolicy::DEADLINE { runtime_ms, deadline_ms, period_ms } => deadline_fits(policy) ==> (
            attr_of(policy, flags).sched_runtime == runtime_ms * 1000000
                && attr_of(policy, flags).sched_deadline == deadline_ms * 1000000
                && attr_of(policy, flags).sched_period == period_ms * 1000000),
            _ => attr_of(policy, flags).sched_runtime == 0 && attr_of(policy, flags).sched_deadline
                == 0 && attr_of(policy, flags).sched_period == 0,
        },
        attr_of(policy, flags).sched_policy as i32 == match policy {
            SchedPolicy::OTHER { .. } => 0i32,
            SchedPolicy::FIFO(_) => 1i32,
            SchedPolicy::RR(_) => 2i32,
            SchedPolicy::BATCH { .. } => 3i32,
            SchedPolicy::IDLE => 5i32,
            SchedPolicy::DEADLINE { .. } => 6i32,
        },
{
    match policy {
        SchedPolicy::FIFO(prio) => {
            assert((prio as u32) as i32 == prio) by (bit_vector);
        },
        SchedPolicy::RR(prio) => {
            assert((prio as u32) as i32 == prio) by (bit_vector);
        },
        _ => {},
    }
}

} // verus!
