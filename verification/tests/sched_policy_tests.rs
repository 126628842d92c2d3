use rt_utils::sched_policy::{
    get_sched_policy, set_sched_policy_attr, GetSchedPolicyError, SchedAttr, SchedData, SchedFlags,
    SchedPolicy, SetSchedError, SetSchedPolicyError, SCHED_BATCH, SCHED_DEADLINE, SCHED_FIFO,
    SCHED_IDLE, SCHED_OTHER, SCHED_RR,
};

fn attr(policy: i32, flags: u64) -> SchedAttr {
    let mut a = SchedAttr::zeroed();
    a.sched_policy = policy as u32;
    a.sched_flags = flags;
    a
}

#[test]
fn policy_builders_and_kinds() {
    assert_eq!(SchedPolicy::other(), SchedPolicy::OTHER { nice: 0 });
    assert!(SchedPolicy::other().is_other());
    assert!(SchedPolicy::FIFO(10).is_fifo_rr());
    assert!(SchedPolicy::RR(10).is_fifo_rr());
    assert!(!SchedPolicy::IDLE.is_fifo_rr());
    let d = SchedPolicy::DEADLINE { runtime_ms: 1, deadline_ms: 2, period_ms: 3 };
    assert!(d.is_deadline() && !d.is_other());
    assert!(!SchedPolicy::BATCH { nice: 1 }.is_deadline());
}

#[test]
fn flag_operations() {
    let mut f = SchedFlags::empty();
    assert!(f.is_empty());
    f.insert(SchedFlags::reset_on_fork());
    assert!(f.contains(SchedFlags::reset_on_fork()));
    assert!(!f.contains(SchedFlags::reclaim()));
    assert!(f.intersects(SchedFlags::all()));
    f.toggle(SchedFlags::reclaim());
    assert!(f.is_all());
    assert_eq!(f.bits(), 3);
    f.remove(SchedFlags::reset_on_fork());
    assert_eq!(f, SchedFlags::reclaim());
    f.set(SchedFlags::reset_on_fork(), true);
    f.set(SchedFlags::reclaim(), false);
    assert_eq!(f, SchedFlags::reset_on_fork());
    assert_eq!(f.complement(), SchedFlags::reclaim());
    assert_eq!(SchedFlags::reset_on_fork().union(SchedFlags::reclaim()), SchedFlags::all());
    assert_eq!(SchedFlags::all().intersection(SchedFlags::reclaim()), SchedFlags::reclaim());
    assert_eq!(SchedFlags::all().difference(SchedFlags::reclaim()), SchedFlags::reset_on_fork());
    assert_eq!(SchedFlags::all().symmetric_difference(SchedFlags::reclaim()), SchedFlags::reset_on_fork());
}

#[test]
fn flag_operators() {
    let r = SchedFlags::reset_on_fork();
    let c = SchedFlags::reclaim();
    assert_eq!(r | c, SchedFlags::all());
    assert_eq!(SchedFlags::all() & c, c);
    assert_eq!(SchedFlags::all() ^ c, r);
    assert_eq!(SchedFlags::all() - c, r);
    assert_eq!(!r, c);
    assert_eq!(!SchedFlags::all(), SchedFlags::empty());
}

#[test]
fn flags_from_bits() {
    assert_eq!(SchedFlags::from_bits(2), Some(SchedFlags::reclaim()));
    assert_eq!(SchedFlags::from_bits(4), None);
    assert_eq!(SchedFlags::from_bits_truncate(7), SchedFlags::all());
    assert_eq!(SchedFlags::from_bits_retain(7).bits(), 7);
    assert!(!SchedFlags::from_bits_retain(4).is_empty());
    assert!(SchedFlags::from_bits_retain(7).is_all());
}

#[test]
fn policies_read_from_attributes() {
    let mut a = attr(SCHED_OTHER, 0);
    a.sched_nice = -5;
    let d = SchedData::try_from_attr(a).unwrap();
    assert_eq!(d.policy, SchedPolicy::OTHER { nice: -5 });
    assert_eq!(d.flags, SchedFlags::empty());

    let mut a = attr(SCHED_BATCH, 1);
    a.sched_nice = 3;
    let d = SchedData::try_from_attr(a).unwrap();
    assert_eq!(d.policy, SchedPolicy::BATCH { nice: 3 });
    assert_eq!(d.flags, SchedFlags::reset_on_fork());

    assert_eq!(SchedData::try_from_attr(attr(SCHED_IDLE, 0)).unwrap().policy, SchedPolicy::IDLE);

    let mut a = attr(SCHED_FIFO, 2);
    a.sched_priority = 50;
    let d = SchedData::try_from_attr(a).unwrap();
    assert_eq!(d.policy, SchedPolicy::FIFO(50));
    assert_eq!(d.flags, SchedFlags::reclaim());

    let mut a = attr(SCHED_RR, 0xff);
    a.sched_priority = 7;
    let d = SchedData::try_from_attr(a).unwrap();
    assert_eq!(d.policy, SchedPolicy::RR(7));
    assert_eq!(d.flags, SchedFlags::all());

    let mut a = attr(SCHED_DEADLINE, 1);
    a.sched_runtime = 10;
    a.sched_deadline = 20;
    a.sched_period = 30;
    let d = SchedData::try_from_attr(a).unwrap();
    assert_eq!(d.policy, SchedPolicy::DEADLINE { runtime_ms: 10, deadline_ms: 20, period_ms: 30 });
}

#[test]
fn unknown_policy() {
    match SchedData::try_from_attr(attr(4, 0)) {
        Err(GetSchedPolicyError::UnknownPolicy(4)) => {},
        other => panic!("unexpected {other:?}"),
    }
    match get_sched_policy(12, Ok(attr(42, 0))) {
        Err(e) => {
            assert_eq!(e.pid(), 12);
            assert!(matches!(e.error(), GetSchedPolicyError::UnknownPolicy(42)));
        },
        Ok(v) => panic!("unexpected {v:?}"),
    }
}

#[test]
fn syscall_errors() {
    let e = std::io::Error::from_raw_os_error(1);
    match get_sched_policy(3, Err(e)) {
        Err(err) => {
            assert_eq!(err.pid(), 3);
            assert!(matches!(err.error(), GetSchedPolicyError::SyscallError(_)));
        },
        Ok(v) => panic!("unexpected {v:?}"),
    }
    let err = SetSchedError::syscall_failed(9, std::io::Error::from_raw_os_error(3));
    assert_eq!(err.pid(), 9);
    assert!(matches!(err.error(), SetSchedPolicyError::SyscallError(_)));
}

#[test]
fn attributes_of_policies() {
    let a = SchedData { policy: SchedPolicy::FIFO(99), flags: SchedFlags::reclaim() }.try_into_attr().unwrap();
    assert_eq!(a.sched_policy, SCHED_FIFO as u32);
    assert_eq!(a.sched_priority, 99);
    assert_eq!(a.sched_flags, 2);
    assert_eq!(a.sched_nice, 0);
    assert_eq!((a.sched_runtime, a.sched_deadline, a.sched_period), (0, 0, 0));

    let a = SchedData { policy: SchedPolicy::OTHER { nice: -20 }, flags: SchedFlags::all() }.try_into_attr().unwrap();
    assert_eq!(a.sched_policy, SCHED_OTHER as u32);
    assert_eq!(a.sched_nice, -20);
    assert_eq!(a.sched_flags, 3);

    let a = SchedData { policy: SchedPolicy::RR(-1), flags: SchedFlags::from_bits_retain(4) }.try_into_attr().unwrap();
    assert_eq!(a.sched_priority, u32::MAX);
    assert_eq!(a.sched_flags, 0);
}

#[test]
fn deadline_needs_reset_on_fork() {
    let policy = SchedPolicy::DEADLINE { runtime_ms: 2, deadline_ms: 5, period_ms: 10 };
    match (SchedData { policy, flags: SchedFlags::reclaim() }).try_into_attr() {
        Err(SetSchedPolicyError::DeadlineWOResetOnFork) => {},
        other => panic!("unexpected {other:?}"),
    }
    match set_sched_policy_attr(77, policy, SchedFlags::empty()) {
        Err(e) => {
            assert_eq!(e.pid(), 77);
            assert!(matches!(e.error(), SetSchedPolicyError::DeadlineWOResetOnFork));
        },
        Ok(a) => panic!("unexpected {a:?}"),
    }
    let a = set_sched_policy_attr(77, policy, SchedFlags::reset_on_fork()).unwrap();
    assert_eq!(a.sched_policy, SCHED_DEADLINE as u32);
    assert_eq!(a.sched_flags, 1);
    assert_eq!((a.sched_runtime, a.sched_deadline, a.sched_period), (2_000_000, 5_000_000, 10_000_000));
}

#[test]
fn read_back_of_policies() {
    let cases = [
        SchedPolicy::OTHER { nice: 4 },
        SchedPolicy::BATCH { nice: -3 },
        SchedPolicy::IDLE,
        SchedPolicy::FIFO(1),
        SchedPolicy::RR(-7),
    ];
    for policy in cases {
        for bits in 0..4 {
            let flags = SchedFlags::from_bits(bits).unwrap();
            let a = set_sched_policy_attr(1, policy, flags).unwrap();
            assert_eq!(get_sched_policy(1, Ok(a)).unwrap(), (policy, flags));
        }
    }
}

#[test]
fn deadline_reads_back_in_nanoseconds() {
    let policy = SchedPolicy::DEADLINE { runtime_ms: 1, deadline_ms: 2, period_ms: 3 };
    let a = set_sched_policy_attr(1, policy, SchedFlags::reset_on_fork()).unwrap();
    let (back, _) = get_sched_policy(1, Ok(a)).unwrap();
    assert_eq!(back, SchedPolicy::DEADLINE { runtime_ms: 1_000_000, deadline_ms: 2_000_000, period_ms: 3_000_000 });
}
