use rt_utils::cgroup::hcbs::multi::{
    get_cgroup_period_us_multi, get_cgroup_runtime_us_multi, packed_to_string, parse_times_on_set,
    set_cgroup_period_us_multi, set_cgroup_period_us_multi_str, set_cgroup_runtime_us_multi,
    set_cgroup_runtime_us_multi_str,
};
use rt_utils::cgroup::hcbs::uni::{get_cgroup_us, set_cgroup_us, Either, Max};
use rt_utils::cgroup::{
    delete_cgroup, is_root_cgroup, DeleteAction, assign_pid_to_cgroup, cgroup_abs_path, cgroup_num_procs, cgroup_pids, cgroup_procs_path,
    cgroup_v1, cgroup_v2, get_pid_cgroup, get_system_rt_period_us, get_system_rt_runtime_us,
    is_pid_in_cgroup, mount_cgroup_fs, pid_cgroup_path, set_system_rt_period_us,
    set_system_rt_runtime_us,
};
use rt_utils::common::{Error, MountAction, ShellOutput};
use rt_utils::debugfs::mount_debug_fs;

#[test]
fn cgroup_paths() {
    assert_eq!(cgroup_abs_path("rt/a"), "/sys/fs/cgroup/rt/a");
    assert_eq!(cgroup_v2::cgroup_abs_path("x"), "/sys/fs/cgroup/x");
    assert_eq!(cgroup_v1::cgroup_abs_path("x"), "/sys/fs/cgroup/cpu/x");
    assert_eq!(cgroup_v1::cpu_controller_dir(), "/sys/fs/cgroup/cpu");
    assert_eq!(cgroup_procs_path("g"), "/sys/fs/cgroup/g/cgroup.procs");
    assert_eq!(pid_cgroup_path(123), "/proc/123/cgroup");
    assert_eq!(cgroup_v2::subtree_control_path("."), "/sys/fs/cgroup/./cgroup.subtree_control");
}

#[test]
fn process_lists() {
    assert_eq!(cgroup_num_procs(""), 0);
    assert_eq!(cgroup_num_procs("12\n34\n"), 2);
    assert_eq!(cgroup_num_procs("12\n34"), 2);
    assert_eq!(cgroup_num_procs("\n\n"), 2);
    assert_eq!(cgroup_pids("12\n34\n").unwrap(), vec![12, 34]);
    assert_eq!(cgroup_pids("12\r\n+34\n").unwrap(), vec![12, 34]);
    assert_eq!(cgroup_pids("").unwrap(), Vec::<u32>::new());
    assert_eq!(cgroup_pids("12\nabc\n"), Err(Error::InvalidNumber));
    assert_eq!(cgroup_pids("12\n\n3"), Err(Error::InvalidNumber));
    assert_eq!(cgroup_pids(" 12"), Err(Error::InvalidNumber));
    assert_eq!(cgroup_pids("4294967296"), Err(Error::InvalidNumber));
}

#[test]
fn pid_membership() {
    assert!(is_pid_in_cgroup("1\n22\n333\n", 22));
    assert!(!is_pid_in_cgroup("1\n22\n333\n", 2));
    assert!(!is_pid_in_cgroup("+22\n", 22));
    assert!(is_pid_in_cgroup("22\r\n", 22));
    assert!(!is_pid_in_cgroup("", 0));
}

#[test]
fn process_list_consistency() {
    let procs = "501\n7\n+9\n";
    let pids = cgroup_pids(procs).unwrap();
    assert_eq!(pids.len(), cgroup_num_procs(procs));
    assert!(is_pid_in_cgroup(procs, 7) && pids.contains(&7));
    assert!(!is_pid_in_cgroup(procs, 9) && pids.contains(&9));
}

#[test]
fn assign_pid() {
    let w = assign_pid_to_cgroup("rt", 4321);
    assert_eq!(w.path, "/sys/fs/cgroup/rt/cgroup.procs");
    assert_eq!(w.data, "4321");
}

#[test]
fn cgroup_of_a_process() {
    assert_eq!(get_pid_cgroup("0::/user.slice/session\n").unwrap(), "user.slice/session");
    assert_eq!(get_pid_cgroup("0::/\n").unwrap(), ".");
    assert_eq!(get_pid_cgroup("  0::/a  ").unwrap(), "a");
    assert_eq!(get_pid_cgroup("1:cpu:/a"), Err(Error::InvalidFormat));
    assert_eq!(get_pid_cgroup("0::"), Err(Error::InvalidFormat));
    assert_eq!(get_pid_cgroup(""), Err(Error::InvalidFormat));
}

#[test]
fn system_real_time_limits() {
    assert_eq!(get_system_rt_period_us("1000000\n"), Ok(1000000));
    assert_eq!(get_system_rt_runtime_us(" 950000 "), Ok(950000));
    assert_eq!(get_system_rt_runtime_us("-1\n"), Err(Error::InvalidNumber));
    assert_eq!(get_system_rt_period_us("+7"), Ok(7));
    assert_eq!(get_system_rt_period_us("18446744073709551616"), Err(Error::InvalidNumber));
    assert_eq!(get_system_rt_period_us("18446744073709551615"), Ok(u64::MAX));
    let w = set_system_rt_period_us(1000000);
    assert_eq!(w.path, "/proc/sys/kernel/sched_rt_period_us");
    assert_eq!(w.data, "1000000");
    let w = set_system_rt_runtime_us(0);
    assert_eq!(w.path, "/proc/sys/kernel/sched_rt_runtime_us");
    assert_eq!(w.data, "0");
    for v in [0u64, 9, 10, 950000, u64::MAX] {
        assert_eq!(get_system_rt_period_us(&set_system_rt_period_us(v).data), Ok(v));
    }
}

#[test]
fn bandwidth_text() {
    let w = set_cgroup_us("srv", Either::Left(5000), 10000);
    assert_eq!(w.path, "/sys/fs/cgroup/srv/cpu.rt.max");
    assert_eq!(w.data, "5000 10000");
    let w = set_cgroup_us("srv", Either::Right(Max), 100);
    assert_eq!(w.data, "max 100");
    assert_eq!(Max.to_string(), "max");
}

#[test]
fn bandwidth_read() {
    assert!(matches!(get_cgroup_us("5000 10000\n"), Ok((Either::Left(5000), 10000))));
    assert!(matches!(get_cgroup_us("max\t100"), Ok((Either::Right(Max), 100))));
    assert_eq!(get_cgroup_us("max").unwrap_err(), Error::InvalidFormat);
    assert_eq!(get_cgroup_us("1 2 3").unwrap_err(), Error::InvalidFormat);
    assert_eq!(get_cgroup_us("maximum 3").unwrap_err(), Error::InvalidNumber);
    assert_eq!(get_cgroup_us("1 max").unwrap_err(), Error::InvalidNumber);
}

#[test]
fn bandwidth_read_back() {
    for runtime in [Either::Left(0u64), Either::Left(950), Either::Left(u64::MAX), Either::Right(Max)] {
        for period in [0u64, 1, 1000000] {
            let w = set_cgroup_us("g", runtime, period);
            let (r, p) = get_cgroup_us(&w.data).unwrap();
            assert_eq!(p, period);
            match (r, runtime) {
                (Either::Left(a), Either::Left(b)) => assert_eq!(a, b),
                (Either::Right(Max), Either::Right(Max)) => {},
                _ => panic!("runtime changed"),
            }
        }
    }
}

#[test]
fn per_cpu_times_grouped() {
    let groups = get_cgroup_runtime_us_multi("500 0 500 200 0\n").unwrap();
    assert_eq!(groups, vec![(200, vec![3]), (500, vec![0, 2])]);
    assert_eq!(get_cgroup_period_us_multi("0 0").unwrap(), vec![]);
    assert_eq!(get_cgroup_period_us_multi("").unwrap(), vec![]);
    assert_eq!(get_cgroup_period_us_multi("7 7 7").unwrap(), vec![(7, vec![0, 1, 2])]);
    assert_eq!(get_cgroup_period_us_multi("1 x"), Err(Error::InvalidNumber));
}

#[test]
fn per_cpu_times_text() {
    assert_eq!(packed_to_string(&vec![(1000, vec![0, 1]), (2000, vec![3])]), "1000 0,1 2000 3");
    assert_eq!(packed_to_string(&vec![(1000, vec![])]), "1000");
    assert_eq!(packed_to_string(&vec![]), "");
    let w = set_cgroup_runtime_us_multi("srv", &vec![(5, vec![2, 4])]);
    assert_eq!(w.path, "/sys/fs/cgroup/srv/cpu.rt_runtime_us");
    assert_eq!(w.data, "5 2,4");
    let w = set_cgroup_period_us_multi("srv", &vec![(10, vec![1]), (20, vec![])]);
    assert_eq!(w.path, "/sys/fs/cgroup/srv/cpu.rt_period_us");
    assert_eq!(w.data, "10 1 20");
}

#[test]
fn per_cpu_times_text_round_trip() {
    let times = vec![(1000, vec![3, 0, 7]), (2000, vec![1]), (1000, vec![12, 13])];
    let text = packed_to_string(&times);
    let direct = set_cgroup_runtime_us_multi("srv", &times);
    let from_text = set_cgroup_runtime_us_multi_str("srv", &text).unwrap();
    assert_eq!(from_text, direct);
    assert_eq!(parse_times_on_set(&text).unwrap(), times);
    assert_eq!(from_text.data, "1000 3,0,7 2000 1 1000 12,13");
    let w = set_cgroup_runtime_us_multi_str("srv", "1000 12,12,11-13").unwrap();
    assert_eq!(w.data, "1000 12,11,13");
}

#[test]
fn per_cpu_times_from_text() {
    let w = set_cgroup_runtime_us_multi_str("srv", "1000 0-2 2000 4,6").unwrap();
    assert_eq!(w.path, "/sys/fs/cgroup/srv/cpu.rt_runtime_us");
    assert_eq!(w.data, "1000 0,1,2 2000 4,6");
    let w = set_cgroup_period_us_multi_str("srv", "10\t\t3-1 20 x").unwrap();
    assert_eq!(w.path, "/sys/fs/cgroup/srv/cpu.rt_period_us");
    assert_eq!(w.data, "10 3");
    assert_eq!(set_cgroup_period_us_multi_str("srv", "10").unwrap_err(), Error::InvalidFormat);
    assert_eq!(set_cgroup_period_us_multi_str("srv", "x 1").unwrap_err(), Error::InvalidFormat);
    assert_eq!(set_cgroup_period_us_multi_str("srv", "10 ,1").unwrap_err(), Error::InvalidFormat);
    assert_eq!(set_cgroup_period_us_multi_str("srv", "").unwrap_err(), Error::InvalidFormat);
}

#[test]
fn controllers() {
    assert!(cgroup_v2::cpu_controller_enabled("cpuset cpu io\n"));
    assert!(cgroup_v2::cpu_controller_enabled("cpuset"));
    assert!(!cgroup_v2::cpu_controller_enabled("memory io\n"));
    assert!(!cgroup_v2::cpu_controller_enabled(""));
    let w = cgroup_v2::enable_cpu_controller("");
    assert_eq!(w.path, "/sys/fs/cgroup//cgroup.subtree_control");
    assert_eq!(w.data, "+cpu");
    assert_eq!(cgroup_v2::cpu_controller_ancestors("a/b/c"), vec![String::new()]);
    assert_eq!(cgroup_v2::cpu_controller_ancestors(""), vec![String::new()]);
    assert_eq!(cgroup_v2::cpu_controller_ancestors("/a/b"), Vec::<String>::new());
}

fn run_mount(mut m: rt_utils::common::ShellMount, outputs: &[ShellOutput]) -> (Vec<String>, String) {
    let mut commands = Vec::new();
    let mut action = m.start();
    let mut i = 0;
    loop {
        match action {
            MountAction::Run(c) => {
                commands.push(c);
                action = m.on_output(outputs[i]);
                i += 1;
            },
            MountAction::AlreadyMounted => return (commands, "already".to_string()),
            MountAction::Mounted => return (commands, "mounted".to_string()),
            MountAction::Failed => return (commands, "failed".to_string()),
        }
    }
}

#[test]
fn mount_procedures() {
    let yes = ShellOutput { stdout_len: 10, success: true };
    let no = ShellOutput { stdout_len: 0, success: true };
    let fail = ShellOutput { stdout_len: 0, success: false };
    assert_eq!(run_mount(mount_cgroup_fs(), &[yes]), (vec!["mount | grep cgroup2".to_string()], "already".to_string()));
    assert_eq!(
        run_mount(mount_cgroup_fs(), &[no, no]),
        (vec!["mount | grep cgroup2".to_string(), "mount -t cgroup2 none /sys/fs/cgroup".to_string()], "mounted".to_string())
    );
    assert_eq!(
        run_mount(mount_debug_fs(), &[no, fail]),
        (vec!["mount | grep debugfs".to_string(), "mount -t debugfs none /sys/kernel/debug".to_string()], "failed".to_string())
    );
}

#[test]
fn root_cgroup_name() {
    assert!(is_root_cgroup("."));
    assert!(!is_root_cgroup("./a"));
    assert!(!is_root_cgroup(""));
}

#[test]
fn delete_procedures() {
    let mut p = delete_cgroup(".");
    assert_eq!(p.start(), DeleteAction::Root);

    let mut p = delete_cgroup("rt");
    assert_eq!(p.start(), DeleteAction::CheckExists);
    assert_eq!(p.on_exists(false), DeleteAction::Missing);

    let mut p = delete_cgroup("rt");
    assert_eq!(p.start(), DeleteAction::CheckExists);
    assert_eq!(p.on_exists(true), DeleteAction::CountProcs);
    assert_eq!(p.on_procs(0), DeleteAction::CountProcs);
    assert_eq!(p.on_procs(0), DeleteAction::Remove);

    let mut p = delete_cgroup("rt");
    p.start();
    p.on_exists(true);
    assert_eq!(p.on_procs(2), DeleteAction::WaitThenCount(100));
    assert_eq!(p.on_procs(0), DeleteAction::Remove);

    let mut p = delete_cgroup("rt");
    p.start();
    p.on_exists(true);
    assert_eq!(p.on_procs(2), DeleteAction::WaitThenCount(100));
    assert_eq!(p.on_procs(1), DeleteAction::Busy);
}
