use rt_utils::common::Error;
use rt_utils::cpu_control::intel::{get_pstate, set_pstate, PState};
use rt_utils::cpu_control::{
    disable_hyperthreading, enable_hyperthreading, get_cpu_frequency, get_cpu_frequency_governor,
    get_cpu_idle_state, hyperthreading_enabled, set_cpu_frequency_governor, set_cpu_idle_state,
    CpuFrequencyData, CpuFrequencyGovernorData, CpuIdleStates,
};
use rt_utils::time::Clock;

#[test]
fn hyperthreading() {
    assert!(hyperthreading_enabled("on\n"));
    assert!(!hyperthreading_enabled("off\n"));
    assert!(!hyperthreading_enabled("forceoff"));
    assert!(hyperthreading_enabled("\u{A0}on\u{3000}"));
    let w = disable_hyperthreading();
    assert_eq!((w.path.as_str(), w.data.as_str()), ("/sys/devices/system/cpu/smt/control", "off"));
    let w = enable_hyperthreading();
    assert_eq!((w.path.as_str(), w.data.as_str()), ("/sys/devices/system/cpu/smt/control", "on"));
}

#[test]
fn frequency_files() {
    assert_eq!(CpuFrequencyData::min_frequency_file(3), "/sys/devices/system/cpu/cpu3/cpufreq/cpuinfo_min_freq");
    assert_eq!(CpuFrequencyData::max_frequency_file(12), "/sys/devices/system/cpu/cpu12/cpufreq/cpuinfo_max_freq");
    assert_eq!(CpuFrequencyGovernorData::governor_file(0), "/sys/devices/system/cpu/cpu0/cpufreq/scaling_governor");
    assert_eq!(CpuFrequencyGovernorData::min_frequency_file(1), "/sys/devices/system/cpu/cpu1/cpufreq/scaling_min_freq");
    assert_eq!(CpuFrequencyGovernorData::max_frequency_file(1), "/sys/devices/system/cpu/cpu1/cpufreq/scaling_max_freq");
    assert_eq!(CpuIdleStates::get_cpu_state_file(2, 5), "/sys/devices/system/cpu/cpu2/cpuidle/state5/disable");
}

#[test]
fn frequencies() {
    let d = get_cpu_frequency("800000\n", "3600000\n").unwrap();
    assert_eq!((d.min_frequency_mhz, d.max_frequency_mhz), (800000, 3600000));
    assert_eq!(get_cpu_frequency("x", "1").err(), Some(Error::InvalidNumber));
    assert_eq!(get_cpu_frequency("1", "").err(), Some(Error::InvalidNumber));
}

#[test]
fn governors() {
    let d = CpuFrequencyGovernorData::fixed_frequency(2000);
    assert_eq!((d.governor.as_str(), d.min_frequency_mhz, d.max_frequency_mhz), ("performance", 2000, 2000));
    let w = set_cpu_frequency_governor(4, d);
    assert_eq!(w.len(), 3);
    assert_eq!(w[0].path, "/sys/devices/system/cpu/cpu4/cpufreq/scaling_governor");
    assert_eq!(w[0].data, "performance");
    assert_eq!(w[1].path, "/sys/devices/system/cpu/cpu4/cpufreq/scaling_min_freq");
    assert_eq!(w[1].data, "2000");
    assert_eq!(w[2].path, "/sys/devices/system/cpu/cpu4/cpufreq/scaling_max_freq");
    assert_eq!(w[2].data, "2000");
    let back = get_cpu_frequency_governor(&w[0].data, &w[1].data, &w[2].data).unwrap();
    assert_eq!((back.governor.as_str(), back.min_frequency_mhz, back.max_frequency_mhz), ("performance", 2000, 2000));
    let g = get_cpu_frequency_governor(" powersave\n", "1", "2").unwrap();
    assert_eq!(g.governor, "powersave");
    assert_eq!(get_cpu_frequency_governor("x", "1", "-2").err(), Some(Error::InvalidNumber));
}

#[test]
fn number_of_idle_states() {
    let names = |v: &[&str]| v.iter().map(|s| s.to_string()).collect::<Vec<_>>();
    assert_eq!(CpuIdleStates::get_cpu_num_states(&names(&["state0", "state3", "driver", "state1"])), Ok(4));
    assert_eq!(CpuIdleStates::get_cpu_num_states(&names(&[])), Ok(1));
    assert_eq!(CpuIdleStates::get_cpu_num_states(&names(&["governor"])), Ok(1));
    assert_eq!(CpuIdleStates::get_cpu_num_states(&names(&["state0", "statex"])), Err(Error::InvalidNumber));
    assert_eq!(CpuIdleStates::get_cpu_num_states(&names(&["state"])), Err(Error::InvalidNumber));
    assert_eq!(CpuIdleStates::get_cpu_num_states(&names(&["stat2"])), Ok(1));
}

#[test]
fn idle_states() {
    let d = CpuIdleStates::disabled_for_cpu(3);
    assert_eq!(d.states(), &vec![false, false, false]);
    let texts = vec!["1\n".to_string(), "0\n".to_string(), " 1".to_string()];
    let s = get_cpu_idle_state(&texts).unwrap();
    assert_eq!(s.states(), &vec![true, false, true]);
    assert_eq!(get_cpu_idle_state(&vec!["2".to_string()]).err(), Some(Error::UnexpectedValue));
    let w = set_cpu_idle_state(7, s, 3).unwrap();
    assert_eq!(w.len(), 3);
    assert_eq!(w[0].path, "/sys/devices/system/cpu/cpu7/cpuidle/state0/disable");
    assert_eq!(w[0].data, "1");
    assert_eq!(w[1].data, "0");
    assert_eq!(w[2].path, "/sys/devices/system/cpu/cpu7/cpuidle/state2/disable");
    let back = get_cpu_idle_state(&w.iter().map(|x| x.data.clone()).collect()).unwrap();
    assert_eq!(back.states(), &vec![true, false, true]);
    assert_eq!(set_cpu_idle_state(7, CpuIdleStates::disabled_for_cpu(2), 3).err(), Some(Error::IncorrectStateCount));
}

#[test]
fn pstates() {
    let p = PState::fix_performance();
    assert_eq!((p.min_performance(), p.max_performance(), p.no_turbo()), (100, 100, true));
    let w = set_pstate(p);
    assert_eq!(w[0].path, "/sys/devices/system/cpu/intel_pstate/max_perf_pct");
    assert_eq!(w[0].data, "100");
    assert_eq!(w[1].path, "/sys/devices/system/cpu/intel_pstate/min_perf_pct");
    assert_eq!(w[2].path, "/sys/devices/system/cpu/intel_pstate/no_turbo");
    assert_eq!(w[2].data, "1");
    let back = get_pstate(&w[0].data, &w[1].data, &w[2].data).unwrap();
    assert_eq!((back.max_performance(), back.min_performance(), back.no_turbo()), (100, 100, true));
    let q = get_pstate("80\n", "20\n", "0\n").unwrap();
    assert_eq!((q.max_performance(), q.min_performance(), q.no_turbo()), (80, 20, false));
    assert_eq!(get_pstate("x", "20", "0").err(), Some(Error::InvalidNumber));
    assert_eq!(get_pstate("80", "20", "yes").err(), Some(Error::UnexpectedValue));
}

#[test]
fn clocks() {
    assert_eq!(Clock::Monotonic.clock_id(), 1);
    assert_eq!(Clock::Realtime.clock_id(), 0);
}
