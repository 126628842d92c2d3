use nom::branch::alt;
use nom::bytes::complete::tag;
use nom::character::complete::{digit1, multispace0};
use nom::combinator::map_res;
use nom::multi::separated_list1;
use nom::Parser;
use rt_utils::cpuset::{CpuSet, CpuSetBuildError, CpuSetUnchecked};

fn cpus(set: &CpuSetUnchecked) -> Vec<u32> {
    set.iter().copied().collect()
}

fn checked(set: &CpuSet) -> Vec<u32> {
    set.iter().copied().collect()
}

fn parse(s: &str) -> Result<Vec<u32>, String> {
    CpuSetUnchecked::from_str(s).map(|set| cpus(&set))
}

/// The CPU list grammar written with nom's combinators, as a second opinion.
fn nom_cpu_list(s: &str) -> Result<Vec<u32>, String> {
    let single = || map_res(digit1::<&str, ()>, |s: &str| s.parse::<u32>());
    let single_pair = nom::combinator::map(single(), |cpu| (cpu, cpu));
    let range = map_res((single(), tag("-"), single()), |(min, _, max)| {
        if min > max {
            Err(format!("Range error"))
        } else {
            Ok((min, max))
        }
    });
    let separator = nom::combinator::map((tag(","), multispace0), |_| ());
    let mut parser = nom::combinator::map(separated_list1(separator, alt((range, single_pair))), |pairs: Vec<(u32, u32)>| {
        let mut out: Vec<u32> = Vec::new();
        for pair in pairs.into_iter() {
            for cpu in pair.0..=pair.1 {
                out.push(cpu);
            }
        }
        out
    });
    // The CPUs form a set: each one is kept where it first occurs.
    let distinct = |cpus: Vec<u32>| {
        let mut out: Vec<u32> = Vec::new();
        for cpu in cpus {
            if !out.contains(&cpu) {
                out.push(cpu);
            }
        }
        out
    };
    parser.parse(s).map(|(_, cpus)| distinct(cpus)).map_err(|err| format!("{err}"))
}

#[test]
fn parse_ranges_and_singles() {
    assert_eq!(parse("0-3,6, 8-9"), Ok(vec![0, 1, 2, 3, 6, 8, 9]));
    assert_eq!(parse("5"), Ok(vec![5]));
    assert_eq!(parse("2-2"), Ok(vec![2]));
}

#[test]
fn parse_ignores_what_follows_the_list() {
    assert_eq!(parse("0-3\n"), Ok(vec![0, 1, 2, 3]));
    assert_eq!(parse("0-3,abc"), Ok(vec![0, 1, 2, 3]));
    assert_eq!(parse("1,2,"), Ok(vec![1, 2]));
    assert_eq!(parse("1 2"), Ok(vec![1]));
}

#[test]
fn parse_whitespace_after_commas() {
    assert_eq!(parse("1,\n\t 2,\r\n3"), Ok(vec![1, 2, 3]));
}

#[test]
fn parse_descending_range_is_a_single_cpu() {
    assert_eq!(parse("3-1"), Ok(vec![3]));
    assert_eq!(parse("3-1,4"), Ok(vec![3]));
}

#[test]
fn parse_names_each_cpu_once() {
    assert_eq!(parse("0-2,1"), Ok(vec![0, 1, 2]));
    assert_eq!(parse("3,0-4"), Ok(vec![3, 0, 1, 2, 4]));
    let set = CpuSetUnchecked::from_str("0,0-1").unwrap();
    assert!(set.has_cpu(0) && set.has_cpu(1));
    assert_eq!(set.num_cpus(), 2);
}

#[test]
fn parse_errors() {
    let message = String::from("Parsing Error: ()");
    assert_eq!(parse(""), Err(message.clone()));
    assert_eq!(parse("abc"), Err(message.clone()));
    assert_eq!(parse(" 1"), Err(message.clone()));
    assert_eq!(parse("-1"), Err(message.clone()));
    assert_eq!(parse("4294967296"), Err(message.clone()));
}

#[test]
fn parse_largest_cpu_number() {
    assert_eq!(parse("4294967295"), Ok(vec![4294967295]));
    assert_eq!(parse("4294967294-4294967295"), Ok(vec![4294967294, 4294967295]));
    assert_eq!(parse("1-4294967296"), Ok(vec![1]));
}

#[test]
fn parse_agrees_with_nom_grammar() {
    let cases = [
        "", "0", "0-3", "0-3,6, 8-9", "3-1", "3-1,4", "1,2,", "1, ,2", "1,\n2", "1-", "-1", "1--2",
        "12a", "a12", "0-3,abc", "7,3-5 9", "4294967295", "4294967296", "1-4294967296", " 1",
        "1 ,2", "1,\t\t3-4,\r\n5", "00-02", "+1", "1,+2", "9-10,10-9", "0,0-1", "2-4,3,1-2",
    ];
    for case in cases {
        assert_eq!(parse(case), nom_cpu_list(case), "on {case:?}");
    }
}

#[test]
fn add_and_remove_cpus() {
    let set = CpuSetUnchecked::empty().add_cpu(3).add_cpu(1).add_cpu(3).add_cpu(7);
    assert_eq!(cpus(&set), vec![3, 1, 7]);
    assert!(set.has_cpu(1));
    assert!(!set.has_cpu(2));
    assert_eq!(set.num_cpus(), 3);
    let set = set.remove_cpu(3);
    assert_eq!(cpus(&set), vec![7, 1]);
    let set = set.remove_cpu(42);
    assert_eq!(cpus(&set), vec![7, 1]);
    let set = set.remove_cpu(1).remove_cpu(7);
    assert_eq!(set.num_cpus(), 0);
}

#[test]
fn remove_after_add_gives_back_the_set() {
    let set = CpuSetUnchecked::from_str("4,2,9").unwrap();
    let again = set.clone().add_cpu(5).remove_cpu(5);
    assert_eq!(again, set);
}

#[test]
fn remove_takes_the_first_occurrence() {
    let mut set = CpuSetUnchecked::from_str("1,2,5,3").unwrap();
    set.iter_mut()[2] = 1;
    assert_eq!(cpus(&set), vec![1, 2, 1, 3]);
    assert_eq!(cpus(&set.remove_cpu(1)), vec![3, 2, 1]);
}

#[test]
fn iter_mut_changes_the_set() {
    let mut set = CpuSetUnchecked::from_str("1-3").unwrap();
    for cpu in set.iter_mut() {
        *cpu += 10;
    }
    assert_eq!(cpus(&set), vec![11, 12, 13]);
    assert_eq!(set.into_iter().collect::<Vec<_>>(), vec![11, 12, 13]);
}

#[test]
fn display_as_list() {
    assert_eq!(CpuSetUnchecked::from_str("0-2,7").unwrap().to_string(), "[0, 1, 2, 7]");
    assert_eq!(CpuSetUnchecked::empty().to_string(), "[]");
    assert_eq!(CpuSet::all("12").unwrap().to_string(), "[12]");
}

#[test]
fn all_cpus_from_online_file() {
    let all = CpuSet::all("0-3\n").unwrap();
    assert_eq!(checked(&all), vec![0, 1, 2, 3]);
    match CpuSet::all("x") {
        Err(CpuSetBuildError::ParseError(m)) => assert_eq!(m, "Parsing Error: ()"),
        other => panic!("unexpected {other:?}"),
    }
}

#[test]
fn single_cpu() {
    let all = CpuSet::all("0-3").unwrap();
    assert_eq!(checked(&CpuSet::single(2, &all).unwrap()), vec![2]);
    match CpuSet::single(4, &all) {
        Err(CpuSetBuildError::UnavailableCPU(4)) => {},
        other => panic!("unexpected {other:?}"),
    }
}

#[test]
fn any_subset_takes_the_first_cpus() {
    let all = CpuSet::all("2,4,6,8").unwrap();
    assert_eq!(checked(&CpuSet::any_subset(3, &all).unwrap()), vec![2, 4, 6]);
    assert_eq!(checked(&CpuSet::any_subset(0, &all).unwrap()), Vec::<u32>::new());
    assert_eq!(checked(&CpuSet::any_subset(4, &all).unwrap()), vec![2, 4, 6, 8]);
    assert!(matches!(CpuSet::any_subset(5, &all), Err(CpuSetBuildError::UnavailableCPUs)));
}

#[test]
fn checked_sets() {
    let all = CpuSet::all("0-3").unwrap();
    let set = CpuSetUnchecked::from_str("3,1").unwrap().try_into_cpuset(&all).unwrap();
    assert_eq!(checked(&set), vec![3, 1]);
    assert!(set.has_cpu(3) && !set.has_cpu(0));
    assert_eq!(set.num_cpus(), 2);
    match CpuSetUnchecked::from_str("1,7,9").unwrap().try_into_cpuset(&all) {
        Err(CpuSetBuildError::UnavailableCPU(7)) => {},
        other => panic!("unexpected {other:?}"),
    }
    assert_eq!(CpuSet::empty().num_cpus(), 0);
}

#[test]
fn affinity_mask_round_trip() {
    let all = CpuSet::all("0-15").unwrap();
    let set = CpuSetUnchecked::from_str("9,2,5,2").unwrap().try_into_cpuset(&all).unwrap();
    let mask = set.to_nix().unwrap();
    assert!(mask.is_set(9).unwrap() && mask.is_set(2).unwrap() && !mask.is_set(3).unwrap());
    let back = CpuSet::from_nix(&mask, &all).unwrap();
    assert_eq!(checked(&back), vec![2, 5, 9]);
}

#[test]
fn affinity_mask_limits() {
    let all = CpuSet::all("0-2000").unwrap();
    let set = CpuSetUnchecked::from_str("1,1023").unwrap().try_into_cpuset(&all).unwrap();
    assert!(set.to_nix().is_ok());
    let set = CpuSetUnchecked::from_str("1,1024,2000").unwrap().try_into_cpuset(&all).unwrap();
    assert_eq!(set.to_nix().unwrap_err(), 1024);
}

#[test]
fn affinity_mask_against_machine() {
    let all = CpuSet::all("0-3").unwrap();
    let mut mask = nix::sched::CpuSet::new();
    mask.set(1).unwrap();
    mask.set(6).unwrap();
    match CpuSet::from_nix(&mask, &all) {
        Err(CpuSetBuildError::UnavailableCPU(6)) => {},
        other => panic!("unexpected {other:?}"),
    }
}
