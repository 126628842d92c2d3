//! Intel P-states: the performance range of the CPUs, in percent, and turbo.
use vstd::prelude::*;

use crate::common::{Error, FileWrite};
use crate::cpu_control::{flag_of, parse_flag};
use crate::text::{decimal, decimal_string, parse_trimmed, parse_unsigned, to_owned_string, trim};

verus! {

pub struct PState {
    max_performance: u32,
    min_performance: u32,
    no_turbo: bool,
}

pub const MIN_PERF_FILE: &'static str = "/sys/devices/system/cpu/intel_pstate/min_perf_pct";

pub const MAX_PERF_FILE: &'static str = "/sys/devices/system/cpu/intel_pstate/max_perf_pct";

pub const NO_TURBO_FILE: &'static str = "/sys/devices/system/cpu/intel_pstate/no_turbo";

pub const STATUS_FILE: &'static str = "/sys/devices/system/cpu/intel_pstate/status";

impl PState {
    pub closed spec fn spec_max_performance(&self) -> u32 {
        self.max_performance
    }

    pub closed spec fn spec_min_performance(&self) -> u32 {
        self.min_performance
    }

    pub closed spec fn spec_no_turbo(&self) -> bool {
        self.no_turbo
    }

    /// Full performance, without turbo
    pub fn fix_performance() -> (p: Self)
        ensures
            p.spec_min_performance() == 100,
            p.spec_max_performance() == 100,
            p.spec_no_turbo(),
    {
        Self { min_performance: 100, max_performance: 100, no_turbo: true }
    }

    pub fn max_performance(&self) -> (v: u32)
        ensures
            v == self.spec_max_performance(),
    {
        self.max_performance
    }

    pub fn min_performance(&self) -> (v: u32)
        ensures
            v == self.spec_min_performance(),
    {
        self.min_performance
    }

    pub fn no_turbo(&self) -> (v: bool)
        ensures
            v == self.spec_no_turbo(),
    {
        self.no_turbo
    }
}

/// The percentage that the trimmed text of a file holds.
pub open spec fn percent_of(contents: Seq<char>) -> Result<u32, Error> {
    match parse_unsigned(trim(contents), u32::MAX as nat) {
        Some(n) => Ok(n as u32),
        None => Err(Error::InvalidNumber),
    }
}

fn parse_percent(contents: &str) -> (r: Result<u32, Error>)
    ensures
        r == percent_of(contents@),
{
    match parse_trimmed(contents, u32::MAX as u64) {
        Some(n) => Ok(n as u32),
        None => Err(Error::InvalidNumber),
    }
}

/// The P-state that the texts of the `max_perf_pct`, `min_perf_pct` and `no_turbo`
/// files give, read in that order.
pub open spec fn pstate_of(max_contents: Seq<char>, min_contents: Seq<char>, no_turbo: Seq<char>) -> Result<(u32, u32, bool), Error> {
    match percent_of(max_contents) {
        Err(e) => Err(e),
        Ok(max) => match percent_of(min_contents) {
            Err(e) => Err(e),
            Ok(min) => match flag_of(no_turbo) {
                None => Err(Error::UnexpectedValue),
                Some(b) => Ok((max, min, b)),
            },
        },
    }
}

/// The P-state, from the texts of the `max_perf_pct`, `min_perf_pct` and `no_turbo`
/// files
pub fn get_pstate(max_contents: &str, min_contents: &str, no_turbo_contents: &str) -> (r: Result<
    PState,
    Error,
>)
    ensures
        match pstate_of(max_contents@, min_contents@, no_turbo_contents@) {
            Ok((max, min, b)) => r matches Ok(p) && p.spec_max_performance() == max
                && p.spec_min_performance() == min && p.spec_no_turbo() == b,
            Err(e) => r matches Err(x) && x == e,
        },
{
    let max_performance = parse_percent(max_contents)?;
    let min_performance = parse_percent(min_contents)?;
    let no_turbo = parse_flag(no_turbo_contents)?;
    Ok(PState { max_performance, min_performance, no_turbo })
}

/// The writes that set a P-state: the highest and the lowest performance, then `1` or
/// `0` for no turbo
pub fn set_pstate(pstate: PState) -> (w: Vec<FileWrite>)
    ensures
        w@.len() == 3,
        w@[0].path@ == MAX_PERF_FILE@,
        w@[0].data@ == decimal(pstate.spec_max_performance() as nat),
        w@[1].path@ == MIN_PERF_FILE@,
        w@[1].data@ == decimal(pstate.spec_min_performance() as nat),
        w@[2].path@ == NO_TURBO_FILE@,
        w@[2].data@ == (if pstate.spec_no_turbo() {
            "1"@
        } else {
            "0"@
        }),
{
    let mut w: Vec<FileWrite> = Vec::new();
    w.push(FileWrite { path: to_owned_string(MAX_PERF_FILE), data: decimal_string(pstate.max_performance as u64) });
    w.push(FileWrite { path: to_owned_string(MIN_PERF_FILE), data: decimal_string(pstate.min_performance as u64) });
    let flag = if pstate.no_turbo {
        "1"
    } else {
        "0"
    };
    w.push(FileWrite { path: to_owned_string(NO_TURBO_FILE), data: to_owned_string(flag) });
    w
}

/// Reading back the P-state that the writes of `set_pstate` set gives it.
pub proof fn law_pstate_read_back(max: u32, min: u32, no_turbo: bool)
    ensures
        pstate_of(
            decimal(max as nat),
            decimal(min as nat),
            if no_turbo {
                "1"@
            } else {
                "0"@
            },
        ) == Ok::<(u32, u32, bool), Error>((max, min, no_turbo)),
{
    crate::text::lemma_decimal_trim(max as nat);
    crate::text::lemma_decimal_trim(min as nat);
    crate::text::lemma_parse_decimal(max as nat, u32::MAX as nat);
    crate::text::lemma_parse_decimal(min as nat, u32::MAX as nat);
    reveal_strlit("1");
    reveal_strlit("0");
    crate::text::lemma_trim_unchanged("1"@);
    crate::text::lemma_trim_unchanged("0"@);
}

} // verus!
