//! CPU settings of the machine: hyperthreading, frequency limits and governors,
//! and idle states.
use vstd::prelude::*;

use crate::common::{CpuID, Error, FileWrite};
use crate::text::{
    chars_eq, decimal, decimal_string, lines, parse_trimmed, parse_unsigned, parse_unsigned_range,
    push_decimal, push_str, starts_with, str_chars, to_owned_string, trim, trimmed_chars,
    trimmed_is,
};

pub mod intel;

verus! {

pub const SMT_CONTROL_FILE: &'static str = "/sys/devices/system/cpu/smt/control";

/// Whether the text of the SMT control file says that hyperthreading is on: it is `on`
/// once trimmed
pub fn hyperthreading_enabled(contents: &str) -> (b: bool)
    ensures
        b == (trim(contents@) == "on"@),
{
    trimmed_is(contents, "on")
}

/// The write that disables hyperthreading
pub fn disable_hyperthreading() -> (w: FileWrite)
    ensures
        w.path@ == SMT_CONTROL_FILE@,
        w.data@ == "off"@,
{
    FileWrite { path: to_owned_string(SMT_CONTROL_FILE), data: to_owned_string("off") }
}

/// The write that enables hyperthreading
pub fn enable_hyperthreading() -> (w: FileWrite)
    ensures
        w.path@ == SMT_CONTROL_FILE@,
        w.data@ == "on"@,
{
    FileWrite { path: to_owned_string(SMT_CONTROL_FILE), data: to_owned_string("on") }
}

/// The path of a file of the sysfs directory of a CPU.
pub open spec fn cpu_file(cpu: CpuID, file: Seq<char>) -> Seq<char> {
    "/sys/devices/system/cpu/cpu"@ + decimal(cpu as nat) + file
}

fn cpu_file_path(cpu: CpuID, file: &str) -> (p: String)
    ensures
        p@ == cpu_file(cpu, file@),
{
    let mut p = String::new();
    push_str(&mut p, "/sys/devices/system/cpu/cpu");
    push_decimal(&mut p, cpu as u64);
    push_str(&mut p, file);
    p
}

/// The number that the trimmed text of a file holds.
pub fn parse_number(contents: &str) -> (r: Result<u64, Error>)
    ensures
        match parse_unsigned(trim(contents@), u64::MAX as nat) {
            Some(n) => r == Ok::<u64, Error>(n as u64),
            None => r == Err::<u64, Error>(Error::InvalidNumber),
        },
{
    match parse_trimmed(contents, u64::MAX) {
        Some(n) => Ok(n),
        None => Err(Error::InvalidNumber),
    }
}

/// The number that the trimmed text of a file holds, as in `parse_number`.
pub open spec fn number_of(contents: Seq<char>) -> Result<u64, Error> {
    match parse_unsigned(trim(contents), u64::MAX as nat) {
        Some(n) => Ok(n as u64),
        None => Err(Error::InvalidNumber),
    }
}

pub struct CpuFrequencyData {
    pub min_frequency_mhz: u64,
    pub max_frequency_mhz: u64,
}

impl CpuFrequencyData {
    /// The file of the lowest frequency of a CPU.
    pub fn min_frequency_file(cpu: CpuID) -> (p: String)
        ensures
            p@ == cpu_file(cpu, "/cpufreq/cpuinfo_min_freq"@),
    {
        cpu_file_path(cpu, "/cpufreq/cpuinfo_min_freq")
    }

    /// The file of the highest frequency of a CPU.
    pub fn max_frequency_file(cpu: CpuID) -> (p: String)
        ensures
            p@ == cpu_file(cpu, "/cpufreq/cpuinfo_max_freq"@),
    {
        cpu_file_path(cpu, "/cpufreq/cpuinfo_max_freq")
    }
}

/// The frequency limits of a CPU, from the text of its `cpuinfo_min_freq` and
/// `cpuinfo_max_freq` files
pub fn get_cpu_frequency(min_contents: &str, max_contents: &str) -> (r: Result<
    CpuFrequencyData,
    Error,
>)
    ensures
        match (number_of(min_contents@), number_of(max_contents@)) {
            (Ok(min), Ok(max)) => r matches Ok(d) && d.min_frequency_mhz == min
                && d.max_frequency_mhz == max,
            (Err(e), _) => r matches Err(x) && x == e,
            (Ok(_), Err(e)) => r matches Err(x) && x == e,
        },
{
    let min_frequency_mhz = parse_number(min_contents)?;
    let max_frequency_mhz = parse_number(max_contents)?;
    Ok(CpuFrequencyData { min_frequency_mhz, max_frequency_mhz })
}

pub struct CpuFrequencyGovernorData {
    pub governor: String,
    pub min_frequency_mhz: u64,
    pub max_frequency_mhz: u64,
}

impl CpuFrequencyGovernorData {
    /// The `performance` governor at one frequency
    pub fn fixed_frequency(frequency_mhz: u64) -> (d: Self)
        ensures
            d.governor@ == "performance"@,
            d.min_frequency_mhz == frequency_mhz,
            d.max_frequency_mhz == frequency_mhz,
    {
        Self {
            governor: to_owned_string("performance"),
            min_frequency_mhz: frequency_mhz,
            max_frequency_mhz: frequency_mhz,
        }
    }

    /// The file of the frequency governor of a CPU.
    pub fn governor_file(cpu: CpuID) -> (p: String)
        ensures
            p@ == cpu_file(cpu, "/cpufreq/scaling_governor"@),
    {
        cpu_file_path(cpu, "/cpufreq/scaling_governor")
    }

    /// The file of the lowest frequency the governor chooses.
    pub fn min_frequency_file(cpu: CpuID) -> (p: String)
        ensures
            p@ == cpu_file(cpu, "/cpufreq/scaling_min_freq"@),
    {
        cpu_file_path(cpu, "/cpufreq/scaling_min_freq")
    }

    /// The file of the highest frequency the governor chooses.
    pub fn max_frequency_file(cpu: CpuID) -> (p: String)
        ensures
            p@ == cpu_file(cpu, "/cpufreq/scaling_max_freq"@),
    {
        cpu_file_path(cpu, "/cpufreq/scaling_max_freq")
    }
}

/// The frequency governor of a CPU, from the text of its `scaling_governor`,
/// `scaling_min_freq` and `scaling_max_freq` files: the trimmed governor name and the
/// two frequencies
pub fn get_cpu_frequency_governor(governor: &str, min_contents: &str, max_contents: &str) -> (r:
    Result<CpuFrequencyGovernorData, Error>)
    ensures
        match (number_of(min_contents@), number_of(max_contents@)) {
            (Ok(min), Ok(max)) => r matches Ok(d) && d.governor@ == trim(governor@)
                && d.min_frequency_mhz == min && d.max_frequency_mhz == max,
            (Err(e), _) => r matches Err(x) && x == e,
            (Ok(_), Err(e)) => r matches Err(x) && x == e,
        },
{
    let chars = trimmed_chars(governor);
    let governor = crate::text::chars_to_string(&chars, 0, chars.len());
    assert(chars@.subrange(0, chars@.len() as int) =~= chars@);
    let min_frequency_mhz = parse_number(min_contents)?;
    let max_frequency_mhz = parse_number(max_contents)?;
    Ok(CpuFrequencyGovernorData { governor, min_frequency_mhz, max_frequency_mhz })
}

/// The writes that set the frequency governor of a CPU: the governor, then its lowest
/// and its highest frequency
pub fn set_cpu_frequency_governor(cpu: CpuID, data: CpuFrequencyGovernorData) -> (w: Vec<
    FileWrite,
>)
    ensures
        w@.len() == 3,
        w@[0].path@ == cpu_file(cpu, "/cpufreq/scaling_governor"@),
        w@[0].data@ == data.governor@,
        w@[1].path@ == cpu_file(cpu, "/cpufreq/scaling_min_freq"@),
        w@[1].data@ == decimal(data.min_frequency_mhz as nat),
        w@[2].path@ == cpu_file(cpu, "/cpufreq/scaling_max_freq"@),
        w@[2].data@ == decimal(data.max_frequency_mhz as nat),
{
    let mut w: Vec<FileWrite> = Vec::new();
    w.push(FileWrite { path: CpuFrequencyGovernorData::governor_file(cpu), data: data.governor });
    w.push(
        FileWrite {
            path: CpuFrequencyGovernorData::min_frequency_file(cpu),
            data: decimal_string(data.min_frequency_mhz),
        },
    );
    w.push(
        FileWrite {
            path: CpuFrequencyGovernorData::max_frequency_file(cpu),
            data: decimal_string(data.max_frequency_mhz),
        },
    );
    w
}

pub struct CpuIdleStates {
    states: Vec<bool>,
}

/// The number of the largest idle state that the names of the entries of a
/// `cpuidle` directory give: the entries named `state<n>` count, the others not;
/// `None` where what follows `state` is not a number.
pub open spec fn max_state(names: Seq<Seq<char>>) -> Option<nat>
    decreases names.len(),
{
    if names.len() == 0 {
        Some(0)
    } else {
        match max_state(names.drop_last()) {
            None => None,
            Some(m) => {
                let name = names.last();
                if starts_with(name, "state"@) {
                    match parse_unsigned(name.subrange(5, name.len() as int), usize::MAX as nat) {
                        Some(n) => Some(if n > m { n } else { m }),
                        None => None,
                    }
                } else {
                    Some(m)
                }
            },
        }
    }
}

/// The names as characters.
pub open spec fn names_view(names: Seq<String>) -> Seq<Seq<char>> {
    names.map_values(|n: String| n@)
}

/// Whether the trimmed text of a file is `1` (true), `0` (false), or neither.
pub open spec fn flag_of(contents: Seq<char>) -> Option<bool> {
    if trim(contents) == "1"@ {
        Some(true)
    } else if trim(contents) == "0"@ {
        Some(false)
    } else {
        None
    }
}

/// Reads a `1` or `0` flag.
pub(crate) fn parse_flag(contents: &str) -> (r: Result<bool, Error>)
    ensures
        match flag_of(contents@) {
            Some(b) => r == Ok::<bool, Error>(b),
            None => r == Err::<bool, Error>(Error::UnexpectedValue),
        },
{
    if trimmed_is(contents, "1") {
        Ok(true)
    } else if trimmed_is(contents, "0") {
        Ok(false)
    } else {
        Err(Error::UnexpectedValue)
    }
}

impl CpuIdleStates {
    pub closed spec fn spec_states(&self) -> Seq<bool> {
        self.states@
    }

    /// Idle states for a CPU with `num_states` of them, none of them disabled: setting
    /// them writes `0` to the `disable` file of each state
    pub fn disabled_for_cpu(num_states: usize) -> (s: Self)
        ensures
            s.spec_states() == Seq::new(num_states as nat, |i: int| false),
    {
        let mut states: Vec<bool> = Vec::new();
        let mut i: usize = 0;
        while i < num_states
            invariant
                0 <= i <= num_states,
                states@ == Seq::new(i as nat, |k: int| false),
            decreases num_states - i,
        {
            states.push(false);
            assert(states@ =~= Seq::new((i + 1) as nat, |k: int| false));
            i = i + 1;
        }
        Self { states }
    }

    /// Whether each idle state is disabled.
    pub fn states(&self) -> (s: &Vec<bool>)
        ensures
            s@ == self.spec_states(),
    {
        &self.states
    }

    /// The number of idle states of a CPU, from the names of the entries of its
    /// `cpuidle` directory: one more than the largest `n` of the entries `state<n>`
    pub fn get_cpu_num_states(names: &Vec<String>) -> (r: Result<usize, Error>)
        requires
            max_state(names_view(names@)) matches Some(m) ==> m < usize::MAX,
        ensures
            match max_state(names_view(names@)) {
                Some(m) => r == Ok::<usize, Error>((m + 1) as usize),
                None => r == Err::<usize, Error>(Error::InvalidNumber),
            },
    {
        let ghost all = names_view(names@);
        let prefix = str_chars("state");
        proof {
            reveal_strlit("state");
        }
        let mut max: usize = 0;
        let mut k: usize = 0;
        while k < names.len()
            invariant
                0 <= k <= names@.len(),
                all == names_view(names@),
                prefix@ == "state"@,
                "state"@.len() == 5,
                max_state(all.subrange(0, k as int)) == Some(max as nat),
            decreases names@.len() - k,
        {
            let name = str_chars(names[k].as_str());
            let ghost sub = all.subrange(0, k + 1);
            assert(sub.drop_last() =~= all.subrange(0, k as int));
            assert(sub.last() == name@);
            if name.len() >= 5 && chars_eq(&name, 0, 5, &prefix) {
                match parse_unsigned_range(&name, 5, name.len(), usize::MAX as u64) {
                    Some(n) => {
                        if n as usize > max {
                            max = n as usize;
                        }
                    },
                    None => {
                        proof {
                            lemma_max_state_prefix(all, k + 1);
                        }
                        return Err(Error::InvalidNumber);
                    },
                }
            } else {
                proof {
                    if name@.len() >= 5 {
                        assert(!starts_with(name@, "state"@));
                    }
                }
            }
            k = k + 1;
        }
        assert(all.subrange(0, k as int) =~= all);
        Ok(max + 1)
    }

    /// The file that disables an idle state of a CPU.
    pub fn get_cpu_state_file(cpu: CpuID, state: usize) -> (p: String)
        ensures
            p@ == cpu_file(cpu, "/cpuidle/state"@ + decimal(state as nat) + "/disable"@),
    {
        let mut p = String::new();
        push_str(&mut p, "/sys/devices/system/cpu/cpu");
        push_decimal(&mut p, cpu as u64);
        push_str(&mut p, "/cpuidle/state");
        push_decimal(&mut p, state as u64);
        push_str(&mut p, "/disable");
        p
    }
}

proof fn lemma_max_state_prefix(all: Seq<Seq<char>>, k: int)
    requires
        0 <= k <= all.len(),
        max_state(all.subrange(0, k)) is None,
    ensures
        max_state(all) is None,
    decreases all.len() - k,
{
    if k < all.len() {
        assert(all.subrange(0, k + 1).drop_last() =~= all.subrange(0, k));
        lemma_max_state_prefix(all, k + 1);
    } else {
        assert(all.subrange(0, k) =~= all);
    }
}

/// The flags of the texts, or the index of the first text that is neither `1` nor `0`.
pub open spec fn flags_of(contents: Seq<Seq<char>>) -> Result<Seq<bool>, int>
    decreases contents.len(),
{
    if contents.len() == 0 {
        Ok(seq![])
    } else {
        match flags_of(contents.drop_last()) {
            Err(i) => Err(i),
            Ok(flags) => match flag_of(contents.last()) {
                Some(b) => Ok(flags.push(b)),
                None => Err(contents.len() - 1),
            },
        }
    }
}

/// The idle states of a CPU, from the texts of the `disable` files of its states, in
/// order: `1` disabled, `0` enabled
pub fn get_cpu_idle_state(disabled: &Vec<String>) -> (r: Result<CpuIdleStates, Error>)
    ensures
        match flags_of(names_view(disabled@)) {
            Ok(flags) => r matches Ok(s) && s.spec_states() == flags,
            Err(_) => r matches Err(Error::UnexpectedValue),
        },
{
    let ghost all = names_view(disabled@);
    let mut states: Vec<bool> = Vec::new();
    let mut k: usize = 0;
    while k < disabled.len()
        invariant
            0 <= k <= disabled@.len(),
            all == names_view(disabled@),
            flags_of(all.subrange(0, k as int)) == Ok::<Seq<bool>, int>(states@),
        decreases disabled@.len() - k,
    {
        let ghost sub = all.subrange(0, k + 1);
        assert(sub.drop_last() =~= all.subrange(0, k as int));
        assert(sub.last() == disabled@[k as int]@);
        match parse_flag(disabled[k].as_str()) {
            Ok(b) => {
                states.push(b);
            },
            Err(e) => {
                proof {
                    lemma_flags_prefix(all, k + 1);
                }
                return Err(e);
            },
        }
        k = k + 1;
    }
    assert(all.subrange(0, k as int) =~= all);
    Ok(CpuIdleStates { states })
}

proof fn lemma_flags_prefix(all: Seq<Seq<char>>, k: int)
    requires
        0 <= k <= all.len(),
        flags_of(all.subrange(0, k)) is Err,
    ensures
        flags_of(all) is Err,
    decreases all.len() - k,
{
    if k < all.len() {
        assert(all.subrange(0, k + 1).drop_last() =~= all.subrange(0, k));
        lemma_flags_prefix(all, k + 1);
    } else {
        assert(all.subrange(0, k) =~= all);
    }
}

/// The writes that set the idle states of a CPU that has `num_states` of them: `1` to
/// the `disable` file of each disabled state, `0` to the others; refused where the
/// number of states differs
pub fn set_cpu_idle_state(cpu: CpuID, data: CpuIdleStates, num_states: usize) -> (r: Result<
    Vec<FileWrite>,
    Error,
>)
    ensures
        data.spec_states().len() != num_states ==> r matches Err(Error::IncorrectStateCount),
        data.spec_states().len() == num_states ==> (r matches Ok(w) && w@.len() == num_states
            && forall|i: int|
            0 <= i < num_states ==> #[trigger] w@[i].path@ == cpu_file(
                cpu,
                "/cpuidle/state"@ + decimal(i as nat) + "/disable"@,
            ) && w@[i].data@ == (if data.spec_states()[i] {
                "1"@
            } else {
                "0"@
            })),
{
    if data.states.len() != num_states {
        return Err(Error::IncorrectStateCount);
    }
    let mut w: Vec<FileWrite> = Vec::new();
    let mut i: usize = 0;
    while i < data.states.len()
        invariant
            0 <= i <= data.states@.len(),
            w@.len() == i,
            forall|j: int|
                0 <= j < i ==> #[trigger] w@[j].path@ == cpu_file(
                    cpu,
                    "/cpuidle/state"@ + decimal(j as nat) + "/disable"@,
                ) && w@[j].data@ == (if data.states@[j] {
                    "1"@
                } else {
                    "0"@
                }),
        decreases data.states@.len() - i,
    {
        let text = if data.states[i] {
            "1"
        } else {
            "0"
        };
        let ghost old_w = w@;
        w.push(FileWrite { path: CpuIdleStates::get_cpu_state_file(cpu, i), data: to_owned_string(text) });
        assert forall|j: int| 0 <= j < i + 1 implies #[trigger] w@[j].path@ == cpu_file(
            cpu,
            "/cpuidle/state"@ + decimal(j as nat) + "/disable"@,
        ) && w@[j].data@ == (if data.states@[j] {
            "1"@
        } else {
            "0"@
        }) by {
            if j < i {
                assert(w@[j] == old_w[j]);
            }
        }
        i = i + 1;
    }
    Ok(w)
}

// ---------------------------------------------------------------------------
// Laws
// ---------------------------------------------------------------------------

/// Reading back a frequency that a write set gives it.
pub proof fn law_frequency_read_back(frequency_mhz: u64)
    ensures
        number_of(decimal(frequency_mhz as nat)) == Ok::<u64, Error>(frequency_mhz),
{
    crate::text::lemma_decimal_trim(frequency_mhz as nat);
    crate::text::lemma_parse_decimal(frequency_mhz as nat, u64::MAX as nat);
}

/// Reading back the governor that `set_cpu_frequency_governor` set gives the data it was
/// set with, where the name of the governor has no whitespace around it.
pub proof fn law_governor_read_back(governor: Seq<char>, min_frequency_mhz: u64, max_frequency_mhz: u64)
    requires
        trim(governor) == governor,
    ensures
        trim(governor) == governor,
        number_of(decimal(min_frequency_mhz as nat)) == Ok::<u64, Error>(min_frequency_mhz),
        number_of(decimal(max_frequency_mhz as nat)) == Ok::<u64, Error>(max_frequency_mhz),
{
    law_frequency_read_back(min_frequency_mhz);
    law_frequency_read_back(max_frequency_mhz);
}

/// The texts that `set_cpu_idle_state` writes for idle states.
pub open spec fn idle_texts(states: Seq<bool>) -> Seq<Seq<char>> {
    states.map_values(|b: bool| if b { "1"@ } else { "0"@ })
}

/// Reading back the idle states that `set_cpu_idle_state` set gives them.
pub proof fn law_idle_states_read_back(states: Seq<bool>)
    ensures
        flags_of(idle_texts(states)) == Ok::<Seq<bool>, int>(states),
    decreases states.len(),
{
    reveal_strlit("1");
    reveal_strlit("0");
    crate::text::lemma_trim_unchanged("1"@);
    crate::text::lemma_trim_unchanged("0"@);
    if states.len() > 0 {
        law_idle_states_read_back(states.drop_last());
        assert(idle_texts(states).drop_last() =~= idle_texts(states.drop_last()));
        assert(states.drop_last().push(states.last()) =~= states);
        assert("0"@ != "1"@) by {
            assert("0"@[0] != "1"@[0]);
        }
        assert(flag_of("1"@) == Some(true));
        assert(flag_of("0"@) == Some(false));
        let t = idle_texts(states);
        assert(t.last() == (if states.last() { "1"@ } else { "0"@ }));
        assert(flag_of(t.last()) == Some(states.last()));
        assert(flags_of(t.drop_last()) == Ok::<Seq<bool>, int>(states.drop_last()));
        assert(t.len() > 0);
        assert(flags_of(t) == Ok::<Seq<bool>, int>(states.drop_last().push(states.last())));
    } else {
        assert(idle_texts(states) =~= Seq::<Seq<char>>::empty());
        assert(states =~= Seq::<bool>::empty());
    }
}


/// The idle states that the names of the entries of a `cpuidle` directory give: where
/// the number of every entry `state<n>` is a number, the largest of them bounds all and
/// is one of them (or zero where there is no such entry), and the count of states is one
/// more; where one is not a number, there is no count.
pub proof fn law_num_states_largest(names: Seq<Seq<char>>)
    ensures
        max_state(names) is None <==> exists|k: int|
            0 <= k < names.len() && starts_with(#[trigger] names[k], "state"@) && parse_unsigned(
                names[k].subrange(5, names[k].len() as int),
                usize::MAX as nat,
            ) is None,
        max_state(names) matches Some(m) ==> forall|k: int|
            0 <= k < names.len() && starts_with(#[trigger] names[k], "state"@) ==> (parse_unsigned(
                names[k].subrange(5, names[k].len() as int),
                usize::MAX as nat,
            ) matches Some(n) ==> n <= m),
        max_state(names) matches Some(m) ==> m == 0 || exists|k: int|
            0 <= k < names.len() && starts_with(#[trigger] names[k], "state"@) && parse_unsigned(
                names[k].subrange(5, names[k].len() as int),
                usize::MAX as nat,
            ) == Some(m),
    decreases names.len(),
{
    if names.len() > 0 {
        let dl = names.drop_last();
        let last = names.len() - 1;
        law_num_states_largest(dl);
        assert(names[last] == names.last());
        assert forall|k: int| 0 <= k < dl.len() implies #[trigger] names[k] == dl[k] by {}
        match max_state(dl) {
            None => {
                let k = choose|k: int|
                    0 <= k < dl.len() && starts_with(#[trigger] dl[k], "state"@) && parse_unsigned(
                        dl[k].subrange(5, dl[k].len() as int),
                        usize::MAX as nat,
                    ) is None;
                assert(names[k] == dl[k]);
            },
            Some(m0) => {
                assert forall|k: int|
                    0 <= k < names.len() && starts_with(#[trigger] names[k], "state"@) implies (
                    max_state(names) matches Some(m) ==> (parse_unsigned(
                        names[k].subrange(5, names[k].len() as int),
                        usize::MAX as nat,
                    ) matches Some(n) ==> n <= m)) by {
                    if k < last {
                        assert(names[k] == dl[k]);
                    }
                }
                if exists|k: int|
                    0 <= k < names.len() && starts_with(#[trigger] names[k], "state"@) && parse_unsigned(
                        names[k].subrange(5, names[k].len() as int),
                        usize::MAX as nat,
                    ) is None {
                    let k = choose|k: int|
                        0 <= k < names.len() && starts_with(#[trigger] names[k], "state"@) && parse_unsigned(
                            names[k].subrange(5, names[k].len() as int),
                            usize::MAX as nat,
                        ) is None;
                    if k < last {
                        assert(names[k] == dl[k]);
                    }
                }
                if m0 != 0 {
                    let k = choose|k: int|
                        0 <= k < dl.len() && starts_with(#[trigger] dl[k], "state"@) && parse_unsigned(
                            dl[k].subrange(5, dl[k].len() as int),
                            usize::MAX as nat,
                        ) == Some(m0);
                    assert(names[k] == dl[k]);
                }
            },
        }
    }
}

} // verus!
