//! \[HCBS multi-CPU\] Runtimes and periods of a cgroup server per CPU.
//!
//! The kernel reports one time per CPU, separated by whitespace; they are read as
//! groups of CPUs that share a time. They are set as a list of times, each with the
//! CPUs it is for: `<time> <cpu list>` items separated by spaces.
use vstd::prelude::*;

use crate::cgroup::{cgroup_abs_path, CGROUP_ROOT};
use crate::common::{CpuID, Error, FileWrite};
use crate::cpuset::{
    cpu_item, cpu_items_from, digits_end, expand_items, lemma_digits_end, lemma_digits_end_run, multispace_end,
    parse_cpu_list, parse_cpu_list_chars, range_cpus, scan_digits,
};
use crate::text::{
    all_digits, decimal, digits_value, is_digit, parse_unsigned, parse_unsigned_range, push_char, push_decimal, push_str, ranges_view,
    split_ascii_whitespace, token_ranges, trim, trimmed_chars,
};

verus! {

// ---------------------------------------------------------------------------
// Reading per-CPU times
// ---------------------------------------------------------------------------

/// The numbers of the fields, or `None` where one is not a number.
pub open spec fn parse_times(fields: Seq<Seq<char>>) -> Option<Seq<u64>>
    decreases fields.len(),
{
    if fields.len() == 0 {
        Some(seq![])
    } else {
        match (parse_times(fields.drop_last()), parse_unsigned(fields.last(), u64::MAX as nat)) {
            (Some(times), Some(n)) => Some(times.push(n as u64)),
            _ => None,
        }
    }
}

/// The CPUs among the first `n` whose time is `t`, in increasing order; the CPU of a time
/// is its position.
pub open spec fn cpus_with_time(times: Seq<u64>, t: u64, n: int) -> Seq<CpuID>
    decreases n,
{
    if n <= 0 {
        seq![]
    } else if times[n - 1] == t {
        cpus_with_time(times, t, n - 1).push((n - 1) as CpuID)
    } else {
        cpus_with_time(times, t, n - 1)
    }
}

/// The groups of CPUs by time, as plain values.
pub open spec fn groups_view(groups: Seq<(u64, Vec<CpuID>)>) -> Seq<(u64, Seq<CpuID>)> {
    groups.map_values(|g: (u64, Vec<CpuID>)| (g.0, g.1@))
}

/// Some CPU has time `t`.
pub open spec fn time_occurs(times: Seq<u64>, t: u64) -> bool {
    exists|i: int| 0 <= i < times.len() && times[i] == t
}

/// Some group is for time `t`.
pub open spec fn time_grouped(groups: Seq<(u64, Seq<CpuID>)>, t: u64) -> bool {
    exists|k: int| 0 <= k < groups.len() && groups[k].0 == t
}

/// `groups` groups the CPUs by their time: one group for each time other than zero that
/// some CPU has, in increasing order of time, each with the CPUs that have that time in
/// increasing order. CPUs whose time is zero are in no group.
pub open spec fn is_grouping(times: Seq<u64>, groups: Seq<(u64, Seq<CpuID>)>) -> bool {
    &&& forall|k: int|
        #![trigger groups[k]]
        0 <= k < groups.len() ==> groups[k].0 != 0 && groups[k].1 == cpus_with_time(
            times,
            groups[k].0,
            times.len() as int,
        ) && time_occurs(times, groups[k].0)
    &&& forall|k: int, l: int|
        #![trigger groups[k], groups[l]]
        0 <= k < l < groups.len() ==> groups[k].0 < groups[l].0
    &&& forall|i: int|
        #![trigger times[i]]
        0 <= i < times.len() && times[i] != 0 ==> time_grouped(groups, times[i])
}

fn cpus_of_time(times: &Vec<u64>, t: u64) -> (cpus: Vec<CpuID>)
    ensures
        cpus@ == cpus_with_time(times@, t, times@.len() as int),
{
    let mut cpus: Vec<CpuID> = Vec::new();
    let mut i: usize = 0;
    while i < times.len()
        invariant
            0 <= i <= times@.len(),
            cpus@ == cpus_with_time(times@, t, i as int),
        decreases times@.len() - i,
    {
        if times[i] == t {
            cpus.push(i as CpuID);
        }
        i = i + 1;
    }
    cpus
}

/// The smallest time greater than `prev`, if any.
fn next_time(times: &Vec<u64>, prev: u64) -> (r: Option<u64>)
    ensures
        r matches Some(t) ==> t > prev && times@.contains(t) && forall|i: int|
            0 <= i < times@.len() && times@[i] > prev ==> t <= #[trigger] times@[i],
        r is None ==> forall|i: int| 0 <= i < times@.len() ==> #[trigger] times@[i] <= prev,
{
    let mut best: Option<u64> = None;
    let mut i: usize = 0;
    while i < times.len()
        invariant
            0 <= i <= times@.len(),
            best matches Some(t) ==> t > prev && times@.contains(t) && forall|j: int|
                0 <= j < i && times@[j] > prev ==> t <= #[trigger] times@[j],
            best is None ==> forall|j: int| 0 <= j < i ==> #[trigger] times@[j] <= prev,
        decreases times@.len() - i,
    {
        let t = times[i];
        if t > prev {
            match best {
                Some(b) if b <= t => {},
                _ => {
                    best = Some(t);
                },
            }
        }
        i = i + 1;
    }
    best
}

/// The CPUs grouped by their time.
fn group_times(times: &Vec<u64>) -> (groups: Vec<(u64, Vec<CpuID>)>)
    ensures
        is_grouping(times@, groups_view(groups@)),
{
    let mut groups: Vec<(u64, Vec<CpuID>)> = Vec::new();
    let mut prev: u64 = 0;
    loop
        invariant
            is_grouping_upto(times@, groups_view(groups@), prev),
        decreases u64::MAX - prev,
    {
        match next_time(times, prev) {
            None => {
                proof {
                    lemma_grouping_complete(times@, groups_view(groups@), prev);
                }
                return groups;
            },
            Some(t) => {
                let cpus = cpus_of_time(times, t);
                let ghost old_groups = groups_view(groups@);
                groups.push((t, cpus));
                proof {
                    let g = groups_view(groups@);
                    assert(g =~= old_groups.push((t, cpus_with_time(times@, t, times@.len() as int))));
                    assert forall|k: int| 0 <= k < old_groups.len() implies g[k] == old_groups[k] by {}
                    assert forall|i: int|
                        #![trigger times@[i]]
                        0 <= i < times@.len() && times@[i] != 0 && times@[i] <= t implies time_grouped(g, times@[i]) by {
                        if times@[i] <= prev {
                            let k = choose|k: int| 0 <= k < old_groups.len() && old_groups[k].0 == times@[i];
                            assert(g[k] == old_groups[k]);
                        } else {
                            assert(g[g.len() - 1].0 == times@[i]);
                        }
                    }
                    assert(time_occurs(times@, t));
                }
                prev = t;
            },
        }
    }
}

/// A grouping up to a time that no time exceeds is a grouping.
proof fn lemma_grouping_complete(times: Seq<u64>, g: Seq<(u64, Seq<CpuID>)>, prev: u64)
    requires
        is_grouping_upto(times, g, prev),
        forall|i: int| 0 <= i < times.len() ==> #[trigger] times[i] <= prev,
    ensures
        is_grouping(times, g),
{
}

/// The grouping as far as the times up to `prev`: the properties of `is_grouping`, with
/// every group's time at most `prev` and every CPU whose time is at most `prev` grouped.
pub open spec fn is_grouping_upto(times: Seq<u64>, groups: Seq<(u64, Seq<CpuID>)>, prev: u64) -> bool {
    &&& forall|k: int|
        #![trigger groups[k]]
        0 <= k < groups.len() ==> groups[k].0 != 0 && groups[k].1 == cpus_with_time(
            times,
            groups[k].0,
            times.len() as int,
        ) && time_occurs(times, groups[k].0) && groups[k].0 <= prev
    &&& forall|k: int, l: int|
        #![trigger groups[k], groups[l]]
        0 <= k < l < groups.len() ==> groups[k].0 < groups[l].0
    &&& forall|i: int|
        #![trigger times[i]]
        0 <= i < times.len() && times[i] != 0 && times[i] <= prev ==> time_grouped(groups, times[i])
}

/// The CPUs grouped by time, from the text the kernel reports: one time per CPU.
pub open spec fn times_of(contents: Seq<char>) -> Option<Seq<u64>> {
    parse_times(split_ascii_whitespace(trim(contents)))
}

fn parse_times_on_get(contents: &str) -> (r: Result<Vec<(u64, Vec<CpuID>)>, Error>)
    ensures
        match times_of(contents@) {
            Some(times) => r matches Ok(groups) && is_grouping(times, groups_view(groups@)),
            None => r matches Err(Error::InvalidNumber),
        },
{
    let chars = trimmed_chars(contents);
    let toks = token_ranges(&chars);
    let ghost all = ranges_view(chars@, toks@);
    let mut times: Vec<u64> = Vec::new();
    let mut k: usize = 0;
    while k < toks.len()
        invariant
            0 <= k <= toks@.len(),
            all == ranges_view(chars@, toks@),
            all == split_ascii_whitespace(trim(contents@)),
            crate::text::ranges_within(toks@, chars@.len()),
            parse_times(all.subrange(0, k as int)) == Some(times@),
        decreases toks@.len() - k,
    {
        let (a, b) = toks[k];
        assert(all.subrange(0, k + 1).drop_last() =~= all.subrange(0, k as int));
        assert(all.subrange(0, k + 1).last() == chars@.subrange(a as int, b as int));
        match parse_unsigned_range(&chars, a, b, u64::MAX) {
            Some(n) => {
                times.push(n);
            },
            None => {
                proof {
                    lemma_parse_times_prefix(all, k + 1);
                }
                return Err(Error::InvalidNumber);
            },
        }
        k = k + 1;
    }
    assert(all.subrange(0, k as int) =~= all);
    Ok(group_times(&times))
}

proof fn lemma_parse_times_prefix(all: Seq<Seq<char>>, k: int)
    requires
        0 <= k <= all.len(),
        parse_times(all.subrange(0, k)) is None,
    ensures
        parse_times(all) is None,
    decreases all.len() - k,
{
    if k < all.len() {
        assert(all.subrange(0, k + 1).drop_last() =~= all.subrange(0, k));
        lemma_parse_times_prefix(all, k + 1);
    } else {
        assert(all.subrange(0, k) =~= all);
    }
}

/// The file that holds the runtimes of a cgroup server.
pub fn cgroup_runtime_path(name: &str) -> (p: String)
    ensures
        p@ == CGROUP_ROOT@ + "/"@ + name@ + "/cpu.rt_runtime_us"@,
{
    let mut p = cgroup_abs_path(name);
    push_str(&mut p, "/cpu.rt_runtime_us");
    p
}

/// The file that holds the periods of a cgroup server.
pub fn cgroup_period_path(name: &str) -> (p: String)
    ensures
        p@ == CGROUP_ROOT@ + "/"@ + name@ + "/cpu.rt_period_us"@,
{
    let mut p = cgroup_abs_path(name);
    push_str(&mut p, "/cpu.rt_period_us");
    p
}

/// \[HCBS MultiCPU Specific\] Get the cgroup server's runtime, from the text of its
/// `cpu.rt_runtime_us` file
pub fn get_cgroup_runtime_us_multi(contents: &str) -> (r: Result<Vec<(u64, Vec<CpuID>)>, Error>)
    ensures
        match times_of(contents@) {
            Some(times) => r matches Ok(groups) && is_grouping(times, groups_view(groups@)),
            None => r matches Err(Error::InvalidNumber),
        },
{
    parse_times_on_get(contents)
}

/// \[HCBS MultiCPU Specific\] Get the cgroup server's period, from the text of its
/// `cpu.rt_period_us` file
pub fn get_cgroup_period_us_multi(contents: &str) -> (r: Result<Vec<(u64, Vec<CpuID>)>, Error>)
    ensures
        match times_of(contents@) {
            Some(times) => r matches Ok(groups) && is_grouping(times, groups_view(groups@)),
            None => r matches Err(Error::InvalidNumber),
        },
{
    parse_times_on_get(contents)
}

// ---------------------------------------------------------------------------
// Setting times
// ---------------------------------------------------------------------------

/// The CPUs in decimal, separated by commas.
pub open spec fn cpus_commas(cpus: Seq<CpuID>) -> Seq<char>
    decreases cpus.len(),
{
    if cpus.len() == 0 {
        seq![]
    } else if cpus.len() == 1 {
        decimal(cpus[0] as nat)
    } else {
        cpus_commas(cpus.drop_last()) + ","@ + decimal(cpus.last() as nat)
    }
}

/// One item: the time, then a space and its CPUs where it has some.
pub open spec fn packed_item(time: u64, cpus: Seq<CpuID>) -> Seq<char> {
    if cpus.len() == 0 {
        decimal(time as nat)
    } else {
        decimal(time as nat) + " "@ + cpus_commas(cpus)
    }
}

/// The items, separated by spaces.
pub open spec fn packed_text(times: Seq<(u64, Seq<CpuID>)>) -> Seq<char>
    decreases times.len(),
{
    if times.len() == 0 {
        seq![]
    } else if times.len() == 1 {
        packed_item(times[0].0, times[0].1)
    } else {
        packed_text(times.drop_last()) + " "@ + packed_item(times.last().0, times.last().1)
    }
}

fn push_packed_item(s: &mut String, time: u64, cpus: &Vec<CpuID>)
    ensures
        final(s)@ == old(s)@ + packed_item(time, cpus@),
{
    push_decimal(s, time);
    let ghost base = s@;
    let mut i: usize = 0;
    while i < cpus.len()
        invariant
            0 <= i <= cpus@.len(),
            base == old(s)@ + decimal(time as nat),
            i == 0 ==> s@ == base,
            i > 0 ==> s@ == base + " "@ + cpus_commas(cpus@.subrange(0, i as int)),
        decreases cpus@.len() - i,
    {
        if i == 0 {
            push_str(s, " ");
        } else {
            push_str(s, ",");
        }
        push_decimal(s, cpus[i] as u64);
        let ghost sub = cpus@.subrange(0, i + 1);
        assert(sub.drop_last() =~= cpus@.subrange(0, i as int));
        if i == 0 {
            assert(cpus_commas(sub) == decimal(cpus@[0] as nat));
        }
        assert(s@ =~= base + " "@ + cpus_commas(sub));
        i = i + 1;
    }
    assert(cpus@.subrange(0, i as int) =~= cpus@);
}

/// The text that sets times for their CPUs: for each time, the time, a space and its CPUs
/// separated by commas (or the time alone, where it has no CPUs); the items separated by
/// spaces.
pub fn packed_to_string(times_us: &Vec<(u64, Vec<CpuID>)>) -> (s: String)
    ensures
        s@ == packed_text(groups_view(times_us@)),
{
    let mut s = String::new();
    let ghost g = groups_view(times_us@);
    let mut k: usize = 0;
    while k < times_us.len()
        invariant
            0 <= k <= times_us@.len(),
            g == groups_view(times_us@),
            s@ == packed_text(g.subrange(0, k as int)),
        decreases times_us@.len() - k,
    {
        let ghost before = s@;
        if k > 0 {
            push_str(&mut s, " ");
        }
        let (time, cpus) = &times_us[k];
        push_packed_item(&mut s, *time, cpus);
        let ghost sub = g.subrange(0, k + 1);
        assert(sub.drop_last() =~= g.subrange(0, k as int));
        assert(sub.last() == (*time, cpus@));
        if k == 0 {
            assert(packed_text(sub) == packed_item(sub[0].0, sub[0].1));
        }
        assert(s@ =~= packed_text(sub));
        k = k + 1;
    }
    assert(g.subrange(0, k as int) =~= g);
    s
}

/// \[HCBS MultiCPU Specific\] Set the cgroup server's runtime: each runtime for its CPUs
pub fn set_cgroup_runtime_us_multi(name: &str, runtimes_us: &Vec<(u64, Vec<CpuID>)>) -> (w: FileWrite)
    ensures
        w.path@ == CGROUP_ROOT@ + "/"@ + name@ + "/cpu.rt_runtime_us"@,
        w.data@ == packed_text(groups_view(runtimes_us@)),
{
    FileWrite { path: cgroup_runtime_path(name), data: packed_to_string(runtimes_us) }
}

/// \[HCBS MultiCPU Specific\] Set the cgroup server's period: each period for its CPUs
pub fn set_cgroup_period_us_multi(name: &str, periods_us: &Vec<(u64, Vec<CpuID>)>) -> (w: FileWrite)
    ensures
        w.path@ == CGROUP_ROOT@ + "/"@ + name@ + "/cpu.rt_period_us"@,
        w.data@ == packed_text(groups_view(periods_us@)),
{
    FileWrite { path: cgroup_period_path(name), data: packed_to_string(periods_us) }
}

// ---------------------------------------------------------------------------
// Times for their CPUs, from text
// ---------------------------------------------------------------------------

/// A space or a tab.
pub open spec fn is_space_or_tab(c: char) -> bool {
    c == ' ' || c == '\t'
}

/// A character that a CPU list may hold: a digit, `-` or `,`.
pub open spec fn is_cpu_list_char(c: char) -> bool {
    is_digit(c) || c == '-' || c == ','
}

/// The end of the run of spaces and tabs at `i`.
pub open spec fn space_end(s: Seq<char>, i: int) -> int
    decreases s.len() - i,
{
    if 0 <= i < s.len() && is_space_or_tab(s[i]) {
        space_end(s, i + 1)
    } else {
        i
    }
}

/// The end of the run of CPU list characters at `i`.
pub open spec fn cpu_list_end(s: Seq<char>, i: int) -> int
    decreases s.len() - i,
{
    if 0 <= i < s.len() && is_cpu_list_char(s[i]) {
        cpu_list_end(s, i + 1)
    } else {
        i
    }
}

pub proof fn lemma_space_end(s: Seq<char>, i: int)
    requires
        0 <= i <= s.len(),
    ensures
        i <= space_end(s, i) <= s.len(),
    decreases s.len() - i,
{
    if i < s.len() && is_space_or_tab(s[i]) {
        lemma_space_end(s, i + 1);
    }
}

pub proof fn lemma_cpu_list_end(s: Seq<char>, i: int)
    requires
        0 <= i <= s.len(),
    ensures
        i <= cpu_list_end(s, i) <= s.len(),
    decreases s.len() - i,
{
    if i < s.len() && is_cpu_list_char(s[i]) {
        lemma_cpu_list_end(s, i + 1);
    }
}

/// An item at `i`: a time (digits whose value fits a `u64`), one or more spaces or tabs,
/// then a run of CPU list characters that is a CPU list; with the index where it ends.
pub open spec fn time_item(s: Seq<char>, i: int) -> Option<((u64, Seq<CpuID>), int)> {
    let e1 = digits_end(s, i);
    let e2 = space_end(s, e1);
    let e3 = cpu_list_end(s, e2);
    if i < e1 && digits_value(s.subrange(i, e1)) <= u64::MAX && e1 < e2 && e2 < e3 {
        match parse_cpu_list(s.subrange(e2, e3)) {
            Some(cpus) => Some(((digits_value(s.subrange(i, e1)) as u64, cpus), e3)),
            None => None,
        }
    } else {
        None
    }
}

pub proof fn lemma_time_item_end(s: Seq<char>, i: int)
    requires
        0 <= i <= s.len(),
    ensures
        time_item(s, i) matches Some((_, e)) ==> i < e <= s.len(),
{
    lemma_digits_end(s, i);
    lemma_space_end(s, digits_end(s, i));
    lemma_cpu_list_end(s, space_end(s, digits_end(s, i)));
}

/// The items that follow an item ending at `i`, each after one or more spaces or tabs;
/// the list stops, keeping what it has, where no item follows the spaces.
pub open spec fn time_items_from(s: Seq<char>, i: int) -> Seq<(u64, Seq<CpuID>)>
    decreases s.len() - i,
{
    if 0 <= i < s.len() && is_space_or_tab(s[i]) {
        proof {
            lemma_space_end(s, i + 1);
            lemma_time_item_end(s, space_end(s, i));
        }
        match time_item(s, space_end(s, i)) {
            None => seq![],
            Some((item, e)) => seq![item] + time_items_from(s, e),
        }
    } else {
        seq![]
    }
}

/// The times with their CPUs that a text such as `1000 0-3 2000 4,5` gives: at least one
/// item at its start, then the items that follow; what stands after the last is ignored.
pub open spec fn time_items(s: Seq<char>) -> Option<Seq<(u64, Seq<CpuID>)>> {
    match time_item(s, 0) {
        None => None,
        Some((item, e)) => Some(seq![item] + time_items_from(s, e)),
    }
}

fn scan_space(s: &Vec<char>, i: usize) -> (e: usize)
    requires
        i <= s@.len(),
    ensures
        e == space_end(s@, i as int),
{
    let mut e: usize = i;
    while e < s.len() && (s[e] == ' ' || s[e] == '\t')
        invariant
            i <= e <= s@.len(),
            space_end(s@, e as int) == space_end(s@, i as int),
        decreases s@.len() - e,
    {
        e = e + 1;
    }
    e
}

fn scan_cpu_list(s: &Vec<char>, i: usize) -> (e: usize)
    requires
        i <= s@.len(),
    ensures
        e == cpu_list_end(s@, i as int),
{
    let mut e: usize = i;
    while e < s.len() && (('0' <= s[e] && s[e] <= '9') || s[e] == '-' || s[e] == ',')
        invariant
            i <= e <= s@.len(),
            cpu_list_end(s@, e as int) == cpu_list_end(s@, i as int),
        decreases s@.len() - e,
    {
        e = e + 1;
    }
    e
}

fn time_item_at(s: &Vec<char>, i: usize) -> (r: Option<(u64, Vec<CpuID>, usize)>)
    requires
        i <= s@.len(),
    ensures
        match r {
            Some((t, cpus, e)) => time_item(s@, i as int) == Some(((t, cpus@), e as int)),
            None => time_item(s@, i as int) is None,
        },
{
    let e1 = scan_digits(s, i);
    proof {
        lemma_digits_end(s@, i as int);
        lemma_space_end(s@, e1 as int);
    }
    let e2 = scan_space(s, e1);
    proof {
        lemma_cpu_list_end(s@, e2 as int);
    }
    let e3 = scan_cpu_list(s, e2);
    if e1 == i || e2 == e1 || e3 == e2 {
        return None;
    }
    let ghost digits = s@.subrange(i as int, e1 as int);
    assert(is_digit(digits[0]));
    let time = match parse_unsigned_range(s, i, e1, u64::MAX) {
        Some(t) => t,
        None => {
            return None;
        },
    };
    let mut sub: Vec<char> = Vec::new();
    let mut k: usize = e2;
    while k < e3
        invariant
            e2 <= k <= e3 <= s@.len(),
            sub@ == s@.subrange(e2 as int, k as int),
        decreases e3 - k,
    {
        sub.push(s[k]);
        assert(s@.subrange(e2 as int, k + 1) == s@.subrange(e2 as int, k as int).push(s@[k as int]));
        k = k + 1;
    }
    match parse_cpu_list_chars(&sub) {
        Some(cpus) => Some((time, cpus, e3)),
        None => None,
    }
}

/// The times with their CPUs that a text such as `1000 0-3 2000 4,5` sets
pub fn parse_times_on_set(times_us: &str) -> (r: Result<Vec<(u64, Vec<CpuID>)>, Error>)
    ensures
        match time_items(times_us@) {
            Some(items) => r matches Ok(v) && groups_view(v@) == items,
            None => r matches Err(Error::InvalidFormat),
        },
{
    let s = crate::text::str_chars(times_us);
    let (t, cpus, e) = match time_item_at(&s, 0) {
        None => {
            return Err(Error::InvalidFormat);
        },
        Some(item) => item,
    };
    let mut out: Vec<(u64, Vec<CpuID>)> = Vec::new();
    let ghost mut items: Seq<(u64, Seq<CpuID>)> = seq![(t, cpus@)];
    out.push((t, cpus));
    assert(groups_view(out@) =~= items);
    proof {
        lemma_time_item_end(s@, 0);
    }
    let mut i: usize = e;
    loop
        invariant
            0 < i <= s@.len(),
            s@ == times_us@,
            time_items(s@) == Some(items + time_items_from(s@, i as int)),
            groups_view(out@) == items,
        decreases s@.len() - i,
    {
        if i >= s.len() || !(s[i] == ' ' || s[i] == '\t') {
            assert(items + time_items_from(s@, i as int) =~= items);
            return Ok(out);
        }
        let j = scan_space(&s, i);
        proof {
            lemma_space_end(s@, i as int);
            lemma_time_item_end(s@, j as int);
        }
        match time_item_at(&s, j) {
            None => {
                assert(items + time_items_from(s@, i as int) =~= items);
                return Ok(out);
            },
            Some((t, cpus, e)) => {
                let ghost old_items = items;
                let ghost old_out = out@;
                proof {
                    items = items.push((t, cpus@));
                    assert(old_items + time_items_from(s@, i as int) =~= items + time_items_from(
                        s@,
                        e as int,
                    ));
                }
                let ghost cv = cpus@;
                out.push((t, cpus));
                assert(groups_view(out@) =~= groups_view(old_out).push((t, cv)));
                i = e;
            },
        }
    }
}

/// \[HCBS MultiCPU Specific\] Set the cgroup server's runtime (from str)
pub fn set_cgroup_runtime_us_multi_str(name: &str, runtimes_us: &str) -> (r: Result<FileWrite, Error>)
    ensures
        match time_items(runtimes_us@) {
            Some(items) => r matches Ok(w) && w.path@ == CGROUP_ROOT@ + "/"@ + name@
                + "/cpu.rt_runtime_us"@ && w.data@ == packed_text(items),
            None => r matches Err(Error::InvalidFormat),
        },
{
    let lists = parse_times_on_set(runtimes_us)?;
    Ok(set_cgroup_runtime_us_multi(name, &lists))
}

/// \[HCBS MultiCPU Specific\] Set the cgroup server's period (from str)
pub fn set_cgroup_period_us_multi_str(name: &str, periods_us: &str) -> (r: Result<FileWrite, Error>)
    ensures
        match time_items(periods_us@) {
            Some(items) => r matches Ok(w) && w.path@ == CGROUP_ROOT@ + "/"@ + name@
                + "/cpu.rt_period_us"@ && w.data@ == packed_text(items),
            None => r matches Err(Error::InvalidFormat),
        },
{
    let lists = parse_times_on_set(periods_us)?;
    Ok(set_cgroup_period_us_multi(name, &lists))
}


// ---------------------------------------------------------------------------
// Laws
// ---------------------------------------------------------------------------

/// A run of CPU list characters at `i` that ends at `j` is the CPU list run at `i`.
proof fn lemma_cpu_list_end_run(s: Seq<char>, i: int, j: int)
    requires
        0 <= i <= j <= s.len(),
        forall|k: int| i <= k < j ==> is_cpu_list_char(#[trigger] s[k]),
        j == s.len() || !is_cpu_list_char(s[j]),
    ensures
        cpu_list_end(s, i) == j,
    decreases j - i,
{
    if i < j {
        lemma_cpu_list_end_run(s, i + 1, j);
    }
}

/// The CPUs separated by commas: the first CPU, then a comma and the others.
proof fn lemma_cpus_commas_first(c: Seq<CpuID>)
    requires
        c.len() >= 2,
    ensures
        cpus_commas(c) == decimal(c[0] as nat) + ","@ + cpus_commas(c.drop_first()),
    decreases c.len(),
{
    let dl = c.drop_last();
    let df = c.drop_first();
    let d0 = decimal(c[0] as nat);
    let dn = decimal(c.last() as nat);
    assert(cpus_commas(c) == cpus_commas(dl) + ","@ + dn);
    if c.len() > 2 {
        lemma_cpus_commas_first(dl);
        assert(dl.drop_first() =~= df.drop_last());
        assert(dl[0] == c[0]);
        assert(df.last() == c.last());
        assert(cpus_commas(df) == cpus_commas(df.drop_last()) + ","@ + dn);
        assert(cpus_commas(c) =~= d0 + ","@ + cpus_commas(df));
    } else {
        assert(cpus_commas(dl) == d0);
        assert(df.len() == 1 && df[0] == c.last());
        assert(cpus_commas(df) == dn);
    }
}

/// The text of CPUs separated by commas starts with a digit and holds CPU list
/// characters only.
proof fn lemma_cpus_commas_chars(c: Seq<CpuID>)
    requires
        c.len() > 0,
    ensures
        cpus_commas(c).len() > 0,
        is_digit(cpus_commas(c)[0]),
        forall|k: int| 0 <= k < cpus_commas(c).len() ==> is_cpu_list_char(#[trigger] cpus_commas(c)[k]),
    decreases c.len(),
{
    reveal_strlit(",");
    crate::cgroup::hcbs::uni::lemma_decimal_chars(c.last() as nat);
    if c.len() == 1 {
        crate::cgroup::hcbs::uni::lemma_decimal_chars(c[0] as nat);
    } else {
        lemma_cpus_commas_chars(c.drop_last());
        let a = cpus_commas(c.drop_last());
        let d = decimal(c.last() as nat);
        assert(cpus_commas(c) == a + ","@ + d);
        assert forall|k: int| 0 <= k < cpus_commas(c).len() implies is_cpu_list_char(
            #[trigger] cpus_commas(c)[k],
        ) by {
            if k < a.len() {
                assert(cpus_commas(c)[k] == a[k]);
            } else if k > a.len() {
                assert(cpus_commas(c)[k] == d[k - a.len() - 1]);
            }
        }
        assert(cpus_commas(c)[0] == a[0]);
    }
}

/// The single-CPU items of a list of CPUs.
pub open spec fn single_items(c: Seq<CpuID>) -> Seq<(CpuID, CpuID)> {
    c.map_values(|x: CpuID| (x, x))
}

proof fn lemma_expand_single_items(c: Seq<CpuID>)
    ensures
        expand_items(single_items(c)) == c,
    decreases c.len(),
{
    if c.len() > 0 {
        assert(single_items(c).drop_last() =~= single_items(c.drop_last()));
        lemma_expand_single_items(c.drop_last());
        assert(range_cpus(c.last(), c.last()) =~= seq![c.last()]);
        assert(c.drop_last().push(c.last()) =~= c);
    }
}

/// The CPU number and the item at `p` where `s` holds the decimal of `x` there, followed
/// by the end of the text or a comma.
proof fn lemma_single_item_at(s: Seq<char>, p: int, x: CpuID)
    requires
        0 <= p,
        p + decimal(x as nat).len() <= s.len(),
        s.subrange(p, p + decimal(x as nat).len()) == decimal(x as nat),
        p + decimal(x as nat).len() == s.len() || s[p + decimal(x as nat).len()] == ',',
    ensures
        cpu_item(s, p) == Some(((x, x), p + decimal(x as nat).len())),
{
    let d = decimal(x as nat);
    let e = p + d.len();
    crate::text::lemma_decimal(x as nat);
    assert forall|k: int| p <= k < e implies is_digit(#[trigger] s[k]) by {
        assert(s[k] == s.subrange(p, e)[k - p]);
    }
    lemma_digits_end_run(s, p, e);
}

/// The items of `P,c1,c2,...` after `P`: one single-CPU item for each CPU.
proof fn lemma_items_of_commas(pre: Seq<char>, c: Seq<CpuID>)
    requires
        c.len() > 0,
    ensures
        cpu_items_from(pre + ","@ + cpus_commas(c), pre.len() as int) == single_items(c),
    decreases c.len(),
{
    reveal_strlit(",");
    let s = pre + ","@ + cpus_commas(c);
    let p = pre.len() as int;
    let d = decimal(c[0] as nat);
    lemma_cpus_commas_chars(c);
    assert(s[p] == ',');
    assert(s[p + 1] == cpus_commas(c)[0]);
    assert(multispace_end(s, p + 1) == p + 1);
    if c.len() == 1 {
        assert(cpus_commas(c) == d);
        assert(s.subrange(p + 1, p + 1 + d.len()) =~= d);
        lemma_single_item_at(s, p + 1, c[0]);
        assert(cpu_items_from(s, s.len() as int) == Seq::<(CpuID, CpuID)>::empty());
        assert(single_items(c) =~= seq![(c[0], c[0])]);
    } else {
        lemma_cpus_commas_first(c);
        let rest = c.drop_first();
        let pre2 = pre + ","@ + d;
        assert(s =~= pre2 + ","@ + cpus_commas(rest));
        assert(s.subrange(p + 1, p + 1 + d.len()) =~= d);
        assert(s[p + 1 + d.len()] == ',');
        lemma_single_item_at(s, p + 1, c[0]);
        lemma_items_of_commas(pre2, rest);
        assert(single_items(c) =~= seq![(c[0], c[0])] + single_items(rest));
    }
}

/// A list of distinct CPUs separated by commas reads back as the CPUs.
pub proof fn lemma_parse_cpus_commas(c: Seq<CpuID>)
    requires
        c.len() > 0,
        c.no_duplicates(),
    ensures
        parse_cpu_list(cpus_commas(c)) == Some(c),
{
    reveal_strlit(",");
    let x = cpus_commas(c);
    let d = decimal(c[0] as nat);
    lemma_cpus_commas_chars(c);
    lemma_expand_single_items(c);
    crate::cpuset::lemma_distinct_cpus_unchanged(c);
    if c.len() == 1 {
        assert(x == d);
        assert(x.subrange(0, d.len() as int) =~= d);
        lemma_single_item_at(x, 0, c[0]);
        assert(single_items(c) =~= seq![(c[0], c[0])]);
    } else {
        lemma_cpus_commas_first(c);
        let rest = c.drop_first();
        assert(x.subrange(0, d.len() as int) =~= d);
        assert(x[d.len() as int] == ',');
        lemma_single_item_at(x, 0, c[0]);
        lemma_items_of_commas(d, rest);
        assert(single_items(c) =~= seq![(c[0], c[0])] + single_items(rest));
    }
}


/// The items separated by spaces: the first item, then a space and the others.
proof fn lemma_packed_text_first(g: Seq<(u64, Seq<CpuID>)>)
    requires
        g.len() >= 2,
    ensures
        packed_text(g) == packed_item(g[0].0, g[0].1) + " "@ + packed_text(g.drop_first()),
    decreases g.len(),
{
    let dl = g.drop_last();
    let df = g.drop_first();
    let i0 = packed_item(g[0].0, g[0].1);
    let iln = packed_item(g.last().0, g.last().1);
    assert(packed_text(g) == packed_text(dl) + " "@ + iln);
    if g.len() > 2 {
        lemma_packed_text_first(dl);
        assert(dl.drop_first() =~= df.drop_last());
        assert(dl[0] == g[0]);
        assert(df.last() == g.last());
        assert(packed_text(df) == packed_text(df.drop_last()) + " "@ + iln);
        assert(packed_text(g) =~= i0 + " "@ + packed_text(df));
    } else {
        assert(packed_text(dl) == i0);
        assert(df.len() == 1 && df[0] == g.last());
        assert(packed_text(df) == iln);
    }
}

/// The item at `p` where `s` holds the packed item of a time with its CPUs there,
/// followed by the end of the text or a space.
proof fn lemma_time_item_at(s: Seq<char>, p: int, t: u64, c: Seq<CpuID>)
    requires
        0 <= p,
        c.len() > 0,
        c.no_duplicates(),
        p + packed_item(t, c).len() <= s.len(),
        s.subrange(p, p + packed_item(t, c).len()) == packed_item(t, c),
        p + packed_item(t, c).len() == s.len() || s[p + packed_item(t, c).len()] == ' ',
    ensures
        time_item(s, p) == Some(((t, c), p + packed_item(t, c).len())),
{
    reveal_strlit(" ");
    let d = decimal(t as nat);
    let cc = cpus_commas(c);
    let item = packed_item(t, c);
    assert(item == d + " "@ + cc);
    let e1 = p + d.len();
    let e2 = e1 + 1;
    let e3 = p + item.len();
    crate::text::lemma_decimal(t as nat);
    lemma_cpus_commas_chars(c);
    assert forall|k: int| p <= k < e1 implies is_digit(#[trigger] s[k]) by {
        assert(s[k] == item[k - p]);
        assert(item[k - p] == d[k - p]);
    }
    assert(s[e1] == item[d.len() as int]);
    assert(s[e1] == ' ');
    lemma_digits_end_run(s, p, e1);
    assert(s[e2] == item[d.len() + 1int]);
    assert(s[e2] == cc[0]);
    assert(space_end(s, e1 + 1) == e2);
    assert(space_end(s, e1) == e2);
    assert forall|k: int| e2 <= k < e3 implies is_cpu_list_char(#[trigger] s[k]) by {
        assert(s[k] == item[k - p]);
        assert(item[k - p] == cc[k - e2]);
    }
    lemma_cpu_list_end_run(s, e2, e3);
    assert(s.subrange(p, e1) =~= d);
    assert forall|k: int| 0 <= k < cc.len() implies #[trigger] s.subrange(e2, e3)[k] == cc[k] by {
        assert(s[e2 + k] == item[e2 + k - p]);
        assert(item[e2 + k - p] == cc[k]);
    }
    assert(s.subrange(e2, e3) =~= cc);
    lemma_parse_cpus_commas(c);
}

/// A space followed by a digit is a run of one space.
proof fn lemma_space_then_digit(s: Seq<char>, p: int)
    requires
        0 <= p,
        p + 1 < s.len(),
        s[p] == ' ',
        is_digit(s[p + 1]),
    ensures
        space_end(s, p) == p + 1,
{
    assert(space_end(s, p + 1) == p + 1);
}

/// The items of `P t1 c1 t2 c2 ...` after `P`: the times with their CPUs.
proof fn lemma_items_of_packed(pre: Seq<char>, g: Seq<(u64, Seq<CpuID>)>)
    requires
        g.len() > 0,
        forall|k: int| 0 <= k < g.len() ==> (#[trigger] g[k]).1.len() > 0 && g[k].1.no_duplicates(),
    ensures
        time_items_from(pre + " "@ + packed_text(g), pre.len() as int) == g,
    decreases g.len(),
{
    reveal_strlit(" ");
    let s = pre + " "@ + packed_text(g);
    let p = pre.len() as int;
    let item = packed_item(g[0].0, g[0].1);
    let rest = g.drop_first();
    assert(g[0].1.len() > 0);
    let x = packed_text(g);
    let pre2 = pre + " "@ + item;
    assert(x.len() >= item.len() && x.subrange(0, item.len() as int) == item
        && (x.len() == item.len() || x[item.len() as int] == ' ')
        && (g.len() >= 2 ==> x == item + " "@ + packed_text(rest))) by {
        if g.len() == 1 {
            assert(x == item);
            assert(x.subrange(0, item.len() as int) =~= item);
        } else {
            lemma_packed_text_first(g);
            assert(x.subrange(0, item.len() as int) =~= item);
        }
    }
    assert(s[p] == ' ');
    assert(s.subrange(p + 1, p + 1 + item.len()) =~= item) by {
        assert forall|k: int| 0 <= k < item.len() implies #[trigger] s.subrange(p + 1, p + 1 + item.len())[k] == item[k] by {
            assert(s[p + 1 + k] == x[k]);
            assert(x[k] == x.subrange(0, item.len() as int)[k]);
        }
    }
    assert(space_end(s, p) == p + 1) by {
        lemma_cpus_commas_chars(g[0].1);
        crate::text::lemma_decimal(g[0].0 as nat);
        assert(item[0] == decimal(g[0].0 as nat)[0]);
        assert(s[p + 1] == item[0]);
        lemma_space_then_digit(s, p);
    }
    if g.len() == 1 {
        lemma_time_item_at(s, p + 1, g[0].0, g[0].1);
        assert(time_items_from(s, s.len() as int) == Seq::<(u64, Seq<CpuID>)>::empty());
        assert(g =~= seq![g[0]]);
    } else {
        assert(s =~= pre2 + " "@ + packed_text(rest));
        assert(s[p + 1 + item.len()] == ' ') by {
            assert(s[p + 1 + item.len()] == x[item.len() as int]);
        }
        lemma_time_item_at(s, p + 1, g[0].0, g[0].1);
        assert forall|k: int| 0 <= k < rest.len() implies (#[trigger] rest[k]).1.len() > 0 && rest[k].1.no_duplicates() by {
            assert(rest[k] == g[k + 1]);
        }
        lemma_items_of_packed(pre2, rest);
        assert(g =~= seq![g[0]] + rest);
    }
}

/// The text that `packed_to_string` makes of times that each have CPUs, none twice,
/// handed to the setters from text, gives back the same times with the same CPUs, in
/// order.
pub proof fn law_packed_text_round_trip(g: Seq<(u64, Seq<CpuID>)>)
    requires
        g.len() > 0,
        forall|k: int| 0 <= k < g.len() ==> (#[trigger] g[k]).1.len() > 0 && g[k].1.no_duplicates(),
    ensures
        time_items(packed_text(g)) == Some(g),
{
    reveal_strlit(" ");
    let x = packed_text(g);
    let item = packed_item(g[0].0, g[0].1);
    let rest = g.drop_first();
    assert(g[0].1.len() > 0);
    if g.len() == 1 {
        assert(x == item);
        assert(x.subrange(0, item.len() as int) =~= item);
        lemma_time_item_at(x, 0, g[0].0, g[0].1);
        assert(time_items_from(x, x.len() as int) == Seq::<(u64, Seq<CpuID>)>::empty());
        assert(g =~= seq![g[0]]);
    } else {
        assert(x == item + " "@ + packed_text(rest)) by {
            lemma_packed_text_first(g);
        }
        assert(x.subrange(0, item.len() as int) =~= item);
        assert(x[item.len() as int] == ' ');
        lemma_time_item_at(x, 0, g[0].0, g[0].1);
        assert forall|k: int| 0 <= k < rest.len() implies (#[trigger] rest[k]).1.len() > 0 && rest[k].1.no_duplicates() by {
            assert(rest[k] == g[k + 1]);
        }
        lemma_items_of_packed(item, rest);
        assert(g =~= seq![g[0]] + rest);
    }
}


/// The CPUs among the first `n` whose time is `t` are exactly those positions.
proof fn lemma_cpus_with_time(times: Seq<u64>, t: u64, n: int)
    requires
        0 <= n <= times.len(),
        times.len() <= 0x1_0000_0000,
    ensures
        forall|c: CpuID| #[trigger] cpus_with_time(times, t, n).contains(c) <==> (c < n && times[c as int] == t),
    decreases n,
{
    if n > 0 {
        lemma_cpus_with_time(times, t, n - 1);
        let prev = cpus_with_time(times, t, n - 1);
        if times[n - 1] == t {
            let cur = prev.push((n - 1) as CpuID);
            assert(((n - 1) as CpuID) as int == n - 1);
            assert(cur[prev.len() as int] == (n - 1) as CpuID);
            assert forall|c: CpuID| #[trigger] cur.contains(c) <==> (c < n && times[c as int] == t) by {
                if cur.contains(c) && c != (n - 1) as CpuID {
                    let j = choose|j: int| 0 <= j < cur.len() && cur[j] == c;
                    assert(j < prev.len());
                    assert(prev[j] == c);
                    assert(prev.contains(c));
                }
                if c < n && times[c as int] == t {
                    if c == n - 1 {
                        assert(c == (n - 1) as CpuID);
                        assert(cur[prev.len() as int] == c);
                    } else {
                        assert(prev.contains(c));
                        let j = choose|j: int| 0 <= j < prev.len() && prev[j] == c;
                        assert(cur[j] == c);
                    }
                }
            }
        } else {
            assert forall|c: CpuID| #[trigger] prev.contains(c) <==> (c < n && times[c as int] == t) by {
                if c == n - 1 {
                    assert(times[c as int] != t);
                }
            }
        }
    }
}

/// The groups of CPUs by time place every CPU whose time is not zero in the group of its
/// time, and a group holds only CPUs with its time, which is not zero.
pub proof fn law_grouping_places_every_cpu(times: Seq<u64>, groups: Seq<(u64, Seq<CpuID>)>)
    requires
        is_grouping(times, groups),
        times.len() <= 0x1_0000_0000,
    ensures
        forall|i: int|
            0 <= i < times.len() && times[i] != 0 ==> exists|k: int|
                0 <= k < groups.len() && (#[trigger] groups[k]).0 == times[i] && groups[k].1.contains(
                    i as CpuID,
                ),
        forall|k: int, c: CpuID|
            0 <= k < groups.len() && #[trigger] groups[k].1.contains(c) ==> c < times.len()
                && times[c as int] == groups[k].0 && groups[k].0 != 0,
{
    assert forall|i: int| 0 <= i < times.len() && times[i] != 0 implies exists|k: int|
        0 <= k < groups.len() && (#[trigger] groups[k]).0 == times[i] && groups[k].1.contains(
            i as CpuID,
        ) by {
        assert(time_grouped(groups, times[i]));
        let k = choose|k: int| 0 <= k < groups.len() && groups[k].0 == times[i];
        lemma_cpus_with_time(times, groups[k].0, times.len() as int);
        assert((i as CpuID) as int == i);
        assert(groups[k].1.contains(i as CpuID));
    }
    assert forall|k: int, c: CpuID|
        0 <= k < groups.len() && #[trigger] groups[k].1.contains(c) implies c < times.len()
            && times[c as int] == groups[k].0 && groups[k].0 != 0 by {
        lemma_cpus_with_time(times, groups[k].0, times.len() as int);
    }
}


/// Times in decimal, separated by single spaces, as the kernel reports one per CPU.
pub open spec fn spaced_times(times: Seq<u64>) -> Seq<char>
    decreases times.len(),
{
    if times.len() <= 1 {
        if times.len() == 0 {
            seq![]
        } else {
            decimal(times[0] as nat)
        }
    } else {
        decimal(times[0] as nat) + " "@ + spaced_times(times.drop_first())
    }
}

proof fn lemma_spaced_times_ends(times: Seq<u64>)
    requires
        times.len() > 0,
    ensures
        spaced_times(times).len() > 0,
        is_digit(spaced_times(times)[0]),
        is_digit(spaced_times(times)[spaced_times(times).len() - 1]),
    decreases times.len(),
{
    crate::text::lemma_decimal(times[0] as nat);
    let d = decimal(times[0] as nat);
    assert(is_digit(d[0]));
    assert(is_digit(d[d.len() - 1]));
    if times.len() > 1 {
        lemma_spaced_times_ends(times.drop_first());
        let r = spaced_times(times.drop_first());
        assert(spaced_times(times)[spaced_times(times).len() - 1] == r[r.len() - 1]);
    }
}

/// The tokens of spaced times that follow any text `pre` are the times in decimal.
proof fn lemma_spaced_tokens(pre: Seq<char>, times: Seq<u64>)
    requires
        times.len() > 0,
    ensures
        crate::text::tokens_from(pre + spaced_times(times), pre.len() as int) == times.map_values(
            |t: u64| decimal(t as nat),
        ),
    decreases times.len(),
{
    reveal_strlit(" ");
    let s = pre + spaced_times(times);
    let i = pre.len() as int;
    let d = decimal(times[0] as nat);
    crate::text::lemma_decimal(times[0] as nat);
    let e = i + d.len();
    assert forall|k: int| i <= k < e implies !crate::text::is_ascii_whitespace(#[trigger] s[k]) by {
        assert(s[k] == d[k - i]);
        assert(is_digit(d[k - i]));
    }
    assert(is_digit(d[0]));
    assert(s[i] == d[0]);
    if times.len() == 1 {
        assert(s =~= pre + d);
        crate::cgroup::hcbs::uni::lemma_token_end_run(s, i, e);
        assert(s.subrange(i, e) =~= d);
        assert(crate::text::tokens_from(s, e) == Seq::<Seq<char>>::empty());
        assert(times.map_values(|t: u64| decimal(t as nat)) =~= seq![d]);
    } else {
        let rest = times.drop_first();
        let pre2 = pre + d + " "@;
        assert(s =~= pre2 + spaced_times(rest));
        assert(s[e] == ' ');
        crate::cgroup::hcbs::uni::lemma_token_end_run(s, i, e);
        assert(s.subrange(i, e) =~= d);
        lemma_spaced_times_ends(rest);
        assert(crate::text::tokens_from(s, e) == crate::text::tokens_from(s, e + 1));
        lemma_spaced_tokens(pre2, rest);
        assert(times.map_values(|t: u64| decimal(t as nat)) =~= seq![d] + rest.map_values(
            |t: u64| decimal(t as nat),
        ));
    }
}

proof fn lemma_parse_decimal_times(times: Seq<u64>)
    ensures
        parse_times(times.map_values(|t: u64| decimal(t as nat))) == Some(times),
    decreases times.len(),
{
    if times.len() > 0 {
        let ls = times.map_values(|t: u64| decimal(t as nat));
        assert(ls.drop_last() =~= times.drop_last().map_values(|t: u64| decimal(t as nat)));
        lemma_parse_decimal_times(times.drop_last());
        crate::text::lemma_parse_decimal(times.last() as nat, u64::MAX as nat);
        assert(times.drop_last().push(times.last()) =~= times);
    }
}

/// The text of one time per CPU, separated by spaces and with any trailing line feed,
/// reads back as the times, every CPU's in its position.
pub proof fn law_spaced_times_read_back(times: Seq<u64>)
    requires
        times.len() > 0,
    ensures
        times_of(spaced_times(times)) == Some(times),
        times_of(spaced_times(times) + "\n"@) == Some(times),
{
    reveal_strlit("\n");
    let s = spaced_times(times);
    lemma_spaced_times_ends(times);
    crate::text::lemma_trim_unchanged(s);
    lemma_spaced_tokens(Seq::<char>::empty(), times);
    assert(Seq::<char>::empty() + s =~= s);
    lemma_parse_decimal_times(times);
    let t = s + "\n"@;
    crate::text::lemma_skip_whitespace_back(t, 0, t.len() as int);
    let r = crate::text::skip_whitespace_back(t, 0, t.len() as int);
    assert(t[0] == s[0]);
    assert(crate::text::skip_whitespace(t, 0) == 0);
    assert(t[s.len() - 1] == s[s.len() - 1]);
    if r < s.len() {
        assert(crate::text::is_whitespace(t[s.len() - 1]));
    }
    assert(r == t.len() - 1 || r == s.len());
    assert(t.subrange(0, s.len() as int) =~= s);
    assert(crate::text::trim(t) == s);
}

} // verus!
