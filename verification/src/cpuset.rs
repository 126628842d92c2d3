//! Sets of CPUs: the list format of `/sys/devices/system/cpu/online` and of
//! cgroup files (`0-3,6, 8-9`), sets checked against the CPUs of the machine,
//! and the affinity masks of the kernel.
use nix::sched::CpuSet as NixCpuSet;
use vstd::prelude::*;

use crate::common::CpuID;
use crate::text::{
    all_digits, decimal, digit, digits_value, is_digit, parse_unsigned_range, push_decimal, push_str,
    str_chars, to_owned_string,
};

verus! {

// ---------------------------------------------------------------------------
// The CPU list format
// ---------------------------------------------------------------------------

/// The end of the run of ASCII digits that starts at `i`.
pub open spec fn digits_end(s: Seq<char>, i: int) -> int
    decreases s.len() - i,
{
    if 0 <= i < s.len() && is_digit(s[i]) {
        digits_end(s, i + 1)
    } else {
        i
    }
}

pub proof fn lemma_digits_end(s: Seq<char>, i: int)
    requires
        0 <= i <= s.len(),
    ensures
        i <= digits_end(s, i) <= s.len(),
        all_digits(s.subrange(i, digits_end(s, i))),
        digits_end(s, i) < s.len() ==> !is_digit(s[digits_end(s, i)]),
    decreases s.len() - i,
{
    if i < s.len() && is_digit(s[i]) {
        lemma_digits_end(s, i + 1);
        assert forall|k: int| 0 <= k < s.subrange(i, digits_end(s, i)).len() implies is_digit(
            #[trigger] s.subrange(i, digits_end(s, i))[k],
        ) by {
            if k > 0 {
                assert(s.subrange(i, digits_end(s, i))[k] == s.subrange(i + 1, digits_end(s, i))[k
                    - 1]);
            }
        }
    }
}

/// A run of digits at `i` that ends at `j` is the digit run at `i`.
pub proof fn lemma_digits_end_run(s: Seq<char>, i: int, j: int)
    requires
        0 <= i <= j <= s.len(),
        forall|k: int| i <= k < j ==> is_digit(#[trigger] s[k]),
        j == s.len() || !is_digit(s[j]),
    ensures
        digits_end(s, i) == j,
    decreases j - i,
{
    if i < j {
        lemma_digits_end_run(s, i + 1, j);
    }
}

/// A CPU number at `i`: one or more ASCII digits whose value fits a `CpuID`,
/// with the index where it ends.
pub open spec fn cpu_number(s: Seq<char>, i: int) -> Option<(CpuID, int)> {
    let e = digits_end(s, i);
    if i < e && digits_value(s.subrange(i, e)) <= u32::MAX {
        Some((digits_value(s.subrange(i, e)) as CpuID, e))
    } else {
        None
    }
}

/// An item of the list at `i`: a range `a-b` with `a <= b`, or else a single CPU `a`,
/// which stands for the range `a-a`; with the index where the item ends.
pub open spec fn cpu_item(s: Seq<char>, i: int) -> Option<((CpuID, CpuID), int)> {
    match cpu_number(s, i) {
        None => None,
        Some((a, e1)) => {
            let range = if 0 <= e1 < s.len() && s[e1] == '-' {
                match cpu_number(s, e1 + 1) {
                    Some((b, e2)) => if a <= b {
                        Some(((a, b), e2))
                    } else {
                        None
                    },
                    None => None,
                }
            } else {
                None
            };
            match range {
                Some(r) => Some(r),
                None => Some(((a, a), e1)),
            }
        },
    }
}

/// Space, tab, carriage return or line feed: what may follow a comma.
pub open spec fn is_multispace(c: char) -> bool {
    c == ' ' || c == '\t' || c == '\r' || c == '\n'
}

/// The first index at or after `i` that holds no space, tab, carriage return or line feed.
pub open spec fn multispace_end(s: Seq<char>, i: int) -> int
    decreases s.len() - i,
{
    if 0 <= i < s.len() && is_multispace(s[i]) {
        multispace_end(s, i + 1)
    } else {
        i
    }
}

pub proof fn lemma_multispace_end(s: Seq<char>, i: int)
    requires
        0 <= i <= s.len(),
    ensures
        i <= multispace_end(s, i) <= s.len(),
    decreases s.len() - i,
{
    if i < s.len() && is_multispace(s[i]) {
        lemma_multispace_end(s, i + 1);
    }
}

pub proof fn lemma_cpu_item_end(s: Seq<char>, i: int)
    requires
        0 <= i <= s.len(),
    ensures
        cpu_item(s, i) matches Some((_, e)) ==> i < e <= s.len(),
{
    lemma_digits_end(s, i);
    let e1 = digits_end(s, i);
    if 0 <= e1 < s.len() {
        lemma_digits_end(s, e1 + 1);
    }
}

/// The items that follow an item ending at `i`: each after a comma and optional
/// whitespace. The list stops, keeping what it has, where no item follows a comma.
pub open spec fn cpu_items_from(s: Seq<char>, i: int) -> Seq<(CpuID, CpuID)>
    decreases s.len() - i,
{
    if 0 <= i < s.len() && s[i] == ',' {
        proof {
            lemma_multispace_end(s, i + 1);
            lemma_cpu_item_end(s, multispace_end(s, i + 1));
        }
        match cpu_item(s, multispace_end(s, i + 1)) {
            None => seq![],
            Some((item, e)) => seq![item] + cpu_items_from(s, e),
        }
    } else {
        seq![]
    }
}

/// The items of a CPU list: at least one item at the start of the text, then the items
/// that follow it. What stands after the last item is ignored.
pub open spec fn cpu_items(s: Seq<char>) -> Option<Seq<(CpuID, CpuID)>> {
    match cpu_item(s, 0) {
        None => None,
        Some((item, e)) => Some(seq![item] + cpu_items_from(s, e)),
    }
}

/// The CPUs `a, a + 1, ..., b` of a range.
pub open spec fn range_cpus(a: CpuID, b: CpuID) -> Seq<CpuID> {
    Seq::new((b - a + 1) as nat, |k: int| (a + k) as CpuID)
}

/// The CPUs of a list of ranges, in order and with repetitions.
pub open spec fn expand_items(items: Seq<(CpuID, CpuID)>) -> Seq<CpuID>
    decreases items.len(),
{
    if items.len() == 0 {
        seq![]
    } else {
        expand_items(items.drop_last()) + range_cpus(items.last().0, items.last().1)
    }
}

/// The CPUs of `s` after adding those of `t` in turn, each one only where it is not
/// there already.
pub open spec fn add_cpus(s: Seq<CpuID>, t: Seq<CpuID>) -> Seq<CpuID>
    decreases t.len(),
{
    if t.len() == 0 {
        s
    } else {
        with_cpu(add_cpus(s, t.drop_last()), t.last())
    }
}

/// The CPUs of `t`, each once, in the order in which they first occur.
pub open spec fn distinct_cpus(t: Seq<CpuID>) -> Seq<CpuID> {
    add_cpus(seq![], t)
}

/// The set of CPUs that a text in the CPU list format names: each CPU of its items once,
/// in the order in which it is first named; `None` where the text is not in that format.
pub open spec fn parse_cpu_list(s: Seq<char>) -> Option<Seq<CpuID>> {
    match cpu_items(s) {
        None => None,
        Some(items) => Some(distinct_cpus(expand_items(items))),
    }
}

/// Adding the CPUs of two lists is adding those of the first, then those of the second.
pub proof fn lemma_add_cpus_concat(s: Seq<CpuID>, t1: Seq<CpuID>, t2: Seq<CpuID>)
    ensures
        add_cpus(s, t1 + t2) == add_cpus(add_cpus(s, t1), t2),
    decreases t2.len(),
{
    if t2.len() == 0 {
        assert(t1 + t2 =~= t1);
    } else {
        assert((t1 + t2).drop_last() =~= t1 + t2.drop_last());
        assert((t1 + t2).last() == t2.last());
        lemma_add_cpus_concat(s, t1, t2.drop_last());
    }
}

/// Adding CPUs to a set without repetitions keeps it without repetitions, and the result
/// holds exactly the CPUs of both.
pub proof fn lemma_add_cpus(s: Seq<CpuID>, t: Seq<CpuID>)
    requires
        s.no_duplicates(),
    ensures
        add_cpus(s, t).no_duplicates(),
        forall|x: CpuID| #[trigger] add_cpus(s, t).contains(x) <==> (s.contains(x) || t.contains(x)),
    decreases t.len(),
{
    if t.len() > 0 {
        lemma_add_cpus(s, t.drop_last());
        let prev = add_cpus(s, t.drop_last());
        law_add_cpu_no_duplicates(prev, t.last());
        assert forall|x: CpuID| #[trigger] add_cpus(s, t).contains(x) <==> (s.contains(x)
            || t.contains(x)) by {
            law_add_cpu_members(prev, t.last(), x);
            if t.drop_last().contains(x) {
                let i = choose|i: int| 0 <= i < t.drop_last().len() && t.drop_last()[i] == x;
                assert(t[i] == x);
            }
            if t.contains(x) && x != t.last() {
                let i = choose|i: int| 0 <= i < t.len() && t[i] == x;
                assert(i != t.len() - 1);
                assert(t.drop_last()[i] == x);
            }
            assert(t[t.len() - 1] == t.last());
        }
    }
}

/// A list of CPUs without repetitions is its own set of distinct CPUs.
pub proof fn lemma_distinct_cpus_unchanged(t: Seq<CpuID>)
    requires
        t.no_duplicates(),
    ensures
        distinct_cpus(t) == t,
    decreases t.len(),
{
    if t.len() > 0 {
        assert(t.drop_last().no_duplicates());
        lemma_distinct_cpus_unchanged(t.drop_last());
        assert(!t.drop_last().contains(t.last())) by {
            if t.drop_last().contains(t.last()) {
                let i = choose|i: int| 0 <= i < t.drop_last().len() && t.drop_last()[i] == t.last();
                assert(t[i] == t[t.len() - 1]);
            }
        }
        assert(t.drop_last().push(t.last()) =~= t);
    }
}

/// The CPUs that a CPU list names form a set: no CPU occurs twice, and a CPU is there
/// exactly where one of the items names it.
pub proof fn law_parsed_cpus_distinct(s: Seq<char>, x: CpuID)
    requires
        parse_cpu_list(s) is Some,
    ensures
        parse_cpu_list(s).unwrap().no_duplicates(),
        parse_cpu_list(s).unwrap().contains(x) <==> expand_items(cpu_items(s).unwrap()).contains(x),
{
    let t = expand_items(cpu_items(s).unwrap());
    lemma_add_cpus(seq![], t);
    assert(!Seq::<CpuID>::empty().contains(x));
}

pub(crate) fn scan_digits(s: &Vec<char>, i: usize) -> (e: usize)
    requires
        i <= s@.len(),
    ensures
        e == digits_end(s@, i as int),
{
    let mut e: usize = i;
    while e < s.len() && digit(s[e])
        invariant
            i <= e <= s@.len(),
            digits_end(s@, e as int) == digits_end(s@, i as int),
        decreases s@.len() - e,
    {
        e = e + 1;
    }
    e
}

fn scan_multispace(s: &Vec<char>, i: usize) -> (e: usize)
    requires
        i <= s@.len(),
    ensures
        e == multispace_end(s@, i as int),
{
    let mut e: usize = i;
    while e < s.len() && (s[e] == ' ' || s[e] == '\t' || s[e] == '\r' || s[e] == '\n')
        invariant
            i <= e <= s@.len(),
            multispace_end(s@, e as int) == multispace_end(s@, i as int),
        decreases s@.len() - e,
    {
        e = e + 1;
    }
    e
}

fn cpu_number_at(s: &Vec<char>, i: usize) -> (r: Option<(CpuID, usize)>)
    requires
        i <= s@.len(),
    ensures
        match r {
            Some((n, e)) => cpu_number(s@, i as int) == Some((n, e as int)),
            None => cpu_number(s@, i as int) is None,
        },
{
    let e = scan_digits(s, i);
    proof {
        lemma_digits_end(s@, i as int);
    }
    if e == i {
        return None;
    }
    let ghost t = s@.subrange(i as int, e as int);
    assert(is_digit(t[0]));
    match parse_unsigned_range(s, i, e, u32::MAX as u64) {
        Some(n) => Some((n as CpuID, e)),
        None => None,
    }
}

fn cpu_item_at(s: &Vec<char>, i: usize) -> (r: Option<(CpuID, CpuID, usize)>)
    requires
        i <= s@.len(),
    ensures
        match r {
            Some((a, b, e)) => cpu_item(s@, i as int) == Some(((a, b), e as int)),
            None => cpu_item(s@, i as int) is None,
        },
{
    match cpu_number_at(s, i) {
        None => None,
        Some((a, e1)) => {
            proof {
                lemma_digits_end(s@, i as int);
            }
            if e1 < s.len() && s[e1] == '-' {
                match cpu_number_at(s, e1 + 1) {
                    Some((b, e2)) => {
                        if a <= b {
                            return Some((a, b, e2));
                        }
                    },
                    None => {},
                }
            }
            Some((a, a, e1))
        },
    }
}

/// Adds the CPUs `a, a + 1, ..., b`, each one only where it is not there already.
fn add_range(out: &mut Vec<CpuID>, a: CpuID, b: CpuID)
    requires
        a <= b,
    ensures
        final(out)@ == add_cpus(old(out)@, range_cpus(a, b)),
{
    let mut c: CpuID = a;
    loop
        invariant
            a <= c <= b,
            out@ == add_cpus(old(out)@, range_cpus(a, c).drop_last()),
        decreases b - c,
    {
        if !contains_cpu(out, c) {
            out.push(c);
        }
        assert(range_cpus(a, c) =~= range_cpus(a, c).drop_last().push(c));
        if c == b {
            return;
        }
        assert(range_cpus(a, (c + 1) as CpuID).drop_last() =~= range_cpus(a, c));
        c = c + 1;
    }
}

/// The CPUs that the text `s` names in the CPU list format.
pub(crate) fn parse_cpu_list_chars(s: &Vec<char>) -> (r: Option<Vec<CpuID>>)
    ensures
        match r {
            Some(v) => parse_cpu_list(s@) == Some(v@),
            None => parse_cpu_list(s@) is None,
        },
{
    let (a, b, e) = match cpu_item_at(s, 0) {
        None => {
            return None;
        },
        Some(item) => item,
    };
    let ghost first = (a, b);
    let mut out: Vec<CpuID> = Vec::new();
    add_range(&mut out, a, b);
    let ghost mut items: Seq<(CpuID, CpuID)> = seq![(a, b)];
    assert(items.drop_last() =~= Seq::<(CpuID, CpuID)>::empty());
    assert(expand_items(Seq::<(CpuID, CpuID)>::empty()) =~= Seq::<CpuID>::empty());
    assert(expand_items(items) =~= range_cpus(a, b));
    assert(out@ == distinct_cpus(expand_items(items)));
    let mut i: usize = e;
    proof {
        lemma_cpu_item_end(s@, 0);
    }
    loop
        invariant
            0 < i <= s@.len(),
            cpu_items(s@) == Some(items + cpu_items_from(s@, i as int)),
            out@ == distinct_cpus(expand_items(items)),
        decreases s@.len() - i,
    {
        if i >= s.len() || s[i] != ',' {
            assert(items + cpu_items_from(s@, i as int) =~= items);
            return Some(out);
        }
        let j = scan_multispace(s, i + 1);
        proof {
            lemma_multispace_end(s@, i + 1);
            lemma_cpu_item_end(s@, j as int);
        }
        match cpu_item_at(s, j) {
            None => {
                assert(items + cpu_items_from(s@, i as int) =~= items);
                return Some(out);
            },
            Some((a, b, e)) => {
                let ghost old_items = items;
                proof {
                    items = items.push((a, b));
                    assert(items.drop_last() =~= old_items);
                    assert(old_items + cpu_items_from(s@, i as int) =~= items + cpu_items_from(
                        s@,
                        e as int,
                    ));
                }
                let ghost before = expand_items(old_items);
                add_range(&mut out, a, b);
                proof {
                    assert(expand_items(items) == before + range_cpus(a, b));
                    lemma_add_cpus_concat(seq![], before, range_cpus(a, b));
                }
                i = e;
            },
        }
    }
}

// ---------------------------------------------------------------------------
// Sets of CPUs
// ---------------------------------------------------------------------------

/// `std::io::Error`, carried by the errors of the library.
#[verifier::external_type_specification]
#[verifier::external_body]
pub struct ExIoError(std::io::Error);

/// Set of valid CPUs on the current machine
#[derive(Debug, Clone, PartialEq)]
pub struct CpuSet {
    cpus: Vec<CpuID>,
}

/// Set of CPUs
///
/// Differs from [CpuSet] as it is not yet known if the machine has such CPUs
/// available.
#[derive(Debug, Clone, PartialEq)]
pub struct CpuSetUnchecked {
    cpus: Vec<CpuID>,
}

#[derive(Debug)]
pub enum CpuSetBuildError {
    IO(std::io::Error),
    ParseError(String),
    UnavailableCPU(CpuID),
    UnavailableCPUs,
}

impl View for CpuSet {
    type V = Seq<CpuID>;

    closed spec fn view(&self) -> Seq<CpuID> {
        self.cpus@
    }
}

impl View for CpuSetUnchecked {
    type V = Seq<CpuID>;

    closed spec fn view(&self) -> Seq<CpuID> {
        self.cpus@
    }
}

/// The message of a text that is not in the CPU list format.
pub open spec fn parse_error_message() -> Seq<char> {
    "Parsing Error: ()"@
}

/// The CPUs after adding `cpu`: unchanged when it is there already, else `cpu` at the end.
pub open spec fn with_cpu(s: Seq<CpuID>, cpu: CpuID) -> Seq<CpuID> {
    if s.contains(cpu) {
        s
    } else {
        s.push(cpu)
    }
}

/// The CPUs after removing `cpu`: its first occurrence takes the last CPU, which leaves
/// the end; unchanged when `cpu` is not there.
pub open spec fn without_cpu(s: Seq<CpuID>, cpu: CpuID) -> Seq<CpuID> {
    if s.contains(cpu) {
        let i = first_index(s, cpu);
        s.update(i, s.last()).drop_last()
    } else {
        s
    }
}

/// The index of the first occurrence of `cpu` in `s`, where it occurs.
pub open spec fn first_index(s: Seq<CpuID>, cpu: CpuID) -> int {
    choose|i: int| 0 <= i < s.len() && s[i] == cpu && forall|j: int| 0 <= j < i ==> #[trigger] s[j] != cpu
}

/// The index of the first CPU of `s` that `all` does not hold, if any.
pub open spec fn first_unavailable(s: Seq<CpuID>, all: Seq<CpuID>) -> Option<int> {
    if exists|i: int| 0 <= i < s.len() && !all.contains(s[i]) {
        Some(choose|i: int|
            0 <= i < s.len() && !all.contains(s[i]) && forall|j: int|
                0 <= j < i ==> all.contains(#[trigger] s[j]))
    } else {
        None
    }
}

/// Whether `cpu` is one of `v[..]`.
fn contains_cpu(v: &Vec<CpuID>, cpu: CpuID) -> (b: bool)
    ensures
        b == v@.contains(cpu),
{
    let mut i: usize = 0;
    while i < v.len()
        invariant
            0 <= i <= v@.len(),
            forall|k: int| 0 <= k < i ==> v@[k] != cpu,
        decreases v@.len() - i,
    {
        if v[i] == cpu {
            assert(v@[i as int] == cpu);
            return true;
        }
        i = i + 1;
    }
    false
}

/// `[a, b, c]`: the CPUs in decimal, separated by a comma and a space, in brackets.
pub open spec fn cpus_display(s: Seq<CpuID>) -> Seq<char> {
    "["@ + cpus_joined(s) + "]"@
}

/// The CPUs in decimal, separated by a comma and a space.
pub open spec fn cpus_joined(s: Seq<CpuID>) -> Seq<char>
    decreases s.len(),
{
    if s.len() == 0 {
        seq![]
    } else if s.len() == 1 {
        decimal(s[0] as nat)
    } else {
        cpus_joined(s.drop_last()) + ", "@ + decimal(s.last() as nat)
    }
}

fn display_cpus(cpus: &Vec<CpuID>) -> (r: String)
    ensures
        r@ == cpus_display(cpus@),
{
    let mut r = String::new();
    push_str(&mut r, "[");
    let ghost start = r@;
    let mut i: usize = 0;
    while i < cpus.len()
        invariant
            0 <= i <= cpus@.len(),
            start == "["@,
            r@ == start + cpus_joined(cpus@.subrange(0, i as int)),
        decreases cpus@.len() - i,
    {
        let ghost before = r@;
        if i > 0 {
            push_str(&mut r, ", ");
        }
        push_decimal(&mut r, cpus[i] as u64);
        let ghost sub = cpus@.subrange(0, i + 1);
        assert(sub.drop_last() =~= cpus@.subrange(0, i as int));
        if i == 0 {
            assert(cpus_joined(cpus@.subrange(0, 0)) =~= Seq::<char>::empty());
            assert(r@ =~= start + cpus_joined(sub));
        } else {
            assert(r@ =~= start + cpus_joined(sub));
        }
        i = i + 1;
    }
    assert(cpus@.subrange(0, cpus@.len() as int) =~= cpus@);
    push_str(&mut r, "]");
    r
}

impl CpuSet {
    /// Create a CpuSet with only the given CPU, if available among `all`, the CPUs of
    /// the machine
    pub fn single(cpu: CpuID, all: &CpuSet) -> (r: Result<CpuSet, CpuSetBuildError>)
        ensures
            all@.contains(cpu) ==> (r matches Ok(set) && set@ == seq![cpu]),
            !all@.contains(cpu) ==> (r matches Err(CpuSetBuildError::UnavailableCPU(c)) && c == cpu),
    {
        if contains_cpu(&all.cpus, cpu) {
            let mut cpus: Vec<CpuID> = Vec::new();
            cpus.push(cpu);
            Ok(CpuSet { cpus })
        } else {
            Err(CpuSetBuildError::UnavailableCPU(cpu))
        }
    }

    /// Create an empty CpuSet
    pub fn empty() -> (r: CpuSet)
        ensures
            r@ == Seq::<CpuID>::empty(),
    {
        CpuSet { cpus: Vec::new() }
    }

    /// Create a CpuSet containing all cpus, from the text of
    /// `/sys/devices/system/cpu/online`
    pub fn all(online_cpus: &str) -> (r: Result<CpuSet, CpuSetBuildError>)
        ensures
            match parse_cpu_list(online_cpus@) {
                Some(cpus) => r matches Ok(set) && set@ == cpus && set@.no_duplicates(),
                None => r matches Err(CpuSetBuildError::ParseError(m)) && m@ == parse_error_message(),
            },
    {
        match CpuSetUnchecked::from_str(online_cpus) {
            Ok(set) => Ok(CpuSet { cpus: set.cpus }),
            Err(m) => Err(CpuSetBuildError::ParseError(m)),
        }
    }

    /// Create a CpuSet containing the first `num_cpus` CPUs of `all`
    pub fn any_subset(num_cpus: u64, all: &CpuSet) -> (r: Result<CpuSet, CpuSetBuildError>)
        ensures
            num_cpus as usize <= all@.len() ==> (r matches Ok(set) && set@ == all@.take(
                num_cpus as usize as int,
            )),
            num_cpus as usize > all@.len() ==> r matches Err(CpuSetBuildError::UnavailableCPUs),
    {
        let n = num_cpus as usize;
        if n > all.cpus.len() {
            return Err(CpuSetBuildError::UnavailableCPUs);
        }
        let mut cpus: Vec<CpuID> = Vec::new();
        let mut i: usize = 0;
        while i < n
            invariant
                n <= all@.len(),
                0 <= i <= n,
                cpus@ == all@.take(i as int),
            decreases n - i,
        {
            cpus.push(all.cpus[i]);
            assert(all@.take(i + 1) =~= all@.take(i as int).push(all@[i as int]));
            i = i + 1;
        }
        Ok(CpuSet { cpus })
    }

    /// Get if a CPU is in the set
    pub fn has_cpu(&self, cpu: CpuID) -> (b: bool)
        ensures
            b == self@.contains(cpu),
    {
        contains_cpu(&self.cpus, cpu)
    }

    /// Return the number of CPUs in the set
    pub fn num_cpus(&self) -> (n: usize)
        ensures
            n == self@.len(),
    {
        self.cpus.len()
    }

    /// Returns an iterator over the CPU set
    pub fn iter(&self) -> (it: std::slice::Iter<'_, CpuID>)
        ensures
            vstd::std_specs::slice::into_iter_elts(it) == self@,
    {
        self.cpus.iter()
    }

    /// Returns the CPUs of the set for in-place changes
    pub fn iter_mut(&mut self) -> (cpus: &mut [CpuID])
        ensures
            cpus@ == old(self)@,
            final(cpus)@ == final(self)@,
    {
        self.cpus.as_mut_slice()
    }

    /// Creates a consuming iterator over the CPU set
    pub fn into_iter(self) -> (it: std::vec::IntoIter<CpuID>)
        ensures
            vstd::std_specs::vec::into_iter_elts(it) == self@,
    {
        self.cpus.into_iter()
    }

    /// The set as `[a, b, c]`
    pub fn to_string(&self) -> (r: String)
        ensures
            r@ == cpus_display(self@),
    {
        display_cpus(&self.cpus)
    }
}

impl CpuSetUnchecked {
    /// Create an empty CpuSet
    pub fn empty() -> (r: CpuSetUnchecked)
        ensures
            r@ == Seq::<CpuID>::empty(),
    {
        CpuSetUnchecked { cpus: Vec::new() }
    }

    /// Add a CPU to the set
    pub fn add_cpu(self, cpu: CpuID) -> (r: CpuSetUnchecked)
        ensures
            r@ == with_cpu(self@, cpu),
    {
        let mut set = self;
        if !contains_cpu(&set.cpus, cpu) {
            set.cpus.push(cpu);
        }
        set
    }

    /// Remove a CPU from the set
    pub fn remove_cpu(self, cpu: CpuID) -> (r: CpuSetUnchecked)
        ensures
            r@ == without_cpu(self@, cpu),
    {
        let mut set = self;
        let mut i: usize = 0;
        while i < set.cpus.len()
            invariant
                0 <= i <= set.cpus@.len(),
                set.cpus@ == self@,
                forall|k: int| 0 <= k < i ==> set.cpus@[k] != cpu,
            decreases set.cpus@.len() - i,
        {
            if set.cpus[i] == cpu {
                proof {
                    assert(self@[i as int] == cpu);
                    let w = first_index(self@, cpu);
                    assert(0 <= i < self@.len() && self@[i as int] == cpu && forall|j: int|
                        0 <= j < i ==> #[trigger] self@[j] != cpu);
                    if w < i {
                        assert(self@[w] != cpu);
                    }
                    if w > i {
                        assert(self@[i as int] != cpu);
                    }
                }
                set.cpus.swap_remove(i);
                return set;
            }
            i = i + 1;
        }
        set
    }

    /// Get if a CPU is in the set
    pub fn has_cpu(&self, cpu: CpuID) -> (b: bool)
        ensures
            b == self@.contains(cpu),
    {
        contains_cpu(&self.cpus, cpu)
    }

    /// Get the number of CPUs in the set
    pub fn num_cpus(&self) -> (n: usize)
        ensures
            n == self@.len(),
    {
        self.cpus.len()
    }

    /// Returns an iterator over the CPU set
    pub fn iter(&self) -> (it: std::slice::Iter<'_, CpuID>)
        ensures
            vstd::std_specs::slice::into_iter_elts(it) == self@,
    {
        self.cpus.iter()
    }

    /// Returns the CPUs of the set for in-place changes
    pub fn iter_mut(&mut self) -> (cpus: &mut [CpuID])
        ensures
            cpus@ == old(self)@,
            final(cpus)@ == final(self)@,
    {
        self.cpus.as_mut_slice()
    }

    /// Creates a consuming iterator over the CPU set
    pub fn into_iter(self) -> (it: std::vec::IntoIter<CpuID>)
        ensures
            vstd::std_specs::vec::into_iter_elts(it) == self@,
    {
        self.cpus.into_iter()
    }

    /// Parse a CPU list such as `0-3,6, 8-9`
    pub fn from_str(s: &str) -> (r: Result<CpuSetUnchecked, String>)
        ensures
            match parse_cpu_list(s@) {
                Some(cpus) => r matches Ok(set) && set@ == cpus && set@.no_duplicates(),
                None => r matches Err(m) && m@ == parse_error_message(),
            },
    {
        let chars = str_chars(s);
        match parse_cpu_list_chars(&chars) {
            Some(cpus) => {
                proof {
                    law_parsed_cpus_distinct(s@, 0);
                }
                Ok(CpuSetUnchecked { cpus })
            },
            None => Err(to_owned_string("Parsing Error: ()")),
        }
    }

    /// Check the set against `all`, the CPUs of the machine: the first CPU that is not
    /// available makes the error
    pub fn try_into_cpuset(self, all: &CpuSet) -> (r: Result<CpuSet, CpuSetBuildError>)
        ensures
            match first_unavailable(self@, all@) {
                None => r matches Ok(set) && set@ == self@,
                Some(i) => r matches Err(CpuSetBuildError::UnavailableCPU(c)) && c == self@[i],
            },
    {
        let mut i: usize = 0;
        while i < self.cpus.len()
            invariant
                0 <= i <= self@.len(),
                forall|j: int| 0 <= j < i ==> all@.contains(#[trigger] self@[j]),
            decreases self@.len() - i,
        {
            let cpu = self.cpus[i];
            if !contains_cpu(&all.cpus, cpu) {
                proof {
                    let w = choose|k: int|
                        0 <= k < self@.len() && !all@.contains(self@[k]) && forall|j: int|
                            0 <= j < k ==> all@.contains(#[trigger] self@[j]);
                    assert(0 <= i < self@.len() && !all@.contains(self@[i as int]) && forall|j: int|
                            0 <= j < i ==> all@.contains(#[trigger] self@[j]));
                    if w < i {
                        assert(all@.contains(self@[w]));
                    }
                    if w > i {
                        assert(all@.contains(self@[i as int]));
                    }
                }
                return Err(CpuSetBuildError::UnavailableCPU(cpu));
            }
            i = i + 1;
        }
        Ok(CpuSet { cpus: self.cpus })
    }

    /// The set as `[a, b, c]`
    pub fn to_string(&self) -> (r: String)
        ensures
            r@ == cpus_display(self@),
    {
        display_cpus(&self.cpus)
    }
}

impl std::str::FromStr for CpuSetUnchecked {
    type Err = String;

    fn from_str(s: &str) -> (r: Result<Self, Self::Err>)
        ensures
            match parse_cpu_list(s@) {
                Some(cpus) => r matches Ok(set) && set@ == cpus && set@.no_duplicates(),
                None => r matches Err(m) && m@ == parse_error_message(),
            },
    {
        CpuSetUnchecked::from_str(s)
    }
}

// ---------------------------------------------------------------------------
// Laws of the set operations
// ---------------------------------------------------------------------------

/// After adding a CPU the set holds it, and it holds exactly the CPUs it held before
/// and the added one.
pub proof fn law_add_cpu_members(s: Seq<CpuID>, cpu: CpuID, x: CpuID)
    ensures
        with_cpu(s, cpu).contains(cpu),
        with_cpu(s, cpu).contains(x) <==> (s.contains(x) || x == cpu),
{
    if !s.contains(cpu) {
        assert(s.push(cpu)[s.len() as int] == cpu);
        if s.contains(x) {
            let i = choose|i: int| 0 <= i < s.len() && s[i] == x;
            assert(s.push(cpu)[i] == x);
        }
        if s.push(cpu).contains(x) && x != cpu {
            let i = choose|i: int| 0 <= i < s.push(cpu).len() && s.push(cpu)[i] == x;
            assert(s[i] == x);
        }
    }
}

/// Adding a CPU twice is adding it once.
pub proof fn law_add_cpu_idempotent(s: Seq<CpuID>, cpu: CpuID)
    ensures
        with_cpu(with_cpu(s, cpu), cpu) == with_cpu(s, cpu),
{
    law_add_cpu_members(s, cpu, cpu);
}

/// Adding a CPU grows the set by one exactly when the CPU was not there.
pub proof fn law_add_cpu_count(s: Seq<CpuID>, cpu: CpuID)
    ensures
        with_cpu(s, cpu).len() == if s.contains(cpu) { s.len() } else { s.len() + 1 },
{
}

/// Adding keeps a set free of repetitions.
pub proof fn law_add_cpu_no_duplicates(s: Seq<CpuID>, cpu: CpuID)
    requires
        s.no_duplicates(),
    ensures
        with_cpu(s, cpu).no_duplicates(),
{
    if !s.contains(cpu) {
        let t = s.push(cpu);
        assert forall|i: int, j: int| 0 <= i < t.len() && 0 <= j < t.len() && i != j implies t[i]
            != t[j] by {
            if i < s.len() && j < s.len() {
                assert(s[i] != s[j]);
            } else if i < s.len() {
                assert(s[i] != cpu);
            } else if j < s.len() {
                assert(s[j] != cpu);
            }
        }
    }
}

/// Removing a CPU shrinks the set by one exactly when the CPU was there.
pub proof fn law_remove_cpu_count(s: Seq<CpuID>, cpu: CpuID)
    ensures
        without_cpu(s, cpu).len() == if s.contains(cpu) { s.len() - 1 } else { s.len() as int },
{
    if s.contains(cpu) {
        lemma_first_index(s, cpu);
    }
}

/// The first occurrence of a CPU that the set holds.
pub proof fn lemma_first_index(s: Seq<CpuID>, cpu: CpuID)
    requires
        s.contains(cpu),
    ensures
        0 <= first_index(s, cpu) < s.len(),
        s[first_index(s, cpu)] == cpu,
        forall|j: int| 0 <= j < first_index(s, cpu) ==> #[trigger] s[j] != cpu,
{
    s.index_of_first_ensures(cpu);
    let i = s.index_of_first(cpu).unwrap();
    assert(0 <= i < s.len() && s[i] == cpu && forall|j: int| 0 <= j < i ==> #[trigger] s[j] != cpu);
}

/// In a set without repetitions, removing a CPU leaves exactly the other CPUs, still
/// without repetitions.
pub proof fn law_remove_cpu_members(s: Seq<CpuID>, cpu: CpuID, x: CpuID)
    requires
        s.no_duplicates(),
    ensures
        without_cpu(s, cpu).contains(x) <==> (s.contains(x) && x != cpu),
        without_cpu(s, cpu).no_duplicates(),
{
    if s.contains(cpu) {
        lemma_first_index(s, cpu);
        let i = first_index(s, cpu);
        let n = s.len() - 1;
        let t = s.update(i, s.last()).drop_last();
        assert forall|k: int| 0 <= k < t.len() implies #[trigger] t[k] == (if k == i { s[n] } else {
            s[k]
        }) by {}
        assert forall|k: int| 0 <= k < t.len() implies #[trigger] t[k] != cpu by {
            if k == i {
                if i != n {
                    assert(s[n] != s[i]);
                }
            } else {
                assert(s[k] != s[i]);
            }
        }
        if t.contains(x) {
            let k = choose|k: int| 0 <= k < t.len() && t[k] == x;
            if k == i {
                assert(s[n] == x);
            } else {
                assert(s[k] == x);
            }
        }
        if s.contains(x) && x != cpu {
            let k = choose|k: int| 0 <= k < s.len() && s[k] == x;
            if k == n {
                if i < n {
                    assert(t[i] == x);
                }
            } else {
                assert(k != i);
                assert(t[k] == x);
            }
        }
        assert forall|a: int, b: int| 0 <= a < t.len() && 0 <= b < t.len() && a != b implies t[a]
            != t[b] by {
            if a == i {
                assert(s[n] != s[b]);
            } else if b == i {
                assert(s[a] != s[n]);
            } else {
                assert(s[a] != s[b]);
            }
        }
    }
}

/// Removing a CPU that was just added, to a set that did not hold it, gives back the set.
pub proof fn law_remove_after_add(s: Seq<CpuID>, cpu: CpuID)
    requires
        !s.contains(cpu),
    ensures
        without_cpu(with_cpu(s, cpu), cpu) == s,
{
    let t = s.push(cpu);
    assert(t[s.len() as int] == cpu);
    assert(t.contains(cpu));
    lemma_first_index(t, cpu);
    let i = first_index(t, cpu);
    if i < s.len() {
        assert(s[i] == cpu);
    }
    assert(t.update(i, t.last()).drop_last() =~= s);
}

/// A set that passed the check holds only CPUs of the machine.
pub proof fn law_checked_cpus_available(s: Seq<CpuID>, all: Seq<CpuID>)
    requires
        first_unavailable(s, all) is None,
    ensures
        forall|i: int| 0 <= i < s.len() ==> all.contains(#[trigger] s[i]),
{
}


/// A range `a-b` names every CPU from `a` to `b`, each once and in increasing order.
pub proof fn law_range_names_every_cpu(a: CpuID, b: CpuID)
    requires
        a <= b,
    ensures
        parse_cpu_list(decimal(a as nat) + "-"@ + decimal(b as nat)) == Some(
            Seq::new((b - a + 1) as nat, |k: int| (a + k) as CpuID),
        ),
{
    reveal_strlit("-");
    let da = decimal(a as nat);
    let db = decimal(b as nat);
    let s = da + "-"@ + db;
    let e1 = da.len() as int;
    crate::text::lemma_decimal(a as nat);
    crate::text::lemma_decimal(b as nat);
    assert forall|k: int| 0 <= k < e1 implies is_digit(#[trigger] s[k]) by {
        assert(s[k] == da[k]);
    }
    assert(s[e1] == '-');
    lemma_digits_end_run(s, 0, e1);
    assert(s.subrange(0, e1) =~= da);
    assert(cpu_number(s, 0) == Some((a, e1)));
    assert forall|k: int| e1 + 1 <= k < s.len() implies is_digit(#[trigger] s[k]) by {
        assert(s[k] == db[k - e1 - 1]);
    }
    lemma_digits_end_run(s, e1 + 1, s.len() as int);
    assert(s.subrange(e1 + 1, s.len() as int) =~= db);
    assert(cpu_number(s, e1 + 1) == Some((b, s.len() as int)));
    assert(cpu_item(s, 0) == Some(((a, b), s.len() as int)));
    assert(cpu_items_from(s, s.len() as int) == Seq::<(CpuID, CpuID)>::empty());
    assert(cpu_items(s) == Some(seq![(a, b)]) ) by {
        assert(seq![(a, b)] + Seq::<(CpuID, CpuID)>::empty() =~= seq![(a, b)]);
    }
    let items = seq![(a, b)];
    assert(items.drop_last() =~= Seq::<(CpuID, CpuID)>::empty());
    assert(expand_items(Seq::<(CpuID, CpuID)>::empty()) == Seq::<CpuID>::empty());
    let r = range_cpus(a, b);
    assert(expand_items(items) =~= r);
    assert(r.no_duplicates()) by {
        assert forall|i: int, j: int| 0 <= i < r.len() && 0 <= j < r.len() && i != j implies r[i]
            != r[j] by {}
    }
    lemma_distinct_cpus_unchanged(r);
    assert(r =~= Seq::new((b - a + 1) as nat, |k: int| (a + k) as CpuID));
}

// ---------------------------------------------------------------------------
// Affinity masks of the kernel
// ---------------------------------------------------------------------------

/// `nix::sched::CpuSet`, the affinity mask of `sched_setaffinity` and
/// `sched_getaffinity`.
#[verifier::external_type_specification]
#[verifier::external_body]
pub struct ExNixCpuSet(NixCpuSet);

/// The CPUs that an affinity mask holds.
pub uninterp spec fn nix_cpuset_members(set: NixCpuSet) -> Set<usize>;

/// The number of CPUs an affinity mask can hold: `nix::sched::CpuSet::count()`, eight
/// times the 128 bytes of `libc::cpu_set_t` on Linux.
pub open spec fn mask_capacity() -> nat {
    1024
}

/// `nix::sched::CpuSet::new`: the claim is that the new mask holds no CPU.
#[verifier::external_body]
fn nix_cpuset_new() -> (set: NixCpuSet)
    ensures
        nix_cpuset_members(set) == Set::<usize>::empty(),
{
    NixCpuSet::new()
}

/// `nix::sched::CpuSet::count`: the claim is that it is 1024, the bits of the Linux
/// `cpu_set_t`.
#[verifier::external_body]
fn nix_cpuset_count() -> (n: usize)
    ensures
        n == mask_capacity(),
{
    NixCpuSet::count()
}

/// `nix::sched::CpuSet::set`: the claim is that it succeeds exactly for the CPUs below
/// the capacity, and then adds the CPU to the mask, which is unchanged otherwise.
#[verifier::external_body]
fn nix_cpuset_set(set: &mut NixCpuSet, field: usize) -> (ok: bool)
    ensures
        ok == (field < mask_capacity()),
        ok ==> nix_cpuset_members(*final(set)) == nix_cpuset_members(*old(set)).insert(field),
        !ok ==> nix_cpuset_members(*final(set)) == nix_cpuset_members(*old(set)),
{
    set.set(field).is_ok()
}

/// `nix::sched::CpuSet::is_set`: the claim is that it answers exactly for the CPUs below
/// the capacity, whether the mask holds the CPU.
#[verifier::external_body]
fn nix_cpuset_is_set(set: &NixCpuSet, field: usize) -> (r: Option<bool>)
    ensures
        field < mask_capacity() ==> r == Some(nix_cpuset_members(*set).contains(field)),
        field >= mask_capacity() ==> r is None,
{
    set.is_set(field).ok()
}

/// The index of the first CPU of `s` that an affinity mask cannot hold, if any.
pub open spec fn first_beyond_mask(s: Seq<CpuID>) -> Option<int> {
    if exists|i: int| 0 <= i < s.len() && s[i] >= mask_capacity() {
        Some(choose|i: int|
            0 <= i < s.len() && s[i] >= mask_capacity() && forall|j: int|
                0 <= j < i ==> #[trigger] s[j] < mask_capacity())
    } else {
        None
    }
}

/// The CPUs below `n` that a mask holds, in increasing order.
pub open spec fn mask_cpus_below(members: Set<usize>, n: nat) -> Seq<CpuID>
    decreases n,
{
    if n == 0 {
        seq![]
    } else if members.contains((n - 1) as usize) {
        mask_cpus_below(members, (n - 1) as nat).push((n - 1) as CpuID)
    } else {
        mask_cpus_below(members, (n - 1) as nat)
    }
}

impl CpuSet {
    /// The affinity mask of the set, or the first CPU that a mask cannot hold
    pub fn to_nix(&self) -> (r: Result<NixCpuSet, CpuID>)
        ensures
            match first_beyond_mask(self@) {
                None => r matches Ok(m) && forall|f: usize| #[trigger] nix_cpuset_members(m).contains(f)
                    <==> (f < mask_capacity() && self@.contains(f as CpuID)),
                Some(i) => r matches Err(c) && c == self@[i],
            },
    {
        let mut mask = nix_cpuset_new();
        let mut i: usize = 0;
        while i < self.cpus.len()
            invariant
                0 <= i <= self@.len(),
                forall|j: int| 0 <= j < i ==> #[trigger] self@[j] < mask_capacity(),
                forall|f: usize| #[trigger] nix_cpuset_members(mask).contains(f) <==> exists|j: int|
                    0 <= j < i && self@[j] as usize == f,
            decreases self@.len() - i,
        {
            let cpu = self.cpus[i];
            let ghost before = nix_cpuset_members(mask);
            if !nix_cpuset_set(&mut mask, cpu as usize) {
                proof {
                    let w = choose|k: int|
                        0 <= k < self@.len() && self@[k] >= mask_capacity() && forall|j: int|
                            0 <= j < k ==> #[trigger] self@[j] < mask_capacity();
                    assert(0 <= i < self@.len() && self@[i as int] >= mask_capacity());
                    if w < i {
                        assert(self@[w] < mask_capacity());
                    }
                    if w > i {
                        assert(self@[i as int] < mask_capacity());
                    }
                }
                return Err(cpu);
            }
            assert forall|f: usize| #[trigger] nix_cpuset_members(mask).contains(f) <==> exists|j: int|
                0 <= j < i + 1 && self@[j] as usize == f by {
                if f == cpu as usize {
                    assert(self@[i as int] as usize == f);
                }
                if exists|j: int| 0 <= j < i + 1 && self@[j] as usize == f {
                    let j = choose|j: int| 0 <= j < i + 1 && self@[j] as usize == f;
                    if j < i {
                        assert(before.contains(f));
                    }
                }
            }
            i = i + 1;
        }
        assert forall|f: usize| #[trigger] nix_cpuset_members(mask).contains(f) <==> (f
            < mask_capacity() && self@.contains(f as CpuID)) by {
            if nix_cpuset_members(mask).contains(f) {
                let j = choose|j: int| 0 <= j < i && self@[j] as usize == f;
                assert(self@[j] == f as CpuID);
            }
            if f < mask_capacity() && self@.contains(f as CpuID) {
                let j = choose|j: int| 0 <= j < self@.len() && self@[j] == f as CpuID;
                assert(self@[j] as usize == f);
            }
        }
        Ok(mask)
    }

    /// The set of the CPUs that an affinity mask holds, in increasing order, checked
    /// against `all`, the CPUs of the machine
    pub fn from_nix(mask: &NixCpuSet, all: &CpuSet) -> (r: Result<CpuSet, CpuSetBuildError>)
        ensures
            match first_unavailable(mask_cpus_below(nix_cpuset_members(*mask), mask_capacity()), all@) {
                None => r matches Ok(set) && set@ == mask_cpus_below(nix_cpuset_members(*mask), mask_capacity()),
                Some(i) => r matches Err(CpuSetBuildError::UnavailableCPU(c))
                    && c == mask_cpus_below(nix_cpuset_members(*mask), mask_capacity())[i],
            },
    {
        let ghost members = nix_cpuset_members(*mask);
        let count = nix_cpuset_count();
        let mut set = CpuSetUnchecked::empty();
        let mut cpu: usize = 0;
        while cpu < count
            invariant
                count == mask_capacity(),
                0 <= cpu <= count,
                members == nix_cpuset_members(*mask),
                set@ == mask_cpus_below(members, cpu as nat),
                forall|j: int| 0 <= j < set@.len() ==> #[trigger] set@[j] < cpu,
            decreases count - cpu,
        {
            match nix_cpuset_is_set(mask, cpu) {
                Some(true) => {
                    assert(!set@.contains(cpu as CpuID));
                    set = set.add_cpu(cpu as CpuID);
                },
                _ => {},
            }
            cpu = cpu + 1;
        }
        set.try_into_cpuset(all)
    }
}

/// The CPUs below `n` that a mask holds are those of its members below `n`, in strictly
/// increasing order.
pub proof fn lemma_mask_cpus_below(members: Set<usize>, n: nat)
    requires
        n <= mask_capacity(),
    ensures
        forall|c: CpuID| #[trigger] mask_cpus_below(members, n).contains(c) <==> (c < n
            && members.contains(c as usize)),
        forall|j: int, k: int|
            0 <= j < k < mask_cpus_below(members, n).len() ==> #[trigger] mask_cpus_below(
                members,
                n,
            )[j] < #[trigger] mask_cpus_below(members, n)[k],
        forall|j: int|
            0 <= j < mask_cpus_below(members, n).len() ==> #[trigger] mask_cpus_below(members, n)[j]
                < n,
    decreases n,
{
    if n > 0 {
        let m = (n - 1) as nat;
        lemma_mask_cpus_below(members, m);
        let prev = mask_cpus_below(members, m);
        if members.contains(m as usize) {
            let cur = prev.push(m as CpuID);
            assert(mask_cpus_below(members, n) == cur);
            assert forall|c: CpuID| #[trigger] cur.contains(c) <==> (c < n && members.contains(
                c as usize,
            )) by {
                if cur.contains(c) && c != m {
                    let j = choose|j: int| 0 <= j < cur.len() && cur[j] == c;
                    assert(prev[j] == c);
                    assert(prev.contains(c));
                }
                if cur.contains(c) && c == m {
                    assert(m < n);
                }
                if c < n && members.contains(c as usize) {
                    if c == m {
                        assert(cur[prev.len() as int] == c);
                    } else {
                        assert(prev.contains(c));
                        let j = choose|j: int| 0 <= j < prev.len() && prev[j] == c;
                        assert(cur[j] == c);
                    }
                }
            }
        } else {
            assert forall|c: CpuID| #[trigger] prev.contains(c) <==> (c < n && members.contains(
                c as usize,
            )) by {
                if c == m {
                    assert(!prev.contains(c));
                }
            }
        }
    }
}

/// Setting an affinity mask from a set and reading it back gives the CPUs of the set, in
/// strictly increasing order.
pub proof fn law_mask_round_trip(cpus: Seq<CpuID>, members: Set<usize>)
    requires
        first_beyond_mask(cpus) is None,
        forall|f: usize| #[trigger] members.contains(f) <==> (f < mask_capacity() && cpus.contains(f as CpuID)),
    ensures
        forall|c: CpuID| #[trigger] mask_cpus_below(members, mask_capacity()).contains(c) <==> cpus.contains(c),
        forall|j: int, k: int|
            0 <= j < k < mask_cpus_below(members, mask_capacity()).len() ==> #[trigger] mask_cpus_below(
                members,
                mask_capacity(),
            )[j] < #[trigger] mask_cpus_below(members, mask_capacity())[k],
{
    lemma_mask_cpus_below(members, mask_capacity());
    assert forall|c: CpuID| #[trigger] mask_cpus_below(members, mask_capacity()).contains(c) <==> cpus.contains(c) by {
        if cpus.contains(c) {
            let i = choose|i: int| 0 <= i < cpus.len() && cpus[i] == c;
            assert(cpus[i] < mask_capacity());
            assert(members.contains(c as usize));
        }
        if members.contains(c as usize) {
            assert(((c as usize) as CpuID) == c);
        }
    }
}

} // verus!
