//! The bandwidth of an HCBS cgroup server: `cpu.rt.max` holds its runtime (or
//! `max`) and its period, in microseconds.
use vstd::prelude::*;

use crate::cgroup::{cgroup_abs_path, CGROUP_ROOT};
use crate::common::{Error, FileWrite};
use crate::text::{
    decimal, is_ascii_whitespace, is_digit, is_whitespace, parse_unsigned, parse_unsigned_range,
    push_decimal, push_str, ranges_view, split_ascii_whitespace, token_end, token_ranges,
    tokens_from, trim, trimmed_chars, chars_eq, str_chars,
};

verus! {

/// The runtime `max`: no limit.
#[derive(Clone, Copy, Debug)]
pub struct Max;

impl Max {
    /// The text of the runtime `max`.
    pub fn to_string(&self) -> (s: String)
        ensures
            s@ == "max"@,
    {
        crate::text::to_owned_string("max")
    }
}

/// A value of one of two types.
#[derive(Clone, Copy, Debug, PartialEq, Eq)]
pub enum Either<L, R> {
    Left(L),
    Right(R),
}

/// The text of a runtime: its decimal number, or `max`.
pub open spec fn runtime_text(runtime: Either<u64, Max>) -> Seq<char> {
    match runtime {
        Either::Left(n) => decimal(n as nat),
        Either::Right(_) => "max"@,
    }
}

/// The runtime and the period that the text of a `cpu.rt.max` file holds: two fields
/// separated by ASCII whitespace, the runtime `max` or a number, the period a number.
pub open spec fn cgroup_us_of(contents: Seq<char>) -> Result<(Either<u64, Max>, u64), Error> {
    let toks = split_ascii_whitespace(trim(contents));
    if toks.len() != 2 {
        Err(Error::InvalidFormat)
    } else {
        let runtime = if toks[0] == "max"@ {
            Some(Either::Right(Max))
        } else {
            match parse_unsigned(toks[0], u64::MAX as nat) {
                Some(n) => Some(Either::Left(n as u64)),
                None => None,
            }
        };
        match runtime {
            None => Err(Error::InvalidNumber),
            Some(r) => match parse_unsigned(toks[1], u64::MAX as nat) {
                None => Err(Error::InvalidNumber),
                Some(p) => Ok((r, p as u64)),
            },
        }
    }
}

/// The file that sets the bandwidth of a cgroup server.
pub fn cgroup_rt_max_path(name: &str) -> (p: String)
    ensures
        p@ == CGROUP_ROOT@ + "/"@ + name@ + "/cpu.rt.max"@,
{
    let mut p = cgroup_abs_path(name);
    push_str(&mut p, "/cpu.rt.max");
    p
}

/// \[HCBS specific\] Get the cgroup server's bandwidth from the text of its
/// `cpu.rt.max` file
pub fn get_cgroup_us(contents: &str) -> (r: Result<(Either<u64, Max>, u64), Error>)
    ensures
        r == cgroup_us_of(contents@),
{
    let chars = trimmed_chars(contents);
    let toks = token_ranges(&chars);
    let ghost t = split_ascii_whitespace(chars@);
    assert(t == ranges_view(chars@, toks@));
    if toks.len() != 2 {
        return Err(Error::InvalidFormat);
    }
    let (a0, b0) = toks[0];
    let (a1, b1) = toks[1];
    assert(t[0] == chars@.subrange(a0 as int, b0 as int));
    assert(t[1] == chars@.subrange(a1 as int, b1 as int));
    let max_chars = str_chars("max");
    let runtime = if chars_eq(&chars, a0, b0, &max_chars) {
        Either::Right(Max)
    } else {
        match parse_unsigned_range(&chars, a0, b0, u64::MAX) {
            Some(n) => Either::Left(n),
            None => {
                return Err(Error::InvalidNumber);
            },
        }
    };
    match parse_unsigned_range(&chars, a1, b1, u64::MAX) {
        Some(p) => Ok((runtime, p)),
        None => Err(Error::InvalidNumber),
    }
}

/// \[HCBS specific\] Set the cgroup server's bandwidth: `<runtime> <period>` written to
/// its `cpu.rt.max` file
pub fn set_cgroup_us(name: &str, runtime_us: Either<u64, Max>, period_us: u64) -> (w: FileWrite)
    ensures
        w.path@ == CGROUP_ROOT@ + "/"@ + name@ + "/cpu.rt.max"@,
        w.data@ == runtime_text(runtime_us) + " "@ + decimal(period_us as nat),
{
    let mut data = String::new();
    match runtime_us {
        Either::Left(n) => push_decimal(&mut data, n),
        Either::Right(_) => push_str(&mut data, "max"),
    }
    push_str(&mut data, " ");
    push_decimal(&mut data, period_us);
    FileWrite { path: cgroup_rt_max_path(name), data }
}

// ---------------------------------------------------------------------------
// Laws
// ---------------------------------------------------------------------------

/// The token at `i` ends where the run of characters that are not ASCII whitespace ends.
pub proof fn lemma_token_end_run(s: Seq<char>, i: int, j: int)
    requires
        0 <= i <= j <= s.len(),
        forall|k: int| i <= k < j ==> !is_ascii_whitespace(#[trigger] s[k]),
        j == s.len() || is_ascii_whitespace(s[j]),
    ensures
        token_end(s, i) == j,
    decreases j - i,
{
    if i < j {
        lemma_token_end_run(s, i + 1, j);
    }
}

/// Two runs without ASCII whitespace, joined by a space, are two tokens.
pub proof fn lemma_two_tokens(a: Seq<char>, b: Seq<char>)
    requires
        a.len() > 0,
        b.len() > 0,
        forall|k: int| 0 <= k < a.len() ==> !is_ascii_whitespace(#[trigger] a[k]),
        forall|k: int| 0 <= k < b.len() ==> !is_ascii_whitespace(#[trigger] b[k]),
    ensures
        split_ascii_whitespace(a + " "@ + b) == seq![a, b],
{
    reveal_strlit(" ");
    let s = a + " "@ + b;
    let n = a.len() as int;
    assert forall|k: int| 0 <= k < n implies !is_ascii_whitespace(#[trigger] s[k]) by {
        assert(s[k] == a[k]);
    }
    assert(s[n] == ' ');
    lemma_token_end_run(s, 0, n);
    assert forall|k: int| n + 1 <= k < s.len() implies !is_ascii_whitespace(#[trigger] s[k]) by {
        assert(s[k] == b[k - n - 1]);
    }
    lemma_token_end_run(s, n + 1, s.len() as int);
    assert(s.subrange(0, n) =~= a);
    assert(s.subrange(n + 1, s.len() as int) =~= b);
    assert(tokens_from(s, s.len() as int) == Seq::<Seq<char>>::empty());
    assert(tokens_from(s, n + 1) =~= seq![b]);
    assert(tokens_from(s, n) == tokens_from(s, n + 1));
    assert(tokens_from(s, 0) =~= seq![a, b]);
}

/// A decimal representation holds digits only.
pub proof fn lemma_decimal_chars(n: nat)
    ensures
        decimal(n).len() > 0,
        forall|k: int| 0 <= k < decimal(n).len() ==> is_digit(#[trigger] decimal(n)[k]),
{
    crate::text::lemma_decimal(n);
}

/// Reading back the bandwidth that a write set gives the runtime and the period written.
pub proof fn law_cgroup_us_read_back(runtime_us: Either<u64, Max>, period_us: u64)
    ensures
        cgroup_us_of(runtime_text(runtime_us) + " "@ + decimal(period_us as nat)) == Ok::<
            (Either<u64, Max>, u64),
            Error,
        >((runtime_us, period_us)),
{
    reveal_strlit("max");
    reveal_strlit(" ");
    let a = runtime_text(runtime_us);
    let b = decimal(period_us as nat);
    lemma_decimal_chars(period_us as nat);
    match runtime_us {
        Either::Left(n) => {
            lemma_decimal_chars(n as nat);
        },
        Either::Right(_) => {},
    }
    assert forall|k: int| 0 <= k < a.len() implies !is_ascii_whitespace(#[trigger] a[k])
        && !is_whitespace(a[k]) by {
        match runtime_us {
            Either::Left(n) => {
                assert(is_digit(decimal(n as nat)[k]));
            },
            Either::Right(_) => {},
        }
    }
    assert forall|k: int| 0 <= k < b.len() implies !is_ascii_whitespace(#[trigger] b[k])
        && !is_whitespace(b[k]) by {
        assert(is_digit(b[k]));
    }
    let s = a + " "@ + b;
    assert(s[0] == a[0]);
    assert(s[s.len() - 1] == b[b.len() - 1]);
    crate::text::lemma_trim_unchanged(s);
    lemma_two_tokens(a, b);
    let toks = split_ascii_whitespace(trim(s));
    assert(toks == seq![a, b]);
    assert(toks[0] == a);
    assert(toks[1] == b);
    crate::text::lemma_parse_decimal(period_us as nat, u64::MAX as nat);
    assert(parse_unsigned(toks[1], u64::MAX as nat) == Some(period_us as nat));
    match runtime_us {
        Either::Left(n) => {
            assert(is_digit(a[0]));
            assert(a != "max"@);
            crate::text::lemma_parse_decimal(n as nat, u64::MAX as nat);
        },
        Either::Right(m) => {
            assert(m == Max);
        },
    }
}

} // verus!
