//! Character-level text handling shared by the parsers and formatters of the
//! library: whitespace trimming, splitting into tokens and lines, decimal
//! numbers in both directions, and string building.
use vstd::prelude::*;

verus! {

// ---------------------------------------------------------------------------
// Characters
// ---------------------------------------------------------------------------

/// The Unicode `White_Space` characters, the ones that `str::trim` removes.
pub open spec fn is_whitespace(c: char) -> bool {
    ||| c == '\t' || c == '\n' || c == '\u{0B}' || c == '\u{0C}' || c == '\r' || c == ' '
    ||| c == '\u{85}' || c == '\u{A0}' || c == '\u{1680}'
    ||| ('\u{2000}' <= c && c <= '\u{200A}')
    ||| c == '\u{2028}' || c == '\u{2029}' || c == '\u{202F}' || c == '\u{205F}' || c == '\u{3000}'
}

/// The ASCII whitespace characters that `str::split_ascii_whitespace` splits on.
pub open spec fn is_ascii_whitespace(c: char) -> bool {
    c == ' ' || c == '\t' || c == '\n' || c == '\u{0C}' || c == '\r'
}

/// An ASCII decimal digit.
pub open spec fn is_digit(c: char) -> bool {
    '0' <= c && c <= '9'
}

/// The value of an ASCII decimal digit.
pub open spec fn digit_value(c: char) -> nat {
    (c as int - '0' as int) as nat
}

/// The ASCII character of a digit value below ten.
pub open spec fn digit_char(d: nat) -> char {
    (d + '0' as nat) as char
}

pub fn whitespace(c: char) -> (b: bool)
    ensures
        b == is_whitespace(c),
{
    c == '\t' || c == '\n' || c == '\u{0B}' || c == '\u{0C}' || c == '\r' || c == ' '
        || c == '\u{85}' || c == '\u{A0}' || c == '\u{1680}' || ('\u{2000}' <= c && c
        <= '\u{200A}') || c == '\u{2028}' || c == '\u{2029}' || c == '\u{202F}' || c
        == '\u{205F}' || c == '\u{3000}'
}

pub fn ascii_whitespace(c: char) -> (b: bool)
    ensures
        b == is_ascii_whitespace(c),
{
    c == ' ' || c == '\t' || c == '\n' || c == '\u{0C}' || c == '\r'
}

pub fn digit(c: char) -> (b: bool)
    ensures
        b == is_digit(c),
{
    '0' <= c && c <= '9'
}

// ---------------------------------------------------------------------------
// Strings as sequences of characters
// ---------------------------------------------------------------------------

/// Appends one character to a string with `String::push`: the claim is that the
/// string gains `c` at its end and is otherwise unchanged.
#[verifier::external_body]
pub(crate) fn push_char(s: &mut String, c: char)
    ensures
        final(s)@ == old(s)@.push(c),
{
    s.push(c);
}

/// Appends a string slice to a string.
pub fn push_str(s: &mut String, t: &str)
    ensures
        final(s)@ == old(s)@ + t@,
{
    let chars = str_chars(t);
    push_chars(s, &chars, 0, chars.len());
}

/// Appends the characters `v[from..to]` to a string.
pub fn push_chars(s: &mut String, v: &Vec<char>, from: usize, to: usize)
    requires
        from <= to <= v@.len(),
    ensures
        final(s)@ == old(s)@ + v@.subrange(from as int, to as int),
{
    let mut i: usize = from;
    while i < to
        invariant
            from <= i <= to <= v@.len(),
            s@ == old(s)@ + v@.subrange(from as int, i as int),
        decreases to - i,
    {
        push_char(s, v[i]);
        assert(v@.subrange(from as int, i + 1) == v@.subrange(from as int, i as int).push(v@[i as int]));
        i = i + 1;
    }
}

/// A string holding the characters `v[from..to]`.
pub fn chars_to_string(v: &Vec<char>, from: usize, to: usize) -> (s: String)
    requires
        from <= to <= v@.len(),
    ensures
        s@ == v@.subrange(from as int, to as int),
{
    let mut s = String::new();
    push_chars(&mut s, v, from, to);
    s
}

/// A string with the characters of a string slice.
pub fn to_owned_string(t: &str) -> (s: String)
    ensures
        s@ == t@,
{
    let mut s = String::new();
    push_str(&mut s, t);
    s
}

/// The characters of a string slice, in order.
pub fn str_chars(s: &str) -> (v: Vec<char>)
    ensures
        v@ == s@,
{
    broadcast use vstd::string::group_string_axioms;

    let mut v: Vec<char> = Vec::new();
    for c in it: s.chars()
        invariant
            v@ == it.seq().take(it.index() as int),
    {
        v.push(c);
    }
    v
}

/// Whether `v[from..to]` holds exactly the characters of `t`.
pub fn chars_eq(v: &Vec<char>, from: usize, to: usize, t: &Vec<char>) -> (b: bool)
    requires
        from <= to <= v@.len(),
    ensures
        b == (v@.subrange(from as int, to as int) == t@),
{
    if to - from != t.len() {
        return false;
    }
    let mut i: usize = 0;
    while i < t.len()
        invariant
            from <= to <= v@.len(),
            to - from == t@.len(),
            0 <= i <= t@.len(),
            forall|k: int| 0 <= k < i ==> v@[from + k] == t@[k],
        decreases t.len() - i,
    {
        if v[from + i] != t[i] {
            assert(v@.subrange(from as int, to as int)[i as int] != t@[i as int]);
            return false;
        }
        i = i + 1;
    }
    assert(v@.subrange(from as int, to as int) =~= t@);
    true
}

// ---------------------------------------------------------------------------
// Trimming
// ---------------------------------------------------------------------------

/// The first index at or after `i` that holds no whitespace (or the length).
pub open spec fn skip_whitespace(s: Seq<char>, i: int) -> int
    decreases s.len() - i,
{
    if 0 <= i < s.len() && is_whitespace(s[i]) {
        skip_whitespace(s, i + 1)
    } else {
        i
    }
}

/// The end of `s[lo..j]` once its trailing whitespace is dropped.
pub open spec fn skip_whitespace_back(s: Seq<char>, lo: int, j: int) -> int
    decreases j - lo,
{
    if lo < j <= s.len() && is_whitespace(s[j - 1]) {
        skip_whitespace_back(s, lo, j - 1)
    } else {
        j
    }
}

/// `str::trim`: the string without its leading and trailing whitespace.
pub open spec fn trim(s: Seq<char>) -> Seq<char> {
    let a = skip_whitespace(s, 0);
    s.subrange(a, skip_whitespace_back(s, a, s.len() as int))
}

pub proof fn lemma_skip_whitespace(s: Seq<char>, i: int)
    requires
        0 <= i <= s.len(),
    ensures
        i <= skip_whitespace(s, i) <= s.len(),
        forall|k: int| i <= k < skip_whitespace(s, i) ==> is_whitespace(#[trigger] s[k]),
        skip_whitespace(s, i) < s.len() ==> !is_whitespace(s[skip_whitespace(s, i)]),
    decreases s.len() - i,
{
    if i < s.len() && is_whitespace(s[i]) {
        lemma_skip_whitespace(s, i + 1);
    }
}

pub proof fn lemma_skip_whitespace_back(s: Seq<char>, lo: int, j: int)
    requires
        0 <= lo <= j <= s.len(),
    ensures
        lo <= skip_whitespace_back(s, lo, j) <= j,
        forall|k: int| skip_whitespace_back(s, lo, j) <= k < j ==> is_whitespace(#[trigger] s[k]),
        skip_whitespace_back(s, lo, j) > lo ==> !is_whitespace(s[skip_whitespace_back(s, lo, j) - 1]),
    decreases j - lo,
{
    if lo < j && is_whitespace(s[j - 1]) {
        lemma_skip_whitespace_back(s, lo, j - 1);
    }
}

/// A string that neither starts nor ends with whitespace is its own trim.
pub proof fn lemma_trim_unchanged(s: Seq<char>)
    requires
        s.len() > 0 ==> !is_whitespace(s[0]) && !is_whitespace(s[s.len() - 1]),
    ensures
        trim(s) == s,
{
    assert(skip_whitespace(s, 0) == 0);
    assert(skip_whitespace_back(s, 0, s.len() as int) == s.len());
    assert(s.subrange(0, s.len() as int) =~= s);
}

/// The bounds `(a, b)` of the trimmed part `s[a..b]` of `s[from..to]`.
pub fn trim_range(s: &Vec<char>, from: usize, to: usize) -> (r: (usize, usize))
    requires
        from <= to <= s@.len(),
    ensures
        from <= r.0 <= r.1 <= to,
        s@.subrange(r.0 as int, r.1 as int) == trim(s@.subrange(from as int, to as int)),
{
    let ghost t = s@.subrange(from as int, to as int);
    let mut a: usize = from;
    while a < to && whitespace(s[a])
        invariant
            from <= a <= to <= s@.len(),
            t == s@.subrange(from as int, to as int),
            skip_whitespace(t, (a - from) as int) == skip_whitespace(t, 0),
        decreases to - a,
    {
        a = a + 1;
    }
    let ghost ta = skip_whitespace(t, 0);
    assert(ta == a - from);
    let mut b: usize = to;
    while b > a && whitespace(s[b - 1])
        invariant
            from <= a <= b <= to <= s@.len(),
            t == s@.subrange(from as int, to as int),
            ta == a - from,
            skip_whitespace_back(t, ta, (b - from) as int) == skip_whitespace_back(t, ta, t.len() as int),
        decreases b - a,
    {
        b = b - 1;
    }
    assert(s@.subrange(a as int, b as int) =~= t.subrange(ta, (b - from) as int));
    (a, b)
}

/// `str::trim` on a string slice, as characters.
pub fn trimmed_chars(s: &str) -> (v: Vec<char>)
    ensures
        v@ == trim(s@),
{
    let chars = str_chars(s);
    let (a, b) = trim_range(&chars, 0, chars.len());
    assert(chars@.subrange(0, chars@.len() as int) =~= chars@);
    let mut v: Vec<char> = Vec::new();
    let mut i: usize = a;
    while i < b
        invariant
            a <= i <= b <= chars@.len(),
            v@ == chars@.subrange(a as int, i as int),
        decreases b - i,
    {
        v.push(chars[i]);
        assert(chars@.subrange(a as int, i + 1) == chars@.subrange(a as int, i as int).push(chars@[i as int]));
        i = i + 1;
    }
    v
}

// ---------------------------------------------------------------------------
// Tokens separated by ASCII whitespace
// ---------------------------------------------------------------------------

/// The end of the token that starts at `i`: the first ASCII whitespace at or after `i`.
pub open spec fn token_end(s: Seq<char>, i: int) -> int
    decreases s.len() - i,
{
    if 0 <= i < s.len() && !is_ascii_whitespace(s[i]) {
        token_end(s, i + 1)
    } else {
        i
    }
}

pub proof fn lemma_token_end(s: Seq<char>, i: int)
    requires
        0 <= i <= s.len(),
    ensures
        i <= token_end(s, i) <= s.len(),
        forall|k: int| i <= k < token_end(s, i) ==> !is_ascii_whitespace(#[trigger] s[k]),
        token_end(s, i) < s.len() ==> is_ascii_whitespace(s[token_end(s, i)]),
    decreases s.len() - i,
{
    if i < s.len() && !is_ascii_whitespace(s[i]) {
        lemma_token_end(s, i + 1);
    }
}

/// The tokens of `s[i..]`.
pub open spec fn tokens_from(s: Seq<char>, i: int) -> Seq<Seq<char>>
    decreases s.len() - i,
{
    if i < 0 || i >= s.len() {
        seq![]
    } else if is_ascii_whitespace(s[i]) {
        tokens_from(s, i + 1)
    } else {
        proof {
            lemma_token_end(s, i + 1);
        }
        seq![s.subrange(i, token_end(s, i))] + tokens_from(s, token_end(s, i))
    }
}

/// `str::split_ascii_whitespace`: the maximal runs of characters that are not ASCII
/// whitespace, in order.
pub open spec fn split_ascii_whitespace(s: Seq<char>) -> Seq<Seq<char>> {
    tokens_from(s, 0)
}

/// The parts of `s` that a list of ranges selects.
pub open spec fn ranges_view(s: Seq<char>, r: Seq<(usize, usize)>) -> Seq<Seq<char>> {
    r.map_values(|p: (usize, usize)| s.subrange(p.0 as int, p.1 as int))
}

/// Well-formed ranges into a sequence of length `n`.
pub open spec fn ranges_within(r: Seq<(usize, usize)>, n: nat) -> bool {
    forall|k: int| 0 <= k < r.len() ==> #[trigger] r[k].0 <= r[k].1 <= n
}

/// The ranges of the tokens of `s`, split on ASCII whitespace.
pub fn token_ranges(s: &Vec<char>) -> (r: Vec<(usize, usize)>)
    ensures
        ranges_within(r@, s@.len()),
        ranges_view(s@, r@) == split_ascii_whitespace(s@),
{
    let mut r: Vec<(usize, usize)> = Vec::new();
    let mut i: usize = 0;
    while i < s.len()
        invariant
            i <= s@.len(),
            ranges_within(r@, s@.len()),
            ranges_view(s@, r@) + tokens_from(s@, i as int) == split_ascii_whitespace(s@),
        decreases s@.len() - i,
    {
        if ascii_whitespace(s[i]) {
            i = i + 1;
        } else {
            let start = i;
            proof {
                lemma_token_end(s@, i as int);
            }
            while i < s.len() && !ascii_whitespace(s[i])
                invariant
                    start <= i <= s@.len(),
                    token_end(s@, start as int) == token_end(s@, i as int),
                decreases s@.len() - i,
            {
                i = i + 1;
            }
            let ghost old_r = r@;
            r.push((start, i));
            assert(ranges_view(s@, r@) =~= ranges_view(s@, old_r).push(s@.subrange(start as int, i as int)));
            assert(ranges_view(s@, r@) + tokens_from(s@, i as int) =~= ranges_view(s@, old_r) + tokens_from(s@, start as int));
        }
    }
    assert(ranges_view(s@, r@) + tokens_from(s@, i as int) =~= ranges_view(s@, r@));
    r
}

// ---------------------------------------------------------------------------
// Lines
// ---------------------------------------------------------------------------

/// The first line feed at or after `i` (or the length).
pub open spec fn line_end(s: Seq<char>, i: int) -> int
    decreases s.len() - i,
{
    if 0 <= i < s.len() && s[i] != '\n' {
        line_end(s, i + 1)
    } else {
        i
    }
}

pub proof fn lemma_line_end(s: Seq<char>, i: int)
    requires
        0 <= i <= s.len(),
    ensures
        i <= line_end(s, i) <= s.len(),
        forall|k: int| i <= k < line_end(s, i) ==> #[trigger] s[k] != '\n',
        line_end(s, i) < s.len() ==> s[line_end(s, i)] == '\n',
    decreases s.len() - i,
{
    if i < s.len() && s[i] != '\n' {
        lemma_line_end(s, i + 1);
    }
}

/// The line `s[i..e]`, where `e` is its line end, without the carriage return of a
/// `\r\n` ending.
pub open spec fn line_text(s: Seq<char>, i: int, e: int) -> Seq<char> {
    if i < e < s.len() && s[e - 1] == '\r' {
        s.subrange(i, e - 1)
    } else {
        s.subrange(i, e)
    }
}

/// The lines of `s[i..]`.
pub open spec fn lines_from(s: Seq<char>, i: int) -> Seq<Seq<char>>
    decreases s.len() - i,
{
    if i < 0 || i >= s.len() {
        seq![]
    } else {
        proof {
            lemma_line_end(s, i);
        }
        let e = line_end(s, i);
        if e >= s.len() {
            seq![line_text(s, i, e)]
        } else {
            seq![line_text(s, i, e)] + lines_from(s, e + 1)
        }
    }
}

/// `str::lines`: the text split at `\n` and `\r\n` line endings; a final line ending
/// starts no further line.
pub open spec fn lines(s: Seq<char>) -> Seq<Seq<char>> {
    lines_from(s, 0)
}

/// The ranges of the lines of `s`.
pub fn line_ranges(s: &Vec<char>) -> (r: Vec<(usize, usize)>)
    ensures
        ranges_within(r@, s@.len()),
        ranges_view(s@, r@) == lines(s@),
{
    let mut r: Vec<(usize, usize)> = Vec::new();
    let mut i: usize = 0;
    while i < s.len()
        invariant
            i <= s@.len(),
            ranges_within(r@, s@.len()),
            ranges_view(s@, r@) + lines_from(s@, i as int) == lines(s@),
        decreases s@.len() - i,
    {
        let start = i;
        proof {
            lemma_line_end(s@, i as int);
        }
        while i < s.len() && s[i] != '\n'
            invariant
                start <= i <= s@.len(),
                line_end(s@, start as int) == line_end(s@, i as int),
            decreases s@.len() - i,
        {
            i = i + 1;
        }
        let mut end: usize = i;
        if start < i && i < s.len() && s[i - 1] == '\r' {
            end = i - 1;
        }
        let ghost old_r = r@;
        r.push((start, end));
        assert(ranges_view(s@, r@) =~= ranges_view(s@, old_r).push(line_text(s@, start as int, i as int)));
        if i < s.len() {
            i = i + 1;
        }
        assert(lines_from(s@, start as int) =~= seq![line_text(s@, start as int, line_end(s@, start as int))] + lines_from(s@, i as int));
        assert(ranges_view(s@, r@) + lines_from(s@, i as int) =~= ranges_view(s@, old_r) + lines_from(s@, start as int));
    }
    assert(ranges_view(s@, r@) + lines_from(s@, i as int) =~= ranges_view(s@, r@));
    r
}

// ---------------------------------------------------------------------------
// Decimal numbers
// ---------------------------------------------------------------------------

/// Every character is an ASCII digit.
pub open spec fn all_digits(s: Seq<char>) -> bool {
    forall|i: int| 0 <= i < s.len() ==> is_digit(#[trigger] s[i])
}

/// The value of a string of decimal digits.
pub open spec fn digits_value(s: Seq<char>) -> nat
    decreases s.len(),
{
    if s.len() == 0 {
        0
    } else {
        digits_value(s.drop_last()) * 10 + digit_value(s.last())
    }
}

/// `str::parse` of an unsigned integer type whose largest value is `max`: an optional
/// `+`, then one or more ASCII digits whose value is at most `max`.
pub open spec fn parse_unsigned(s: Seq<char>, max: nat) -> Option<nat> {
    let body = if s.len() > 0 && s[0] == '+' {
        s.drop_first()
    } else {
        s
    };
    if body.len() > 0 && all_digits(body) && digits_value(body) <= max {
        Some(digits_value(body))
    } else {
        None
    }
}

/// The decimal representation of `n`, without leading zeros.
pub open spec fn decimal(n: nat) -> Seq<char>
    decreases n,
{
    if n < 10 {
        seq![digit_char(n)]
    } else {
        decimal(n / 10).push(digit_char(n % 10))
    }
}

pub proof fn lemma_digit_char(d: nat)
    requires
        d < 10,
    ensures
        is_digit(digit_char(d)),
        digit_value(digit_char(d)) == d,
        !is_whitespace(digit_char(d)),
        !is_ascii_whitespace(digit_char(d)),
        digit_char(d) != '+',
{
}

/// A decimal representation is a non-empty string of digits with the value it stands for.
pub proof fn lemma_decimal(n: nat)
    ensures
        decimal(n).len() > 0,
        all_digits(decimal(n)),
        digits_value(decimal(n)) == n,
    decreases n,
{
    if n < 10 {
        lemma_digit_char(n);
        assert(decimal(n).drop_last() =~= Seq::<char>::empty());
        assert(digits_value(Seq::<char>::empty()) == 0);
        assert(digits_value(decimal(n)) == digits_value(decimal(n).drop_last()) * 10 + digit_value(decimal(n).last()));
    } else {
        lemma_decimal(n / 10);
        lemma_digit_char(n % 10);
        assert(decimal(n).drop_last() =~= decimal(n / 10));
        assert(decimal(n).last() == digit_char(n % 10));
        assert(digits_value(decimal(n)) == digits_value(decimal(n / 10)) * 10 + n % 10);
        assert((n / 10) * 10 + n % 10 == n);
    }
}

/// Reading back a decimal representation gives the number.
pub proof fn lemma_parse_decimal(n: nat, max: nat)
    requires
        n <= max,
    ensures
        parse_unsigned(decimal(n), max) == Some(n),
{
    lemma_decimal(n);
    assert(is_digit(decimal(n)[0]));
}

/// A decimal representation is its own trim.
pub proof fn lemma_decimal_trim(n: nat)
    ensures
        trim(decimal(n)) == decimal(n),
{
    lemma_decimal(n);
    let d = decimal(n);
    assert(is_digit(d[0]));
    assert(is_digit(d[d.len() - 1]));
    lemma_trim_unchanged(d);
}

/// The value of a prefix of a digit string is at most the value of the whole.
pub proof fn lemma_digits_value_prefix(s: Seq<char>, k: int)
    requires
        0 <= k <= s.len(),
        all_digits(s),
    ensures
        digits_value(s.subrange(0, k)) <= digits_value(s),
    decreases s.len(),
{
    if k < s.len() {
        assert(s.drop_last().subrange(0, k) =~= s.subrange(0, k));
        lemma_digits_value_prefix(s.drop_last(), k);
    } else {
        assert(s.subrange(0, k) =~= s);
    }
}

/// The character of a digit value below ten.
pub fn digit_to_char(d: u64) -> (c: char)
    requires
        d < 10,
    ensures
        c == digit_char(d as nat),
{
    let b: u8 = d as u8 + 48u8;
    b as char
}

/// Appends the decimal representation of `n`.
pub fn push_decimal(s: &mut String, n: u64)
    ensures
        final(s)@ == old(s)@ + decimal(n as nat),
    decreases n,
{
    if n >= 10 {
        push_decimal(s, n / 10);
    }
    let c = digit_to_char(n % 10);
    push_char(s, c);
}

/// `str::parse` of `v[from..to]` as an unsigned integer no greater than `max`.
pub fn parse_unsigned_range(v: &Vec<char>, from: usize, to: usize, max: u64) -> (r: Option<u64>)
    requires
        from <= to <= v@.len(),
    ensures
        match r {
            Some(n) => parse_unsigned(v@.subrange(from as int, to as int), max as nat) == Some(n as nat),
            None => parse_unsigned(v@.subrange(from as int, to as int), max as nat) is None,
        },
{
    let ghost s = v@.subrange(from as int, to as int);
    let mut start: usize = from;
    if from < to && v[from] == '+' {
        start = from + 1;
    }
    let ghost body = v@.subrange(start as int, to as int);
    assert(body =~= (if s.len() > 0 && s[0] == '+' { s.drop_first() } else { s }));
    if start == to {
        return None;
    }
    let mut value: u64 = 0;
    let mut i: usize = start;
    while i < to
        invariant
            from <= start < to <= v@.len(),
            start <= i <= to,
            body == v@.subrange(start as int, to as int),
            s == v@.subrange(from as int, to as int),
            body == (if s.len() > 0 && s[0] == '+' { s.drop_first() } else { s }),
            all_digits(v@.subrange(start as int, i as int)),
            value as nat == digits_value(v@.subrange(start as int, i as int)),
            value <= max,
        decreases to - i,
    {
        let c = v[i];
        if !digit(c) {
            assert(body[i - start] == c);
            assert(!all_digits(body));
            assert(parse_unsigned(s, max as nat) is None);
            return None;
        }
        let ghost prefix = v@.subrange(start as int, i + 1);
        assert(prefix.drop_last() =~= v@.subrange(start as int, i as int));
        assert(prefix =~= body.subrange(0, i + 1 - start));
        let d: u64 = (c as u32 - '0' as u32) as u64;
        let next = match value.checked_mul(10) {
            Some(m) => m.checked_add(d),
            None => None,
        };
        match next {
            Some(n) if n <= max => {
                assert(digits_value(prefix) == value * 10 + d);
                value = n;
            },
            _ => {
                proof {
                    assert(digits_value(prefix) == value * 10 + d);
                    if all_digits(body) {
                        lemma_digits_value_prefix(body, i + 1 - start);
                        assert(digits_value(body) > max);
                    }
                    assert(parse_unsigned(s, max as nat) is None);
                }
                return None;
            },
        }
        i = i + 1;
    }
    assert(v@.subrange(start as int, i as int) =~= body);
    Some(value)
}

/// `str::parse` of the trimmed text of `s` as an unsigned integer no greater than `max`.
pub fn parse_trimmed(s: &str, max: u64) -> (r: Option<u64>)
    ensures
        match r {
            Some(n) => parse_unsigned(trim(s@), max as nat) == Some(n as nat),
            None => parse_unsigned(trim(s@), max as nat) is None,
        },
{
    let chars = str_chars(s);
    let (a, b) = trim_range(&chars, 0, chars.len());
    assert(chars@.subrange(0, chars@.len() as int) =~= chars@);
    parse_unsigned_range(&chars, a, b, max)
}

/// Whether the trimmed text of `s` is `t`.
pub fn trimmed_is(s: &str, t: &str) -> (b: bool)
    ensures
        b == (trim(s@) == t@),
{
    let chars = str_chars(s);
    let (a, b) = trim_range(&chars, 0, chars.len());
    assert(chars@.subrange(0, chars@.len() as int) =~= chars@);
    let tc = str_chars(t);
    chars_eq(&chars, a, b, &tc)
}

/// `s` starts with `prefix`.
pub open spec fn starts_with(s: Seq<char>, prefix: Seq<char>) -> bool {
    prefix.len() <= s.len() && s.subrange(0, prefix.len() as int) == prefix
}

/// `t` occurs in `s`.
pub open spec fn contains_text(s: Seq<char>, t: Seq<char>) -> bool {
    exists|i: int| 0 <= i && i + t.len() <= s.len() && #[trigger] s.subrange(i, i + t.len()) == t
}

/// Whether `t` occurs in `s`.
pub fn str_contains(s: &str, t: &str) -> (b: bool)
    ensures
        b == contains_text(s@, t@),
{
    let sc = str_chars(s);
    let tc = str_chars(t);
    if tc.len() > sc.len() {
        return false;
    }
    if tc.len() == 0 {
        assert(s@.subrange(0, 0 + t@.len() as int) =~= t@);
        return true;
    }
    let last = sc.len() - tc.len();
    let mut i: usize = 0;
    while i <= last
        invariant
            sc@ == s@,
            tc@ == t@,
            0 < tc@.len() <= sc@.len(),
            last == sc@.len() - tc@.len(),
            0 <= i <= last + 1,
            forall|k: int| 0 <= k < i ==> #[trigger] sc@.subrange(k, k + tc@.len()) != tc@,
        decreases last + 1 - i,
    {
        let n = tc.len();
        assert(i + n <= sc.len());
        let end = i + n;
        if chars_eq(&sc, i, end, &tc) {
            return true;
        }
        i = i + 1;
    }
    assert forall|k: int| 0 <= k && k + t@.len() <= s@.len() implies #[trigger] s@.subrange(
        k,
        k + t@.len(),
    ) != t@ by {
        assert(k < i);
    }
    false
}

/// The decimal representation of `n`, as a string.
pub fn decimal_string(n: u64) -> (s: String)
    ensures
        s@ == decimal(n as nat),
{
    let mut s = String::new();
    push_decimal(&mut s, n);
    s
}

} // verus!
