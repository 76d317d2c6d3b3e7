//! Calendar dates and the date normalizer.
//!
//! A date in this crate is a plain year/month/day triple (proleptic
//! Gregorian).  The normalizer takes one text field from the source page,
//! trims it, strips a trailing parenthesized weekday annotation, and parses
//! the remainder against the source-locale grammar
//! `<year> 年 <month> 月 <day> 日`.  Everything that fails that grammar —
//! including the explicit undetermined sentinel — normalizes to "no date".

use crate::chars::subvec;
use crate::chars::trim_chars;
use crate::chars::trim_spec;
use vstd::prelude::*;

verus! {

/// A calendar date, kept valid by construction.
#[derive(Debug, Clone, Copy, PartialEq, Eq, Hash, Structural)]
pub struct CalendarDate {
    pub year: u32,
    pub month: u32,
    pub day: u32,
}

pub open spec fn is_leap_year(y: int) -> bool {
    y % 4 == 0 && (y % 100 != 0 || y % 400 == 0)
}

pub open spec fn days_in_month(y: int, m: int) -> int {
    if m == 2 {
        if is_leap_year(y) {
            29
        } else {
            28
        }
    } else if m == 4 || m == 6 || m == 9 || m == 11 {
        30
    } else {
        31
    }
}

/// A year/month/day triple that names a real calendar day, with the year in
/// the four-digit range the date grammar and the text form can carry.
pub open spec fn valid_date(y: int, m: int, d: int) -> bool {
    &&& 0 <= y <= 9999
    &&& 1 <= m <= 12
    &&& 1 <= d <= days_in_month(y, m)
}

/// The date as a mathematical triple.
pub open spec fn date_triple(d: CalendarDate) -> (int, int, int) {
    (d.year as int, d.month as int, d.day as int)
}

/// An optional date as an optional mathematical triple.
pub open spec fn opt_date_view(d: Option<CalendarDate>) -> Option<(int, int, int)> {
    match d {
        Some(c) => Some(date_triple(c)),
        None => None,
    }
}

impl CalendarDate {
    pub open spec fn wf(self) -> bool {
        valid_date(self.year as int, self.month as int, self.day as int)
    }

    /// The date with the given fields, or `None` when they do not name a
    /// real calendar day in the supported range.
    pub fn from_ymd_opt(year: u32, month: u32, day: u32) -> (r: Option<CalendarDate>)
        ensures
            r is Some <==> valid_date(year as int, month as int, day as int),
            match r {
                Some(c) => c == (CalendarDate { year, month, day }),
                None => true,
            },
    {
        if year <= 9999 && 1 <= month && month <= 12 && 1 <= day && day <= days_in_month_exec(
            year,
            month,
        ) {
            Some(CalendarDate { year, month, day })
        } else {
            None
        }
    }
}

pub fn days_in_month_exec(y: u32, m: u32) -> (r: u32)
    requires
        1 <= m <= 12,
    ensures
        r == days_in_month(y as int, m as int),
{
    if m == 2 {
        if y % 4 == 0 && (y % 100 != 0 || y % 400 == 0) {
            29
        } else {
            28
        }
    } else if m == 4 || m == 6 || m == 9 || m == 11 {
        30
    } else {
        31
    }
}

/// The undetermined-date sentinel token of the source locale.
pub open spec fn sentinel() -> Seq<char> {
    seq!['未', '定']
}

pub open spec fn is_digit(c: char) -> bool {
    0x30 <= c as u32 <= 0x39
}

pub open spec fn digit_val(c: char) -> int {
    c as u32 - 0x30
}

pub fn is_digit_char(c: char) -> (r: bool)
    ensures
        r == is_digit(c),
{
    let u = c as u32;
    0x30 <= u && u <= 0x39
}

/// The length of the run of decimal digits in `s` starting at `from`.
pub open spec fn digit_run(s: Seq<char>, from: int) -> int
    decreases s.len() - from,
{
    if from < 0 || from >= s.len() || !is_digit(s[from]) {
        0
    } else {
        1 + digit_run(s, from + 1)
    }
}

/// The number written by the digits `s[from..to]`, most significant first.
pub open spec fn num_val(s: Seq<char>, from: int, to: int) -> int
    decreases to - from,
{
    if from >= to {
        0
    } else {
        num_val(s, from, to - 1) * 10 + digit_val(s[to - 1])
    }
}

proof fn lemma_digit_run(s: Seq<char>, from: int, k: int)
    requires
        0 <= from,
        0 <= k,
        from + k <= s.len(),
        forall|j: int| from <= j < from + k ==> is_digit(s[j]),
        from + k < s.len() ==> !is_digit(s[from + k]),
    ensures
        digit_run(s, from) == k,
    decreases k,
{
    if k > 0 {
        assert(is_digit(s[from]));
        lemma_digit_run(s, from + 1, k - 1);
    }
}

pub fn digit_run_exec(v: &Vec<char>, from: usize) -> (r: usize)
    requires
        from <= v@.len(),
    ensures
        r == digit_run(v@, from as int),
        from + r <= v@.len(),
        forall|j: int| from <= j < from + r ==> is_digit(v@[j]),
{
    let n = v.len();
    let mut i: usize = from;
    while i < n && is_digit_char(v[i])
        invariant
            from <= i <= n,
            n == v@.len(),
            forall|j: int| from <= j < i ==> is_digit(v@[j]),
        decreases n - i,
    {
        i = i + 1;
    }
    proof {
        lemma_digit_run(v@, from as int, i - from);
    }
    i - from
}

spec fn pow10(k: int) -> int {
    if k <= 0 {
        1
    } else if k == 1 {
        10
    } else if k == 2 {
        100
    } else if k == 3 {
        1000
    } else {
        10000
    }
}

pub fn num_val_exec(v: &Vec<char>, from: usize, to: usize) -> (r: u32)
    requires
        from <= to <= v@.len(),
        to - from <= 4,
        forall|j: int| from <= j < to ==> is_digit(v@[j]),
    ensures
        r == num_val(v@, from as int, to as int),
        r <= 9999,
{
    let mut i: usize = from;
    let mut r: u32 = 0;
    while i < to
        invariant
            from <= i <= to <= v@.len(),
            to - from <= 4,
            forall|j: int| from <= j < to ==> is_digit(v@[j]),
            r == num_val(v@, from as int, i as int),
            r < pow10(i - from),
        decreases to - i,
    {
        let d = (v[i] as u32) - 0x30;
        r = r * 10 + d;
        i = i + 1;
    }
    r
}

/// Whether the regular suffix `( <one or more non-')' characters> )`,
/// anchored at the very end of `s`, matches starting at index `i`.
pub open spec fn suffix_match_at(s: Seq<char>, i: int) -> bool {
    &&& 0 <= i
    &&& i + 3 <= s.len()
    &&& s[i] == '('
    &&& s[s.len() - 1] == ')'
    &&& forall|j: int| i < j < s.len() - 1 ==> s[j] != ')'
}

/// `s` with the leftmost end-anchored parenthesized suffix removed, looking
/// only at start positions `k` and beyond.
pub open spec fn strip_from(s: Seq<char>, k: int) -> Seq<char>
    decreases s.len() - k,
{
    if k < 0 || k > s.len() - 3 {
        s
    } else if suffix_match_at(s, k) {
        s.subrange(0, k)
    } else {
        strip_from(s, k + 1)
    }
}

/// `s` with a trailing parenthesized annotation (such as a weekday) removed;
/// parentheses anywhere else are left alone.
pub open spec fn strip_weekday(s: Seq<char>) -> Seq<char> {
    strip_from(s, 0)
}

proof fn lemma_strip_skip(s: Seq<char>, k: int)
    requires
        0 <= k,
        forall|j: int| 0 <= j < k ==> !suffix_match_at(s, j),
    ensures
        strip_from(s, 0) == strip_from(s, k),
    decreases k,
{
    if k > 0 {
        lemma_strip_skip(s, k - 1);
    }
}

fn paren_match_at(v: &Vec<char>, i: usize) -> (r: bool)
    requires
        i + 3 <= v@.len(),
    ensures
        r == suffix_match_at(v@, i as int),
{
    let n = v.len();
    if v[i] != '(' || v[n - 1] != ')' {
        return false;
    }
    let mut j: usize = i + 1;
    while j < n - 1
        invariant
            i + 3 <= n,
            n == v@.len(),
            i + 1 <= j <= n - 1,
            forall|k: int| i < k < j ==> v@[k] != ')',
        decreases n - j,
    {
        if v[j] == ')' {
            return false;
        }
        j = j + 1;
    }
    true
}

/// `v` with a trailing parenthesized annotation removed.
pub fn strip_weekday_chars(v: &Vec<char>) -> (r: Vec<char>)
    ensures
        r@ == strip_weekday(v@),
{
    let n = v.len();
    if n < 3 {
        proof {
            lemma_strip_skip(v@, n as int);
        }
        return subvec(v, 0, n);
    }
    let mut i: usize = 0;
    while i <= n - 3
        invariant
            3 <= n == v@.len(),
            i <= n - 2,
            forall|j: int| 0 <= j < i ==> !suffix_match_at(v@, j),
        decreases n - i,
    {
        if paren_match_at(v, i) {
            proof {
                lemma_strip_skip(v@, i as int);
            }
            return subvec(v, 0, i);
        }
        i = i + 1;
    }
    proof {
        lemma_strip_skip(v@, i as int);
    }
    subvec(v, 0, n)
}

/// The result of the source-locale date grammar on `s`: the whole string
/// must be `<year> 年 <month> 月 <day> 日` with one to four year digits and
/// one or two month and day digits, and the numbers must name a real
/// calendar day.
pub open spec fn jdate_parse(s: Seq<char>) -> Option<(int, int, int)> {
    let a = digit_run(s, 0);
    let b = digit_run(s, a + 1);
    let c = digit_run(s, a + 2 + b);
    if 1 <= a <= 4 && a < s.len() && s[a] == '年' && 1 <= b <= 2 && a + 1 + b < s.len() && s[a + 1
        + b] == '月' && 1 <= c <= 2 && a + 2 + b + c + 1 == s.len() && s[a + 2 + b + c] == '日' {
        let y = num_val(s, 0, a);
        let m = num_val(s, a + 1, a + 1 + b);
        let d = num_val(s, a + 2 + b, a + 2 + b + c);
        if valid_date(y, m, d) {
            Some((y, m, d))
        } else {
            None
        }
    } else {
        None
    }
}

/// Parses `v` against the source-locale date grammar.
pub fn parse_jdate_chars(v: &Vec<char>) -> (r: Option<CalendarDate>)
    ensures
        opt_date_view(r) == jdate_parse(v@),
        r matches Some(c) ==> c.wf(),
{
    let n = v.len();
    let a = digit_run_exec(v, 0);
    if !(1 <= a && a <= 4 && a < n && v[a] == '年') {
        return None;
    }
    let b = digit_run_exec(v, a + 1);
    if !(1 <= b && b <= 2 && a + 1 + b < n && v[a + 1 + b] == '月') {
        return None;
    }
    let c = digit_run_exec(v, a + 2 + b);
    if !(1 <= c && c <= 2 && a + 2 + b + c == n - 1 && v[a + 2 + b + c] == '日') {
        return None;
    }
    let y = num_val_exec(v, 0, a);
    let m = num_val_exec(v, a + 1, a + 1 + b);
    let d = num_val_exec(v, a + 2 + b, a + 2 + b + c);
    if 1 <= m && m <= 12 && 1 <= d && d <= days_in_month_exec(y, m) {
        Some(CalendarDate { year: y, month: m, day: d })
    } else {
        None
    }
}

/// What the date normalizer yields on the raw text `s`.
pub open spec fn normalize_spec(s: Seq<char>) -> Option<(int, int, int)> {
    jdate_parse(strip_weekday(trim_spec(s)))
}

/// Normalizes one raw date text: trim, strip a trailing parenthesized
/// annotation, parse the locale grammar; anything else is "no date".
pub fn normalize_chars(v: &Vec<char>) -> (r: Option<CalendarDate>)
    ensures
        opt_date_view(r) == normalize_spec(v@),
        r matches Some(c) ==> c.wf(),
{
    let t = trim_chars(v);
    let s = strip_weekday_chars(&t);
    parse_jdate_chars(&s)
}

/// Law: normalization yields no date whenever the trimmed text is the
/// undetermined sentinel, or whenever the stripped remainder fails the
/// locale date grammar.
pub proof fn lemma_normalize_none(s: Seq<char>)
    requires
        trim_spec(s) == sentinel() || jdate_parse(strip_weekday(trim_spec(s))) is None,
    ensures
        normalize_spec(s) is None,
{
    if trim_spec(s) == sentinel() {
        let t = sentinel();
        assert(t.len() == 2);
        assert(forall|j: int| 0 <= j < 2 ==> !suffix_match_at(t, j));
        lemma_strip_skip(t, 2);
        assert(strip_weekday(t) == t);
        assert(!is_digit(t[0]));
        assert(digit_run(t, 0) == 0);
    }
}

} // verus!
