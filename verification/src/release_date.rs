//! The release record and its text form.
//!
//! A record is a title plus an optional calendar date.  Its text form is the
//! object `{"title":"...","date":"..."}`, where the date field is either the
//! zero-padded `YYYY-MM-DD` form or the source-locale undetermined sentinel,
//! and the title is escaped as JSON escapes strings.  Decoding accepts
//! exactly those two date shapes and rejects everything else.

use crate::chars::append_chars;
use crate::chars::from_chars;
use crate::chars::to_chars;
use crate::date::digit_val;
use crate::date::is_digit;
use crate::date::num_val;
use crate::date::opt_date_view;
use crate::date::sentinel;
use crate::date::valid_date;
use crate::date::CalendarDate;
use crate::error::AppError;
use vstd::prelude::*;
use vstd::string::*;

verus! {

/// One product release: a title and an optional calendar date.  A missing
/// date means the release date is not yet determined, which is an expected
/// state, not an error.
#[derive(Debug, Clone)]
pub struct ReleaseDate {
    pub title: String,
    pub date: Option<CalendarDate>,
}

/// The mathematical shape of a record: the title characters and the date as
/// an optional year/month/day triple.
#[verifier::ext_equal]
pub ghost struct RecordView {
    pub title: Seq<char>,
    pub date: Option<(int, int, int)>,
}

impl DeepView for ReleaseDate {
    type V = RecordView;

    open spec fn deep_view(&self) -> RecordView {
        RecordView { title: self.title@, date: opt_date_view(self.date) }
    }
}

impl PartialEq for ReleaseDate {
    fn eq(&self, other: &ReleaseDate) -> (r: bool) {
        self.title.eq(&other.title) && match (self.date, other.date) {
            (Some(a), Some(b)) => a == b,
            (None, None) => true,
            _ => false,
        }
    }
}

impl vstd::std_specs::cmp::PartialEqSpecImpl for ReleaseDate {
    open spec fn obeys_eq_spec() -> bool {
        true
    }

    open spec fn eq_spec(&self, other: &ReleaseDate) -> bool {
        self.title@ == other.title@ && self.date == other.date
    }
}

impl ReleaseDate {
    /// The record is well formed when its date, if any, names a real
    /// calendar day.
    pub open spec fn wf(self) -> bool {
        match self.date {
            Some(d) => d.wf(),
            None => true,
        }
    }

    pub fn new(title: String, date: Option<CalendarDate>) -> (r: Self)
        ensures
            r.title@ == title@,
            r.date == date,
    {
        ReleaseDate { title, date }
    }

    pub fn with_date(title: String, date: CalendarDate) -> (r: Self)
        ensures
            r.title@ == title@,
            r.date == Some(date),
    {
        Self::new(title, Some(date))
    }

    pub fn undetermined(title: String) -> (r: Self)
        ensures
            r.title@ == title@,
            r.date is None,
    {
        Self::new(title, None)
    }

    pub fn is_undetermined(&self) -> (r: bool)
        ensures
            r == (self.date is None),
    {
        match self.date {
            None => true,
            Some(_) => false,
        }
    }
}

/// The decimal digit character for a value between 0 and 9.
pub open spec fn digit_char(v: int) -> char {
    if v == 0 {
        '0'
    } else if v == 1 {
        '1'
    } else if v == 2 {
        '2'
    } else if v == 3 {
        '3'
    } else if v == 4 {
        '4'
    } else if v == 5 {
        '5'
    } else if v == 6 {
        '6'
    } else if v == 7 {
        '7'
    } else if v == 8 {
        '8'
    } else {
        '9'
    }
}

pub fn digit_char_exec(v: u32) -> (r: char)
    requires
        v <= 9,
    ensures
        r == digit_char(v as int),
{
    if v == 0 {
        '0'
    } else if v == 1 {
        '1'
    } else if v == 2 {
        '2'
    } else if v == 3 {
        '3'
    } else if v == 4 {
        '4'
    } else if v == 5 {
        '5'
    } else if v == 6 {
        '6'
    } else if v == 7 {
        '7'
    } else if v == 8 {
        '8'
    } else {
        '9'
    }
}

/// The text form of an optional date: `YYYY-MM-DD`, zero padded, or the
/// undetermined sentinel.
pub open spec fn date_text(d: Option<(int, int, int)>) -> Seq<char> {
    match d {
        None => sentinel(),
        Some((y, m, dd)) => seq![
            digit_char(y / 1000 % 10),
            digit_char(y / 100 % 10),
            digit_char(y / 10 % 10),
            digit_char(y % 10),
            '-',
            digit_char(m / 10 % 10),
            digit_char(m % 10),
            '-',
            digit_char(dd / 10 % 10),
            digit_char(dd % 10),
        ],
    }
}

/// The characters of the date field's text form.
pub fn date_text_chars(date: &Option<CalendarDate>) -> (r: Vec<char>)
    ensures
        r@ == date_text(opt_date_view(*date)),
{
    let mut v: Vec<char> = Vec::new();
    match date {
        None => {
            v.push('未');
            v.push('定');
            proof {
                assert(v@ =~= sentinel());
            }
        },
        Some(d) => {
            v.push(digit_char_exec(d.year / 1000 % 10));
            v.push(digit_char_exec(d.year / 100 % 10));
            v.push(digit_char_exec(d.year / 10 % 10));
            v.push(digit_char_exec(d.year % 10));
            v.push('-');
            v.push(digit_char_exec(d.month / 10 % 10));
            v.push(digit_char_exec(d.month % 10));
            v.push('-');
            v.push(digit_char_exec(d.day / 10 % 10));
            v.push(digit_char_exec(d.day % 10));
            proof {
                assert(v@ =~= date_text(opt_date_view(Some(*d))));
            }
        },
    }
    v
}

/// Writes an optional date in its text form: the zero-padded calendar form,
/// or the undetermined sentinel.
pub fn serialize(date: &Option<CalendarDate>) -> (r: String)
    ensures
        r@ == date_text(opt_date_view(*date)),
{
    let v = date_text_chars(date);
    from_chars(&v)
}

/// The calendar form `YYYY-MM-DD`: exactly ten characters, zero padded,
/// naming a real calendar day.
pub open spec fn iso_parse(s: Seq<char>) -> Option<(int, int, int)> {
    if s.len() == 10 && is_digit(s[0]) && is_digit(s[1]) && is_digit(s[2]) && is_digit(s[3]) && s[4]
        == '-' && is_digit(s[5]) && is_digit(s[6]) && s[7] == '-' && is_digit(s[8]) && is_digit(
        s[9],
    ) {
        let y = num_val(s, 0, 4);
        let m = num_val(s, 5, 7);
        let d = num_val(s, 8, 10);
        if valid_date(y, m, d) {
            Some((y, m, d))
        } else {
            None
        }
    } else {
        None
    }
}

/// What decoding a date text form yields: `Some(None)` for the sentinel,
/// `Some(Some(..))` for a well-formed calendar form, `None` (a format
/// error) for anything else.
pub open spec fn parse_date_text(s: Seq<char>) -> Option<Option<(int, int, int)>> {
    if s == sentinel() {
        Some(None)
    } else {
        match iso_parse(s) {
            Some(t) => Some(Some(t)),
            None => None,
        }
    }
}

/// Decodes the date field from its character form.
pub fn parse_date_chars(v: &Vec<char>) -> (r: Option<Option<CalendarDate>>)
    ensures
        match r {
            Some(od) => parse_date_text(v@) == Some(opt_date_view(od)) && (od matches Some(c)
                ==> c.wf()),
            None => parse_date_text(v@) is None,
        },
{
    if v.len() == 2 && v[0] == '未' && v[1] == '定' {
        proof {
            assert(v@ =~= sentinel());
        }
        return Some(None);
    }
    proof {
        assert(v@ != sentinel());
    }
    if !(v.len() == 10) {
        return None;
    }
    let mut k: usize = 0;
    while k < 10
        invariant
            v@.len() == 10,
            k <= 10,
            forall|j: int| 0 <= j < k && j != 4 && j != 7 ==> is_digit(v@[j]),
        decreases 10 - k,
    {
        if k != 4 && k != 7 && !crate::date::is_digit_char(v[k]) {
            return None;
        }
        k = k + 1;
    }
    if v[4] != '-' || v[7] != '-' {
        return None;
    }
    let y = crate::date::num_val_exec(v, 0, 4);
    let m = crate::date::num_val_exec(v, 5, 7);
    let d = crate::date::num_val_exec(v, 8, 10);
    match CalendarDate::from_ymd_opt(y, m, d) {
        Some(c) => Some(Some(c)),
        None => None,
    }
}

/// Decodes a date text form: the undetermined sentinel yields no date, a
/// well-formed `YYYY-MM-DD` yields that calendar day, and every other
/// string is a format error naming the offending input.
pub fn deserialize(s: &str) -> (r: Result<Option<CalendarDate>, AppError>)
    ensures
        r is Ok <==> parse_date_text(s@) is Some,
        match r {
            Ok(od) => parse_date_text(s@) == Some(opt_date_view(od)) && (od matches Some(c)
                ==> c.wf()),
            Err(e) => match e {
                AppError::DateParse { input } => input@ == s@,
                _ => false,
            },
        },
{
    let v = to_chars(s);
    match parse_date_chars(&v) {
        Some(od) => Ok(od),
        None => Err(AppError::DateParse { input: s.to_owned() }),
    }
}


/// The hexadecimal digit character for a value between 0 and 15, lower case.
pub open spec fn hex_char(v: int) -> char {
    if v < 10 {
        digit_char(v)
    } else if v == 10 {
        'a'
    } else if v == 11 {
        'b'
    } else if v == 12 {
        'c'
    } else if v == 13 {
        'd'
    } else if v == 14 {
        'e'
    } else {
        'f'
    }
}

pub fn hex_char_exec(v: u32) -> (r: char)
    requires
        v <= 15,
    ensures
        r == hex_char(v as int),
{
    if v < 10 {
        digit_char_exec(v)
    } else if v == 10 {
        'a'
    } else if v == 11 {
        'b'
    } else if v == 12 {
        'c'
    } else if v == 13 {
        'd'
    } else if v == 14 {
        'e'
    } else {
        'f'
    }
}

/// Whether `c` is a hexadecimal digit, either case.
pub open spec fn is_hex(c: char) -> bool {
    let u = c as u32;
    is_digit(c) || (0x61 <= u && u <= 0x66) || (0x41 <= u && u <= 0x46)
}

/// The value of a hexadecimal digit.
pub open spec fn hex_val(c: char) -> int {
    let u = c as u32;
    if is_digit(c) {
        digit_val(c)
    } else if 0x61 <= u && u <= 0x66 {
        u - 0x61 + 10
    } else {
        u - 0x41 + 10
    }
}

pub fn is_hex_char(c: char) -> (r: bool)
    ensures
        r == is_hex(c),
{
    let u = c as u32;
    (0x30 <= u && u <= 0x39) || (0x61 <= u && u <= 0x66) || (0x41 <= u && u <= 0x46)
}

pub fn hex_val_exec(c: char) -> (r: u32)
    requires
        is_hex(c),
    ensures
        r == hex_val(c),
        r <= 15,
{
    let u = c as u32;
    if 0x30 <= u && u <= 0x39 {
        u - 0x30
    } else if 0x61 <= u && u <= 0x66 {
        u - 0x61 + 10
    } else {
        u - 0x41 + 10
    }
}

/// A character that the title escaping writes as itself.
pub open spec fn plain_char(c: char) -> bool {
    c != '"' && c != '\\' && c as u32 >= 0x20
}

/// How one title character is written: quote and backslash escaped, the
/// five short control escapes, any other control character as `\u00` plus
/// two lower-case hex digits, and every other character as itself.
pub open spec fn esc_char(c: char) -> Seq<char> {
    let u = c as u32;
    if c == '"' {
        seq!['\\', '"']
    } else if c == '\\' {
        seq!['\\', '\\']
    } else if u == 0x08 {
        seq!['\\', 'b']
    } else if u == 0x09 {
        seq!['\\', 't']
    } else if u == 0x0A {
        seq!['\\', 'n']
    } else if u == 0x0C {
        seq!['\\', 'f']
    } else if u == 0x0D {
        seq!['\\', 'r']
    } else if u < 0x20 {
        seq!['\\', 'u', '0', '0', hex_char(u as int / 16), hex_char(u as int % 16)]
    } else {
        seq![c]
    }
}

/// The escaped form of a whole title.
pub open spec fn escape(s: Seq<char>) -> Seq<char>
    decreases s.len(),
{
    if s.len() == 0 {
        Seq::empty()
    } else {
        escape(s.drop_last()) + esc_char(s.last())
    }
}

/// Appends the escaped form of one character.
fn esc_push(out: &mut Vec<char>, c: char)
    ensures
        final(out)@ == old(out)@ + esc_char(c),
{
    let ghost pre = out@;
    let u = c as u32;
    if c == '"' {
        out.push('\\');
        out.push('"');
    } else if c == '\\' {
        out.push('\\');
        out.push('\\');
    } else if u == 0x08 {
        out.push('\\');
        out.push('b');
    } else if u == 0x09 {
        out.push('\\');
        out.push('t');
    } else if u == 0x0A {
        out.push('\\');
        out.push('n');
    } else if u == 0x0C {
        out.push('\\');
        out.push('f');
    } else if u == 0x0D {
        out.push('\\');
        out.push('r');
    } else if u < 0x20 {
        out.push('\\');
        out.push('u');
        out.push('0');
        out.push('0');
        out.push(hex_char_exec(u / 16));
        out.push(hex_char_exec(u % 16));
    } else {
        out.push(c);
    }
    proof {
        assert(out@ =~= pre + esc_char(c));
    }
}

/// The opening of the record text form, through the title's opening quote.
pub open spec fn lit_open() -> Seq<char> {
    seq!['{', '"', 't', 'i', 't', 'l', 'e', '"', ':', '"']
}

/// The middle of the record text form, from just after the title's closing
/// quote through the date's opening quote.
pub open spec fn lit_mid() -> Seq<char> {
    seq![',', '"', 'd', 'a', 't', 'e', '"', ':', '"']
}

/// The text form of a record: the object with the escaped title and the
/// date text form, in that order, with no inner whitespace.
pub open spec fn encode_record_view(r: RecordView) -> Seq<char> {
    lit_open() + escape(r.title) + seq!['"'] + lit_mid() + date_text(r.date) + seq!['"', '}']
}

/// Writes a record in its text form.
pub fn encode_record(rec: &ReleaseDate) -> (out: String)
    ensures
        out@ == encode_record_view(rec.deep_view()),
{
    let mut v: Vec<char> = Vec::new();
    v.push('{');
    v.push('"');
    v.push('t');
    v.push('i');
    v.push('t');
    v.push('l');
    v.push('e');
    v.push('"');
    v.push(':');
    v.push('"');
    proof {
        assert(v@ =~= lit_open());
    }
    let tc = to_chars(rec.title.as_str());
    let ghost t = rec.title@;
    let mut i: usize = 0;
    while i < tc.len()
        invariant
            tc@ == t,
            i <= t.len(),
            v@ == lit_open() + escape(t.subrange(0, i as int)),
        decreases t.len() - i,
    {
        esc_push(&mut v, tc[i]);
        i = i + 1;
        proof {
            assert(t.subrange(0, i as int).drop_last() =~= t.subrange(0, i - 1));
            assert(t.subrange(0, i as int).last() == t[i - 1]);
            assert((lit_open() + escape(t.subrange(0, i - 1))) + esc_char(t[i - 1]) =~= lit_open()
                + (escape(t.subrange(0, i - 1)) + esc_char(t[i - 1])));
        }
    }
    proof {
        assert(t.subrange(0, t.len() as int) =~= t);
    }
    v.push('"');
    v.push(',');
    v.push('"');
    v.push('d');
    v.push('a');
    v.push('t');
    v.push('e');
    v.push('"');
    v.push(':');
    v.push('"');
    proof {
        assert(v@ =~= lit_open() + escape(t) + seq!['"'] + lit_mid());
    }
    let dc = date_text_chars(&rec.date);
    append_chars(&mut v, &dc);
    v.push('"');
    v.push('}');
    proof {
        assert(v@ =~= encode_record_view(rec.deep_view()));
    }
    from_chars(&v)
}

/// The scan result with one decoded character put in front.
pub open spec fn prepend_scan(c: char, r: Option<(Seq<char>, int)>) -> Option<(Seq<char>, int)> {
    match r {
        Some(te) => Some((seq![c] + te.0, te.1)),
        None => None,
    }
}

/// Scans a quoted-string body of the record text form starting at `pos`:
/// decodes escapes until an unescaped closing quote, yielding the decoded
/// characters and the index just past that quote, or `None` when the text
/// is exhausted or an escape is malformed.
pub open spec fn scan_jstr(s: Seq<char>, pos: int) -> Option<(Seq<char>, int)>
    decreases s.len() - pos,
{
    if pos < 0 || pos >= s.len() {
        None
    } else if s[pos] == '"' {
        Some((Seq::empty(), pos + 1))
    } else if s[pos] == '\\' {
        if pos + 1 < s.len() {
            let e = s[pos + 1];
            if e == '"' || e == '\\' || e == '/' {
                prepend_scan(e, scan_jstr(s, pos + 2))
            } else if e == 'b' {
                prepend_scan(8u8 as char, scan_jstr(s, pos + 2))
            } else if e == 't' {
                prepend_scan(9u8 as char, scan_jstr(s, pos + 2))
            } else if e == 'n' {
                prepend_scan(10u8 as char, scan_jstr(s, pos + 2))
            } else if e == 'f' {
                prepend_scan(12u8 as char, scan_jstr(s, pos + 2))
            } else if e == 'r' {
                prepend_scan(13u8 as char, scan_jstr(s, pos + 2))
            } else if e == 'u' {
                if pos + 6 <= s.len() && s[pos + 2] == '0' && s[pos + 3] == '0' && is_hex(
                    s[pos + 4],
                ) && is_hex(s[pos + 5]) {
                    prepend_scan(
                        ((hex_val(s[pos + 4]) * 16 + hex_val(s[pos + 5])) as char),
                        scan_jstr(s, pos + 6),
                    )
                } else {
                    None
                }
            } else {
                None
            }
        } else {
            None
        }
    } else {
        prepend_scan(s[pos], scan_jstr(s, pos + 1))
    }
}

/// How a partial scan relates to the scan of the whole string body: the
/// characters decoded so far, prepended to what remains, give the full
/// result.
pub open spec fn scan_rel(s: Seq<char>, pos: int, i: int, acc: Seq<char>) -> bool {
    match scan_jstr(s, i) {
        Some(te) => scan_jstr(s, pos) == Some((acc + te.0, te.1)),
        None => scan_jstr(s, pos) is None,
    }
}

proof fn lemma_scan_step(s: Seq<char>, pos: int, i: int, i2: int, c: char, acc: Seq<char>)
    requires
        scan_rel(s, pos, i, acc),
        scan_jstr(s, i) == prepend_scan(c, scan_jstr(s, i2)),
    ensures
        scan_rel(s, pos, i2, acc.push(c)),
{
    match scan_jstr(s, i2) {
        Some(te) => {
            assert(acc + (seq![c] + te.0) =~= acc.push(c) + te.0);
        },
        None => {},
    }
}

/// Scans a quoted-string body, decoding escapes, until the closing quote.
fn scan_jstr_exec(v: &Vec<char>, pos: usize) -> (r: Option<(Vec<char>, usize)>)
    requires
        pos <= v@.len(),
    ensures
        match r {
            Some(te) => scan_jstr(v@, pos as int) == Some((te.0@, te.1 as int)) && pos < te.1
                <= v@.len(),
            None => scan_jstr(v@, pos as int) is None,
        },
{
    let n = v.len();
    let mut out: Vec<char> = Vec::new();
    let mut i: usize = pos;
    proof {
        if scan_jstr(v@, pos as int) is Some {
            assert(Seq::<char>::empty() + scan_jstr(v@, pos as int)->Some_0.0 =~= scan_jstr(
                v@,
                pos as int,
            )->Some_0.0);
        }
    }
    loop
        invariant
            pos <= i <= n,
            n == v@.len(),
            scan_rel(v@, pos as int, i as int, out@),
        decreases n - i,
    {
        if i >= n {
            return None;
        }
        let c = v[i];
        if c == '"' {
            proof {
                assert(out@ + Seq::<char>::empty() =~= out@);
            }
            return Some((out, i + 1));
        } else if c == '\\' {
            if i + 1 >= n {
                return None;
            }
            let e = v[i + 1];
            if e == '"' || e == '\\' || e == '/' {
                proof {
                    lemma_scan_step(v@, pos as int, i as int, i + 2, e, out@);
                }
                out.push(e);
                i = i + 2;
            } else if e == 'b' {
                proof {
                    lemma_scan_step(v@, pos as int, i as int, i + 2, 8u8 as char, out@);
                }
                out.push(8u8 as char);
                i = i + 2;
            } else if e == 't' {
                proof {
                    lemma_scan_step(v@, pos as int, i as int, i + 2, 9u8 as char, out@);
                }
                out.push(9u8 as char);
                i = i + 2;
            } else if e == 'n' {
                proof {
                    lemma_scan_step(v@, pos as int, i as int, i + 2, 10u8 as char, out@);
                }
                out.push(10u8 as char);
                i = i + 2;
            } else if e == 'f' {
                proof {
                    lemma_scan_step(v@, pos as int, i as int, i + 2, 12u8 as char, out@);
                }
                out.push(12u8 as char);
                i = i + 2;
            } else if e == 'r' {
                proof {
                    lemma_scan_step(v@, pos as int, i as int, i + 2, 13u8 as char, out@);
                }
                out.push(13u8 as char);
                i = i + 2;
            } else if e == 'u' {
                if !(n - i >= 6 && v[i + 2] == '0' && v[i + 3] == '0') {
                    return None;
                }
                if !(is_hex_char(v[i + 4]) && is_hex_char(v[i + 5])) {
                    return None;
                }
                let hv: u32 = hex_val_exec(v[i + 4]) * 16 + hex_val_exec(v[i + 5]);
                let ch: char = (hv as u8) as char;
                proof {
                    assert(ch == ((hex_val(v@[i + 4]) * 16 + hex_val(v@[i + 5])) as char));
                    lemma_scan_step(v@, pos as int, i as int, i + 6, ch, out@);
                }
                out.push(ch);
                i = i + 6;
            } else {
                return None;
            }
        } else {
            proof {
                lemma_scan_step(v@, pos as int, i as int, i + 1, c, out@);
            }
            out.push(c);
            i = i + 1;
        }
    }
}

/// What decoding a record text form yields: the opening literal, a quoted
/// title body, the middle literal, a quoted date body that must be one of
/// the two accepted date shapes, and the closing brace — or `None` (a
/// format error) when any of it is off.
pub open spec fn decode_record_text(s: Seq<char>) -> Option<RecordView> {
    if s.len() >= 10 && s.subrange(0, 10) == lit_open() {
        match scan_jstr(s, 10) {
            Some(tp) => if tp.1 + 9 <= s.len() && s.subrange(tp.1, tp.1 + 9) == lit_mid() {
                match scan_jstr(s, tp.1 + 9) {
                    Some(dq) => if dq.1 + 1 == s.len() && s[dq.1] == '}' {
                        match parse_date_text(dq.0) {
                            Some(od) => Some(RecordView { title: tp.0, date: od }),
                            None => None,
                        }
                    } else {
                        None
                    },
                    None => None,
                }
            } else {
                None
            },
            None => None,
        }
    } else {
        None
    }
}

/// Decodes a record from its text form.  Anything that does not parse —
/// wrong framing, a bad escape, a date that is neither the undetermined
/// sentinel nor a well-formed calendar form — is a format error.
pub fn decode_record(s: &str) -> (r: Result<ReleaseDate, AppError>)
    ensures
        r is Ok <==> decode_record_text(s@) is Some,
        match r {
            Ok(rec) => decode_record_text(s@) == Some(rec.deep_view()) && rec.wf(),
            Err(e) => e matches AppError::Json(_),
        },
{
    let v = to_chars(s);
    let n = v.len();
    if !(n >= 10 && v[0] == '{' && v[1] == '"' && v[2] == 't' && v[3] == 'i' && v[4] == 't' && v[5]
        == 'l' && v[6] == 'e' && v[7] == '"' && v[8] == ':' && v[9] == '"') {
        proof {
            if v@.len() >= 10 && v@.subrange(0, 10) == lit_open() {
                assert(forall|k: int| 0 <= k < 10 ==> v@.subrange(0, 10)[k] == v@[k]);
                assert(false);
            }
        }
        return Err(AppError::Json(String::from_str("malformed record text")));
    }
    proof {
        assert(v@.subrange(0, 10) =~= lit_open());
    }
    let (title_chars, p) = match scan_jstr_exec(&v, 10) {
        Some(te) => te,
        None => {
            return Err(AppError::Json(String::from_str("malformed record text")));
        },
    };
    if !(p <= n - 9 && v[p] == ',' && v[p + 1] == '"' && v[p + 2] == 'd' && v[p + 3] == 'a' && v[p
        + 4] == 't' && v[p + 5] == 'e' && v[p + 6] == '"' && v[p + 7] == ':' && v[p + 8] == '"') {
        proof {
            if p + 9 <= v@.len() && v@.subrange(p as int, p + 9) == lit_mid() {
                assert(forall|k: int|
                    0 <= k < 9 ==> #[trigger] v@.subrange(p as int, p + 9)[k] == v@[p + k]);
                assert(false);
            }
        }
        return Err(AppError::Json(String::from_str("malformed record text")));
    }
    proof {
        assert(v@.subrange(p as int, p + 9) =~= lit_mid());
    }
    let (dstr, q) = match scan_jstr_exec(&v, p + 9) {
        Some(te) => te,
        None => {
            return Err(AppError::Json(String::from_str("malformed record text")));
        },
    };
    if !(q == n - 1 && v[q] == '}') {
        return Err(AppError::Json(String::from_str("malformed record text")));
    }
    let date = match parse_date_chars(&dstr) {
        Some(od) => od,
        None => {
            return Err(AppError::Json(String::from_str("malformed record text")));
        },
    };
    let rec = ReleaseDate { title: from_chars(&title_chars), date };
    proof {
        assert(decode_record_text(s@)->Some_0 =~= rec.deep_view());
    }
    Ok(rec)
}


proof fn lemma_digit_char(x: int)
    requires
        0 <= x <= 9,
    ensures
        is_digit(digit_char(x)),
        digit_val(digit_char(x)) == x,
        plain_char(digit_char(x)),
{
}

proof fn lemma_hex_char(x: int)
    requires
        0 <= x <= 15,
    ensures
        is_hex(hex_char(x)),
        hex_val(hex_char(x)) == x,
{
}

proof fn lemma_escape_first(s: Seq<char>)
    requires
        s.len() > 0,
    ensures
        escape(s) == esc_char(s[0]) + escape(s.drop_first()),
    decreases s.len(),
{
    if s.len() == 1 {
        assert(s.drop_last() =~= Seq::<char>::empty());
        assert(s.drop_first() =~= Seq::<char>::empty());
        assert(Seq::<char>::empty() + esc_char(s[0]) =~= esc_char(s[0]) + Seq::<char>::empty());
    } else {
        let t = s.drop_last();
        lemma_escape_first(t);
        let u = s.drop_first();
        assert(u.drop_last() =~= t.drop_first());
        assert(escape(u) == escape(u.drop_last()) + esc_char(u.last()));
        assert(u.last() == s.last());
        assert(t[0] == s[0]);
        assert((esc_char(s[0]) + escape(t.drop_first())) + esc_char(s.last()) =~= esc_char(s[0]) + (
        escape(t.drop_first()) + esc_char(s.last())));
    }
}

proof fn lemma_escape_plain(s: Seq<char>)
    requires
        forall|i: int| 0 <= i < s.len() ==> plain_char(s[i]),
    ensures
        escape(s) == s,
    decreases s.len(),
{
    if s.len() == 0 {
        assert(escape(s) =~= s);
    } else {
        lemma_escape_plain(s.drop_last());
        assert(esc_char(s.last()) =~= seq![s.last()]);
        assert(s.drop_last() + seq![s.last()] =~= s);
    }
}

proof fn lemma_date_text_plain(d: Option<(int, int, int)>)
    ensures
        forall|i: int| 0 <= i < date_text(d).len() ==> plain_char(#[trigger] date_text(d)[i]),
{
    let s = date_text(d);
    match d {
        None => {
            assert(plain_char(s[0]));
            assert(plain_char(s[1]));
        },
        Some(t) => {
            assert forall|i: int| 0 <= i < s.len() implies plain_char(s[i]) by {
                if i == 4 || i == 7 {
                    assert(plain_char('-'));
                } else {
                    assert(s[i] == digit_char(
                        if i == 0 {
                            t.0 / 1000 % 10
                        } else if i == 1 {
                            t.0 / 100 % 10
                        } else if i == 2 {
                            t.0 / 10 % 10
                        } else if i == 3 {
                            t.0 % 10
                        } else if i == 5 {
                            t.1 / 10 % 10
                        } else if i == 6 {
                            t.1 % 10
                        } else if i == 8 {
                            t.2 / 10 % 10
                        } else {
                            t.2 % 10
                        },
                    ));
                }
            }
        },
    }
}

proof fn lemma_dec2(x: int)
    requires
        0 <= x <= 99,
    ensures
        (x / 10 % 10) * 10 + x % 10 == x,
{
    vstd::arithmetic::div_mod::lemma_fundamental_div_mod(x, 10);
    vstd::arithmetic::div_mod::lemma_div_pos_is_pos(x, 10);
    vstd::arithmetic::div_mod::lemma_div_is_ordered(x, 99, 10);
    vstd::arithmetic::div_mod::lemma_basic_div(x / 10, 10);
    vstd::arithmetic::div_mod::lemma_fundamental_div_mod(x / 10, 10);
}

proof fn lemma_dec4(y: int)
    requires
        0 <= y <= 9999,
    ensures
        (((y / 1000 % 10) * 10 + y / 100 % 10) * 10 + y / 10 % 10) * 10 + y % 10 == y,
{
    vstd::arithmetic::div_mod::lemma_fundamental_div_mod(y, 10);
    vstd::arithmetic::div_mod::lemma_fundamental_div_mod(y / 10, 10);
    vstd::arithmetic::div_mod::lemma_fundamental_div_mod(y / 100, 10);
    vstd::arithmetic::div_mod::lemma_fundamental_div_mod(y / 1000, 10);
    vstd::arithmetic::div_mod::lemma_div_denominator(y, 10, 10);
    vstd::arithmetic::div_mod::lemma_div_denominator(y, 100, 10);
    vstd::arithmetic::div_mod::lemma_div_pos_is_pos(y, 1000);
    vstd::arithmetic::div_mod::lemma_div_is_ordered(y, 9999, 1000);
    vstd::arithmetic::div_mod::lemma_basic_div(y / 1000, 10);
}

/// Law: a date text form written by the library decodes back to exactly the
/// optional date it was written from, provided a present date names a real
/// calendar day.
pub proof fn lemma_parse_date_text_roundtrip(d: Option<(int, int, int)>)
    requires
        d matches Some(t) ==> valid_date(t.0, t.1, t.2),
    ensures
        parse_date_text(date_text(d)) == Some(d),
{
    match d {
        None => {},
        Some(t) => {
            let (y, m, dd) = t;
            let s = date_text(d);
            assert(s.len() == 10);
            assert(sentinel().len() == 2);
            vstd::arithmetic::div_mod::lemma_mod_bound(y / 1000, 10);
            vstd::arithmetic::div_mod::lemma_mod_bound(y / 100, 10);
            vstd::arithmetic::div_mod::lemma_mod_bound(y / 10, 10);
            vstd::arithmetic::div_mod::lemma_mod_bound(y, 10);
            vstd::arithmetic::div_mod::lemma_mod_bound(m / 10, 10);
            vstd::arithmetic::div_mod::lemma_mod_bound(m, 10);
            vstd::arithmetic::div_mod::lemma_mod_bound(dd / 10, 10);
            vstd::arithmetic::div_mod::lemma_mod_bound(dd, 10);
            lemma_digit_char(y / 1000 % 10);
            lemma_digit_char(y / 100 % 10);
            lemma_digit_char(y / 10 % 10);
            lemma_digit_char(y % 10);
            lemma_digit_char(m / 10 % 10);
            lemma_digit_char(m % 10);
            lemma_digit_char(dd / 10 % 10);
            lemma_digit_char(dd % 10);
            assert(num_val(s, 0, 0) == 0);
            assert(num_val(s, 0, 1) == digit_val(s[0]));
            assert(num_val(s, 0, 2) == num_val(s, 0, 1) * 10 + digit_val(s[1]));
            assert(num_val(s, 0, 3) == num_val(s, 0, 2) * 10 + digit_val(s[2]));
            assert(num_val(s, 0, 4) == num_val(s, 0, 3) * 10 + digit_val(s[3]));
            lemma_dec4(y);
            assert(num_val(s, 0, 4) == y);
            assert(num_val(s, 5, 5) == 0);
            assert(num_val(s, 5, 6) == digit_val(s[5]));
            assert(num_val(s, 5, 7) == num_val(s, 5, 6) * 10 + digit_val(s[6]));
            lemma_dec2(m);
            assert(num_val(s, 5, 7) == m);
            assert(num_val(s, 8, 8) == 0);
            assert(num_val(s, 8, 9) == digit_val(s[8]));
            assert(num_val(s, 8, 10) == num_val(s, 8, 9) * 10 + digit_val(s[9]));
            lemma_dec2(dd);
            assert(num_val(s, 8, 10) == dd);
            assert(iso_parse(s) == Some((y, m, dd)));
        },
    }
}


proof fn lemma_char_code(c: char, v: u8)
    requires
        c as u32 == v as u32,
    ensures
        c == v as char,
{
    assert(((c as u32) as u8) as char == c);
    assert((c as u32) as u8 == v);
}


proof fn lemma_char_code_int(c: char)
    ensures
        ((c as u32) as int) as char == c,
{
}

proof fn lemma_scan_escape(t: Seq<char>, s: Seq<char>, pos: int)
    requires
        0 <= pos,
        pos + escape(t).len() + 1 <= s.len(),
        s.subrange(pos, pos + escape(t).len() + 1) == escape(t) + seq!['"'],
    ensures
        scan_jstr(s, pos) == Some((t, pos + escape(t).len() + 1)),
    decreases t.len(),
{
    let e = escape(t);
    assert(forall|k: int|
        0 <= k < e.len() + 1 ==> s[pos + k] == #[trigger] (e + seq!['"'])[k]) by {
        assert(forall|k: int|
            0 <= k < e.len() + 1 ==> #[trigger] s.subrange(pos, pos + e.len() + 1)[k] == s[pos
                + k]);
    }
    if t.len() == 0 {
        assert(e.len() == 0);
        assert((e + seq!['"'])[0] == '"');
        assert(s[pos] == '"');
        assert(t =~= Seq::<char>::empty());
    } else {
        let c = t[0];
        let t1 = t.drop_first();
        lemma_escape_first(t);
        let ec = esc_char(c);
        let e1 = escape(t1);
        assert(e == ec + e1);
        assert(e.len() == ec.len() + e1.len());
        assert forall|k: int| 0 <= k < ec.len() implies s[pos + k] == #[trigger] ec[k] by {
            assert(s[pos + k] == (e + seq!['"'])[k]);
            assert((e + seq!['"'])[k] == e[k]);
            assert(e[k] == (ec + e1)[k]);
        }
        let pos2 = pos + ec.len();
        assert(s.subrange(pos2, pos2 + e1.len() + 1) =~= e1 + seq!['"']) by {
            assert forall|k: int|
                0 <= k < e1.len() + 1 implies #[trigger] s.subrange(pos2, pos2 + e1.len() + 1)[k]
                == (e1 + seq!['"'])[k] by {
                assert(s.subrange(pos2, pos2 + e1.len() + 1)[k] == s[pos2 + k]);
                assert(s[pos2 + k] == (e + seq!['"'])[ec.len() + k]);
                if k < e1.len() {
                    assert((e + seq!['"'])[ec.len() + k] == e[ec.len() + k]);
                    assert(e[ec.len() + k] == (ec + e1)[ec.len() + k]);
                    assert((ec + e1)[ec.len() + k] == e1[k]);
                } else {
                    assert((e + seq!['"'])[ec.len() + k] == '"');
                }
            }
        }
        lemma_scan_escape(t1, s, pos2);
        assert(seq![c] + t1 =~= t);
        let u = c as u32;
        if c == '"' {
            assert(s[pos] == '\\' && s[pos + 1] == '"');
        } else if c == '\\' {
            assert(s[pos] == '\\' && s[pos + 1] == '\\');
        } else if u == 0x08 {
            assert(s[pos] == '\\' && s[pos + 1] == 'b');
            lemma_char_code(c, 8u8);
        } else if u == 0x09 {
            assert(s[pos] == '\\' && s[pos + 1] == 't');
            lemma_char_code(c, 9u8);
        } else if u == 0x0A {
            assert(s[pos] == '\\' && s[pos + 1] == 'n');
            lemma_char_code(c, 10u8);
        } else if u == 0x0C {
            assert(s[pos] == '\\' && s[pos + 1] == 'f');
            lemma_char_code(c, 12u8);
        } else if u == 0x0D {
            assert(s[pos] == '\\' && s[pos + 1] == 'r');
            lemma_char_code(c, 13u8);
        } else if u < 0x20 {
            assert(s[pos] == '\\' && s[pos + 1] == 'u' && s[pos + 2] == '0' && s[pos + 3] == '0');
            assert(s[pos + 4] == hex_char(u as int / 16) && s[pos + 5] == hex_char(u as int % 16));
            vstd::arithmetic::div_mod::lemma_div_pos_is_pos(u as int, 16);
            vstd::arithmetic::div_mod::lemma_div_is_ordered(u as int, 31, 16);
            vstd::arithmetic::div_mod::lemma_mod_bound(u as int, 16);
            lemma_hex_char(u as int / 16);
            lemma_hex_char(u as int % 16);
            vstd::arithmetic::div_mod::lemma_fundamental_div_mod(u as int, 16);
            assert(hex_val(s[pos + 4]) * 16 + hex_val(s[pos + 5]) == u as int);
            lemma_char_code_int(c);
            assert(u as int == (c as u32) as int);
            assert(((u as int) as char) == c);
        } else {
            assert(ec =~= seq![c]);
            assert(s[pos] == c);
        }
    }
}

/// Law: encoding a record and decoding the result reproduces the identical
/// title and date, provided a present date names a real calendar day; in
/// particular an undetermined record comes back undetermined.
pub proof fn lemma_record_roundtrip(r: RecordView)
    requires
        r.date matches Some(t) ==> valid_date(t.0, t.1, t.2),
    ensures
        decode_record_text(encode_record_view(r)) == Some(r),
{
    let s = encode_record_view(r);
    let e = escape(r.title);
    let dt = date_text(r.date);
    let el: int = e.len() as int;
    let dl: int = dt.len() as int;
    assert(s.len() == 10 + el + 1 + 9 + dl + 2);
    assert(s.subrange(0, 10) =~= lit_open());
    assert(s.subrange(10, 10 + el + 1) =~= e + seq!['"']);
    lemma_scan_escape(r.title, s, 10);
    let p: int = 10 + el + 1;
    assert(s.subrange(p, p + 9) =~= lit_mid());
    lemma_date_text_plain(r.date);
    lemma_escape_plain(dt);
    assert(s.subrange(p + 9, p + 9 + dl + 1) =~= escape(dt) + seq!['"']);
    lemma_scan_escape(dt, s, p + 9);
    let q: int = p + 9 + dl + 1;
    assert(s[q] == '}');
    assert(q + 1 == s.len());
    lemma_parse_date_text_roundtrip(r.date);
    assert(decode_record_text(s)->Some_0 =~= r);
}

} // verus!
