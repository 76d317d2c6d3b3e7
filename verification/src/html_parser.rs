//! Extraction of release records from one HTML document.
//!
//! Two passes run over the same document and their outputs are concatenated,
//! structural records first.  The structural pass visits every element of
//! class `information` and emits at most one record per block: the subject
//! text is mandatory and must be non-empty once trimmed (a block without
//! such a subject is skipped even when a theme or a date is present), the
//! theme text is appended after a single space when present, and the date
//! text goes through the date normalizer.  The
//! embedded-data pass scans every script element's text, skips scripts
//! without the marker `var p =`, collects every non-overlapping fragment of
//! the shape `p[<digits>]={<body>};` (the body may not contain `}`, so a
//! nested object truncates the match — a known fragility kept on purpose),
//! turns every single quote of the braced body into a double quote (blind,
//! with no escaping awareness — also kept on purpose), and decodes it as a
//! JSON map: a decodable body with a string `title` that is non-empty after
//! trimming yields a record, with the optional string `release-date`
//! normalized the same way.  Either way no emitted record's title is blank:
//! a title is non-empty after trimming, as the record data model demands.
//!
//! The document queries themselves come from the `scraper` crate behind
//! trusted wrappers; everything downstream of them is verified.

use crate::chars::append_chars;
use crate::chars::contains_chars;
use crate::chars::contains_sub;
use crate::chars::from_chars;
use crate::chars::lemma_trim_nonempty;
use crate::chars::lemma_trim_spec_first;
use crate::chars::subvec;
use crate::chars::to_chars;
use crate::chars::trim_chars;
use crate::chars::trim_spec;
use crate::date::digit_run;
use crate::date::digit_run_exec;
use crate::date::normalize_chars;
use crate::date::normalize_spec;
use crate::date::opt_date_view;
use crate::date::CalendarDate;
use crate::error::AppError;
use crate::release_date::RecordView;
use crate::release_date::ReleaseDate;
use scraper::Html;
use scraper::Selector;
use vstd::prelude::*;

verus! {

/// What the structural query finds in a document: for each element of class
/// `information`, in document order, the first text node of its first
/// descendant of class `date`, of class `subject`, and of class `theme`.
pub uninterp spec fn info_fields_of(h: Seq<char>) -> Seq<
    (Option<Seq<char>>, Option<Seq<char>>, Option<Seq<char>>),
>;

/// What the script query finds in a document: the concatenated text of each
/// script element, in document order.
pub uninterp spec fn script_texts_of(h: Seq<char>) -> Seq<Seq<char>>;

/// What the JSON decoder yields on one normalized fragment: `None` when the
/// text is not a well-formed JSON value, otherwise the `title` and
/// `release-date` fields of the decoded map where they are strings.
pub uninterp spec fn json_fields_of(s: Seq<char>) -> Option<
    (Option<Seq<char>>, Option<Seq<char>>),
>;

/// Relies on scraper's `Html::parse_document` and `Selector` queries, which
/// never fail on the fixed class selectors used here: for each element of
/// class `information`, in document order, the first text node of its first
/// descendant of class `date`, `subject` and `theme`.
#[verifier::external_body]
fn scan_info_blocks(html: &str) -> (r: Vec<(Option<String>, Option<String>, Option<String>)>)
    ensures
        r.deep_view() == info_fields_of(html@),
{
    let doc = Html::parse_document(html);
    let info = Selector::parse(".information").unwrap();
    let date = Selector::parse(".date").unwrap();
    let subject = Selector::parse(".subject").unwrap();
    let theme = Selector::parse(".theme").unwrap();
    let first = |e: scraper::ElementRef, s: &Selector| -> Option<String> {
        e.select(s).next().and_then(|x| x.text().next()).map(str::to_string)
    };
    doc.select(&info).map(|e| (first(e, &date), first(e, &subject), first(e, &theme))).collect()
}

/// Relies on scraper's `Html::parse_document` and `Selector` queries, which
/// never fail on the fixed `script` selector: the concatenated text of each
/// script element, in document order.
#[verifier::external_body]
fn scan_script_texts(html: &str) -> (r: Vec<String>)
    ensures
        r.deep_view() == script_texts_of(html@),
{
    let doc = Html::parse_document(html);
    let script = Selector::parse("script").unwrap();
    let mut out: Vec<String> = Vec::new();
    for e in doc.select(&script) {
        out.push(e.text().collect());
    }
    out
}

/// Relies on `serde_json::from_str::<Value>`, `Value::get` and
/// `Value::as_str`: `None` when the text is not valid JSON; otherwise the
/// `title` and `release-date` entries of the value where they are strings.
#[verifier::external_body]
fn decode_entry_fields(json: &str) -> (r: Option<(Option<String>, Option<String>)>)
    ensures
        r.deep_view() == json_fields_of(json@),
{
    match serde_json::from_str::<serde_json::Value>(json) {
        Ok(data) => {
            let title = data.get("title").and_then(|v| v.as_str()).map(str::to_string);
            let date = data.get("release-date").and_then(|v| v.as_str()).map(str::to_string);
            Some((title, date))
        },
        Err(_) => None,
    }
}

/// The record a structural block yields: none without a subject, and none
/// when the subject is blank after trimming — a title must be non-empty;
/// otherwise the trimmed subject, with the trimmed theme appended after one
/// space when present, and the normalized date text (absent date text means
/// no date).
pub open spec fn block_record(
    b: (Option<Seq<char>>, Option<Seq<char>>, Option<Seq<char>>),
) -> Option<RecordView> {
    match b.1 {
        Some(subj) => if trim_spec(subj).len() == 0 {
            None
        } else {
            Some(
                RecordView {
                    title: match b.2 {
                        Some(th) => trim_spec(subj) + seq![' '] + trim_spec(th),
                        None => trim_spec(subj),
                    },
                    date: match b.0 {
                        Some(ds) => normalize_spec(ds),
                        None => None,
                    },
                },
            )
        },
        None => None,
    }
}

/// An optional record as a sequence of zero or one records.
pub open spec fn opt_to_seq(r: Option<RecordView>) -> Seq<RecordView> {
    match r {
        Some(x) => seq![x],
        None => Seq::empty(),
    }
}

/// The records of the structural pass, one per block whose subject trims
/// non-empty, in block order.
pub open spec fn structural_records(
    blocks: Seq<(Option<Seq<char>>, Option<Seq<char>>, Option<Seq<char>>)>,
) -> Seq<RecordView>
    decreases blocks.len(),
{
    if blocks.len() == 0 {
        Seq::empty()
    } else {
        structural_records(blocks.drop_last()) + opt_to_seq(block_record(blocks.last()))
    }
}

/// The marker that qualifies a script for the embedded-data pass.
pub open spec fn marker() -> Seq<char> {
    seq!['v', 'a', 'r', ' ', 'p', ' ', '=']
}

/// The length of the run of characters other than `}` starting at `from`.
pub open spec fn body_run(s: Seq<char>, from: int) -> int
    decreases s.len() - from,
{
    if from < 0 || from >= s.len() || s[from] == '}' {
        0
    } else {
        1 + body_run(s, from + 1)
    }
}

/// The fragment shape `p[<digits>]={<body>};` anchored at `i`, where the
/// digits and the body are non-empty and the body holds no `}`.  Yields the
/// braced body and the index just past the fragment.
pub open spec fn entry_at(s: Seq<char>, i: int) -> Option<(Seq<char>, int)> {
    let d = digit_run(s, i + 2);
    let c = body_run(s, i + 5 + d);
    if 0 <= i && i < s.len() && s[i] == 'p' && i + 1 < s.len() && s[i + 1] == '[' && d >= 1 && i + 2
        + d < s.len() && s[i + 2 + d] == ']' && i + 3 + d < s.len() && s[i + 3 + d] == '=' && i + 4
        + d < s.len() && s[i + 4 + d] == '{' && c >= 1 && i + 5 + d + c < s.len() && s[i + 5 + d
        + c] == '}' && i + 6 + d + c < s.len() && s[i + 6 + d + c] == ';' {
        Some((s.subrange(i + 4 + d, i + 6 + d + c), i + 7 + d + c))
    } else {
        None
    }
}

/// All braced bodies of non-overlapping fragments from `pos` on, leftmost
/// first, each next search resuming just past the previous fragment.
pub open spec fn scan_entries(s: Seq<char>, pos: int) -> Seq<Seq<char>>
    decreases s.len() - pos,
{
    if pos < 0 || pos >= s.len() {
        Seq::empty()
    } else {
        match entry_at(s, pos) {
            Some(ce) => seq![ce.0] + scan_entries(s, ce.1),
            None => scan_entries(s, pos + 1),
        }
    }
}

/// A braced body with every single quote turned into a double quote —
/// blindly, with no awareness of escaping.
pub open spec fn quote_swap(s: Seq<char>) -> Seq<char> {
    s.map_values(
        |c: char|
            if c == '\'' {
                '"'
            } else {
                c
            },
    )
}

/// The record one braced body yields: none when the quote-swapped body does
/// not decode, decodes without a string `title`, or with a title that is
/// blank after trimming — a title must be non-empty; otherwise that title
/// and the normalized `release-date` text (absent means no date).
pub open spec fn entry_record(body: Seq<char>) -> Option<RecordView> {
    match json_fields_of(quote_swap(body)) {
        Some(f) => match f.0 {
            Some(title) => if trim_spec(title).len() == 0 {
                None
            } else {
                Some(
                    RecordView {
                        title,
                        date: match f.1 {
                            Some(ds) => normalize_spec(ds),
                            None => None,
                        },
                    },
                )
            },
            None => None,
        },
        None => None,
    }
}

/// The records of a sequence of braced bodies, in order.
pub open spec fn entries_records(bodies: Seq<Seq<char>>) -> Seq<RecordView>
    decreases bodies.len(),
{
    if bodies.len() == 0 {
        Seq::empty()
    } else {
        entries_records(bodies.drop_last()) + opt_to_seq(entry_record(bodies.last()))
    }
}

/// The records of one script text: none at all unless the marker `var p =`
/// occurs in it, else the records of its fragments in order.
pub open spec fn script_records(s: Seq<char>) -> Seq<RecordView> {
    if contains_sub(s, marker()) {
        entries_records(scan_entries(s, 0))
    } else {
        Seq::empty()
    }
}

/// The records of the embedded-data pass over all script texts, in document
/// order.
pub open spec fn embedded_records(scripts: Seq<Seq<char>>) -> Seq<RecordView>
    decreases scripts.len(),
{
    if scripts.len() == 0 {
        Seq::empty()
    } else {
        embedded_records(scripts.drop_last()) + script_records(scripts.last())
    }
}

/// Everything extraction yields on one document: the structural records
/// first, then the embedded-data records, each group in document order.
pub open spec fn parse_records(h: Seq<char>) -> Seq<RecordView> {
    structural_records(info_fields_of(h)) + embedded_records(script_texts_of(h))
}

fn body_run_exec(v: &Vec<char>, from: usize) -> (r: usize)
    requires
        from <= v@.len(),
    ensures
        r == body_run(v@, from as int),
        from + r <= v@.len(),
{
    let n = v.len();
    let mut i: usize = from;
    while i < n && v[i] != '}'
        invariant
            from <= i <= n,
            n == v@.len(),
            body_run(v@, from as int) == i - from + body_run(v@, i as int),
        decreases n - i,
    {
        i = i + 1;
    }
    i - from
}

fn entry_at_exec(v: &Vec<char>, i: usize) -> (r: Option<(usize, usize)>)
    requires
        i < v@.len(),
    ensures
        match r {
            Some(p) => {
                &&& entry_at(v@, i as int) == Some(
                    (v@.subrange(p.0 as int, p.1 as int), p.1 + 1 as int),
                )
                &&& i < p.0 < p.1
                &&& p.1 + 1 <= v@.len()
            },
            None => entry_at(v@, i as int) is None,
        },
{
    let n = v.len();
    if v[i] != 'p' {
        return None;
    }
    if !(i + 1 < n && v[i + 1] == '[') {
        return None;
    }
    let d = digit_run_exec(v, i + 2);
    if d == 0 {
        return None;
    }
    if !(i + 2 + d < n && v[i + 2 + d] == ']') {
        return None;
    }
    if !(i + 3 + d < n && v[i + 3 + d] == '=') {
        return None;
    }
    if !(i + 4 + d < n && v[i + 4 + d] == '{') {
        return None;
    }
    let c = body_run_exec(v, i + 5 + d);
    if c == 0 {
        return None;
    }
    if !(i + 5 + d + c < n && v[i + 5 + d + c] == '}') {
        return None;
    }
    if !(i + 6 + d + c < n && v[i + 6 + d + c] == ';') {
        return None;
    }
    Some((i + 4 + d, i + 6 + d + c))
}

/// The braced bodies of all fragments of one script text, in order.
fn scan_script_entries(sc: &Vec<char>) -> (r: Vec<Vec<char>>)
    ensures
        r.deep_view() == scan_entries(sc@, 0),
{
    let n = sc.len();
    let mut caps: Vec<Vec<char>> = Vec::new();
    let mut pos: usize = 0;
    proof {
        assert(caps.deep_view() + scan_entries(sc@, 0) =~= scan_entries(sc@, 0));
    }
    while pos < n
        invariant
            pos <= n,
            n == sc@.len(),
            scan_entries(sc@, 0) == caps.deep_view() + scan_entries(sc@, pos as int),
        decreases n - pos,
    {
        let ghost pre = caps.deep_view();
        match entry_at_exec(sc, pos) {
            Some((cs, ce)) => {
                let cap = subvec(sc, cs, ce);
                caps.push(cap);
                proof {
                    assert(caps.deep_view() =~~= pre.push(sc@.subrange(cs as int, ce as int)));
                    assert(pre + (seq![sc@.subrange(cs as int, ce as int)] + scan_entries(
                        sc@,
                        ce + 1,
                    )) =~~= caps.deep_view() + scan_entries(sc@, ce + 1));
                }
                pos = ce + 1;
            },
            None => {
                pos = pos + 1;
            },
        }
    }
    proof {
        assert(caps.deep_view() + Seq::<Seq<char>>::empty() =~= caps.deep_view());
    }
    caps
}

/// The record of one braced body, if any: swap quotes, decode, and demand a
/// string title; the optional date text goes through the normalizer.
fn entry_to_record(cap: &Vec<char>) -> (r: Option<ReleaseDate>)
    ensures
        match r {
            Some(rec) => entry_record(cap@) == Some(rec.deep_view()) && rec.wf() && trim_spec(
                rec.title@,
            ).len() > 0,
            None => entry_record(cap@) is None,
        },
{
    let mut sw: Vec<char> = Vec::new();
    let mut j: usize = 0;
    while j < cap.len()
        invariant
            j <= cap@.len(),
            sw@.len() == j,
            forall|k: int| 0 <= k < j ==> sw@[k] == quote_swap(cap@)[k],
        decreases cap@.len() - j,
    {
        if cap[j] == '\'' {
            sw.push('"');
        } else {
            sw.push(cap[j]);
        }
        j = j + 1;
    }
    proof {
        assert(sw@ =~= quote_swap(cap@));
    }
    let js = from_chars(&sw);
    match decode_entry_fields(js.as_str()) {
        Some(fields) => match fields.0 {
            Some(title) => {
                let tv = to_chars(title.as_str());
                let tr = trim_chars(&tv);
                if tr.len() == 0 {
                    return None;
                }
                let date: Option<CalendarDate> = match &fields.1 {
                    Some(ds) => {
                        let dc = to_chars(ds.as_str());
                        normalize_chars(&dc)
                    },
                    None => None,
                };
                Some(ReleaseDate { title, date })
            },
            None => None,
        },
        None => None,
    }
}

/// The extractor.  All its patterns and selectors are fixed; it carries no
/// state of its own.
pub struct HtmlParser {}

impl HtmlParser {
    pub fn new() -> (r: Self)
        ensures
            r == (HtmlParser {  }),
    {
        HtmlParser {  }
    }

    /// Normalizes one raw date text: trim, strip a trailing parenthesized
    /// weekday annotation, parse the `<year>年<month>月<day>日` grammar;
    /// anything else — the undetermined sentinel included — is no date.
    pub fn parse_japanese_date(&self, date_str: &str) -> (r: Option<CalendarDate>)
        ensures
            opt_date_view(r) == normalize_spec(date_str@),
            r matches Some(c) ==> c.wf(),
    {
        let v = to_chars(date_str);
        normalize_chars(&v)
    }

    /// The structural pass over the scanned blocks: one record per block
    /// whose subject trims non-empty, in block order; a block without such
    /// a subject yields nothing, whatever else it holds.  Every emitted
    /// record's title is non-empty after trimming.
    pub fn parse_static_elements(
        &self,
        blocks: &Vec<(Option<String>, Option<String>, Option<String>)>,
    ) -> (r: Result<Vec<ReleaseDate>, AppError>)
        ensures
            r matches Ok(v) && v.deep_view() == structural_records(blocks.deep_view()),
            r matches Ok(v) && forall|k: int| 0 <= k < v@.len() ==> (#[trigger] v@[k]).wf(),
            r matches Ok(v) && forall|k: int|
                0 <= k < v@.len() ==> trim_spec((#[trigger] v@[k]).title@).len() > 0,
    {
        let ghost bs = blocks.deep_view();
        let mut results: Vec<ReleaseDate> = Vec::new();
        let mut i: usize = 0;
        while i < blocks.len()
            invariant
                i <= bs.len(),
                bs == blocks.deep_view(),
                blocks@.len() == bs.len(),
                results.deep_view() == structural_records(bs.take(i as int)),
                forall|k: int| 0 <= k < results@.len() ==> (#[trigger] results@[k]).wf(),
                forall|k: int|
                    0 <= k < results@.len() ==> trim_spec(
                        (#[trigger] results@[k]).title@,
                    ).len() > 0,
            decreases bs.len() - i,
        {
            let ghost pre = results.deep_view();
            let b = &blocks[i];
            match &b.1 {
                Some(subj) => {
                    let sc = to_chars(subj.as_str());
                    let mut tc = trim_chars(&sc);
                    if tc.len() > 0 {
                        proof {
                            assert(trim_spec(subj@).len() > 0);
                            lemma_trim_spec_first(subj@);
                        }
                        match &b.2 {
                            Some(th) => {
                                let thc = to_chars(th.as_str());
                                let tt = trim_chars(&thc);
                                tc.push(' ');
                                append_chars(&mut tc, &tt);
                                proof {
                                    assert(tc@ =~= trim_spec(subj@) + seq![' '] + trim_spec(th@));
                                }
                            },
                            None => {},
                        }
                        let date: Option<CalendarDate> = match &b.0 {
                            Some(ds) => {
                                let dc = to_chars(ds.as_str());
                                normalize_chars(&dc)
                            },
                            None => None,
                        };
                        let rec = ReleaseDate { title: from_chars(&tc), date };
                        results.push(rec);
                        proof {
                            assert(tc@[0] == trim_spec(subj@)[0]);
                            lemma_trim_nonempty(tc@);
                            assert(results.deep_view() =~= pre.push(rec.deep_view()));
                            assert(rec.deep_view() == block_record(bs[i as int])->Some_0);
                            assert(trim_spec(rec.title@).len() > 0);
                        }
                    }
                },
                None => {},
            }
            i = i + 1;
            proof {
                assert(bs.take(i as int).drop_last() =~= bs.take(i - 1));
                assert(bs.take(i as int).last() == bs[i - 1]);
                assert(structural_records(bs.take(i as int)) == structural_records(bs.take(i - 1))
                    + opt_to_seq(block_record(bs[i - 1])));
                if block_record(bs[i - 1]) is None {
                    assert(pre + Seq::<RecordView>::empty() =~= pre);
                } else {
                    assert(pre + seq![block_record(bs[i - 1])->Some_0] =~= pre.push(
                        block_record(bs[i - 1])->Some_0,
                    ));
                }
            }
        }
        proof {
            assert(bs.take(bs.len() as int) =~= bs);
        }
        Ok(results)
    }

    /// The embedded-data pass over the scanned script texts: scripts
    /// without the marker are ignored entirely; qualifying scripts yield
    /// one record per decodable fragment whose string title trims
    /// non-empty, in order.  Every emitted record's title is non-empty
    /// after trimming.
    pub fn parse_script_data(&self, scripts: &Vec<String>) -> (r: Result<
        Vec<ReleaseDate>,
        AppError,
    >)
        ensures
            r matches Ok(v) && v.deep_view() == embedded_records(scripts.deep_view()),
            r matches Ok(v) && forall|k: int| 0 <= k < v@.len() ==> (#[trigger] v@[k]).wf(),
            r matches Ok(v) && forall|k: int|
                0 <= k < v@.len() ==> trim_spec((#[trigger] v@[k]).title@).len() > 0,
    {
        let ghost ss = scripts.deep_view();
        let mut results: Vec<ReleaseDate> = Vec::new();
        let mut i: usize = 0;
        while i < scripts.len()
            invariant
                i <= ss.len(),
                ss == scripts.deep_view(),
                scripts@.len() == ss.len(),
                results.deep_view() == embedded_records(ss.take(i as int)),
                forall|k: int| 0 <= k < results@.len() ==> (#[trigger] results@[k]).wf(),
                forall|k: int|
                    0 <= k < results@.len() ==> trim_spec(
                        (#[trigger] results@[k]).title@,
                    ).len() > 0,
            decreases ss.len() - i,
        {
            let ghost pre = results.deep_view();
            let sc = to_chars(scripts[i].as_str());
            let mkr: Vec<char> = vec!['v', 'a', 'r', ' ', 'p', ' ', '='];
            proof {
                assert(mkr@ =~= marker());
            }
            if contains_chars(&sc, &mkr) {
                let caps = scan_script_entries(&sc);
                let ghost cs = caps.deep_view();
                let mut j: usize = 0;
                proof {
                    assert(cs.take(0) =~= Seq::<Seq<char>>::empty());
                    assert(pre + Seq::<RecordView>::empty() =~= pre);
                }
                while j < caps.len()
                    invariant
                        j <= cs.len(),
                        cs == caps.deep_view(),
                        caps@.len() == cs.len(),
                        results.deep_view() == pre + entries_records(cs.take(j as int)),
                        forall|k: int| 0 <= k < results@.len() ==> (#[trigger] results@[k]).wf(),
                        forall|k: int|
                            0 <= k < results@.len() ==> trim_spec(
                                (#[trigger] results@[k]).title@,
                            ).len() > 0,
                    decreases cs.len() - j,
                {
                    let ghost mid = results.deep_view();
                    proof {
                        assert(cs[j as int] =~= caps@[j as int]@);
                    }
                    match entry_to_record(&caps[j]) {
                        Some(rec) => {
                            results.push(rec);
                            proof {
                                assert(results.deep_view() =~= mid.push(rec.deep_view()));
                            }
                        },
                        None => {},
                    }
                    j = j + 1;
                    proof {
                        assert(cs.take(j as int).drop_last() =~= cs.take(j - 1));
                        assert(cs.take(j as int).last() == cs[j - 1]);
                        assert(entries_records(cs.take(j as int)) == entries_records(
                            cs.take(j - 1),
                        ) + opt_to_seq(entry_record(cs[j - 1])));
                        if entry_record(cs[j - 1]) is None {
                            assert(mid + Seq::<RecordView>::empty() =~= mid);
                        } else {
                            assert(mid + seq![entry_record(cs[j - 1])->Some_0] =~= mid.push(
                                entry_record(cs[j - 1])->Some_0,
                            ));
                        }
                    }
                }
                proof {
                    assert(cs.take(cs.len() as int) =~= cs);
                    assert(contains_sub(ss[i as int], marker()));
                    assert(results.deep_view() == pre + script_records(ss[i as int]));
                }
            } else {
                proof {
                    assert(!contains_sub(ss[i as int], marker()));
                    assert(pre + Seq::<RecordView>::empty() =~= pre);
                }
            }
            i = i + 1;
            proof {
                assert(ss.take(i as int).drop_last() =~= ss.take(i - 1));
                assert(ss.take(i as int).last() == ss[i - 1]);
            }
        }
        proof {
            assert(ss.take(ss.len() as int) =~= ss);
        }
        Ok(results)
    }

    /// Extracts every release record of one HTML document: the structural
    /// pass first, then the embedded-data pass, each in document order.
    /// Every emitted record's title is non-empty after trimming.
    pub fn parse(&self, html: &str) -> (r: Result<Vec<ReleaseDate>, AppError>)
        ensures
            r matches Ok(v) && v.deep_view() == parse_records(html@),
            r matches Ok(v) && forall|k: int| 0 <= k < v@.len() ==> (#[trigger] v@[k]).wf(),
            r matches Ok(v) && forall|k: int|
                0 <= k < v@.len() ==> trim_spec((#[trigger] v@[k]).title@).len() > 0,
    {
        let blocks = scan_info_blocks(html);
        let scripts = scan_script_texts(html);
        let mut results = match self.parse_static_elements(&blocks) {
            Ok(v) => v,
            Err(e) => {
                return Err(e);
            },
        };
        let mut embedded = match self.parse_script_data(&scripts) {
            Ok(v) => v,
            Err(e) => {
                return Err(e);
            },
        };
        let ghost sv = results.deep_view();
        let ghost ev = embedded.deep_view();
        results.append(&mut embedded);
        proof {
            assert(results.deep_view() =~= sv + ev);
        }
        Ok(results)
    }
}

impl Default for HtmlParser {
    fn default() -> (r: Self)
        ensures
            r == (HtmlParser {  }),
    {
        Self::new()
    }
}


/// Law: the subject text is load-bearing — a structural block without one
/// yields no record at all, even when a theme or a date is present.
pub proof fn lemma_subject_required(b: (Option<Seq<char>>, Option<Seq<char>>, Option<Seq<char>>))
    requires
        b.1 is None,
    ensures
        block_record(b) is None,
{
}

/// Law: a blank subject — empty after trimming — is no subject: the block
/// yields no record, whatever else it holds.
pub proof fn lemma_blank_subject_skipped(
    b: (Option<Seq<char>>, Option<Seq<char>>, Option<Seq<char>>),
)
    requires
        b.1 matches Some(s) && trim_spec(s).len() == 0,
    ensures
        block_record(b) is None,
{
}

/// Law: the embedded-data pass ignores any script text lacking the marker
/// `var p =` outright — whatever else, JSON-shaped or not, the text holds.
pub proof fn lemma_marker_required(s: Seq<char>)
    requires
        !contains_sub(s, marker()),
    ensures
        script_records(s) == Seq::<RecordView>::empty(),
{
}

/// Law: the extraction output is exactly the structural pass's records
/// followed by the embedded-data pass's records — every structural record
/// precedes every embedded one, each group in document order.
pub proof fn lemma_output_ordering(h: Seq<char>)
    ensures
        parse_records(h) == structural_records(info_fields_of(h)) + embedded_records(
            script_texts_of(h),
        ),
        forall|k: int|
            0 <= k < structural_records(info_fields_of(h)).len() ==> parse_records(h)[k]
                == structural_records(info_fields_of(h))[k],
        forall|k: int|
            0 <= k < embedded_records(script_texts_of(h)).len() ==> #[trigger] embedded_records(
                script_texts_of(h),
            )[k] == parse_records(h)[structural_records(info_fields_of(h)).len() + k],
{
}

} // verus!
