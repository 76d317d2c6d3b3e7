//! Character-sequence utilities shared by the date normalizer, the
//! extraction passes and the record codec: whitespace trimming, substring
//! search, and conversion between `&str`/`String` and `Vec<char>`.

use vstd::prelude::*;
use vstd::string::*;

verus! {

/// Whether `c` carries the Unicode `White_Space` property, the set that
/// leading/trailing trimming removes.
pub open spec fn is_space(c: char) -> bool {
    let u = c as u32;
    ||| (0x09 <= u && u <= 0x0D)
    ||| u == 0x20
    ||| u == 0x85
    ||| u == 0xA0
    ||| u == 0x1680
    ||| (0x2000 <= u && u <= 0x200A)
    ||| u == 0x2028
    ||| u == 0x2029
    ||| u == 0x202F
    ||| u == 0x205F
    ||| u == 0x3000
}

pub fn is_space_char(c: char) -> (r: bool)
    ensures
        r == is_space(c),
{
    let u = c as u32;
    (0x09 <= u && u <= 0x0D) || u == 0x20 || u == 0x85 || u == 0xA0 || u == 0x1680 || (0x2000 <= u
        && u <= 0x200A) || u == 0x2028 || u == 0x2029 || u == 0x202F || u == 0x205F || u == 0x3000
}

/// The sequence with its leading whitespace removed.
pub open spec fn trim_start(s: Seq<char>) -> Seq<char>
    decreases s.len(),
{
    if s.len() > 0 && is_space(s[0]) {
        trim_start(s.drop_first())
    } else {
        s
    }
}

/// The sequence with its trailing whitespace removed.
pub open spec fn trim_end(s: Seq<char>) -> Seq<char>
    decreases s.len(),
{
    if s.len() > 0 && is_space(s.last()) {
        trim_end(s.drop_last())
    } else {
        s
    }
}

/// The sequence with leading and trailing whitespace removed.
pub open spec fn trim_spec(s: Seq<char>) -> Seq<char> {
    trim_end(trim_start(s))
}

pub proof fn lemma_trim_start(s: Seq<char>, i: int)
    requires
        0 <= i <= s.len(),
        forall|j: int| 0 <= j < i ==> is_space(s[j]),
        i < s.len() ==> !is_space(s[i]),
    ensures
        trim_start(s) == s.subrange(i, s.len() as int),
    decreases i,
{
    if i == 0 {
        assert(s.subrange(0, s.len() as int) =~= s);
    } else {
        assert(is_space(s[0]));
        let t = s.drop_first();
        lemma_trim_start(t, i - 1);
        assert(t.subrange(i - 1, t.len() as int) =~= s.subrange(i, s.len() as int));
    }
}

pub proof fn lemma_trim_end(s: Seq<char>, j: int)
    requires
        0 <= j <= s.len(),
        forall|k: int| j <= k < s.len() ==> is_space(s[k]),
        j > 0 ==> !is_space(s[j - 1]),
    ensures
        trim_end(s) == s.subrange(0, j),
    decreases s.len(),
{
    if j == s.len() {
        assert(s.subrange(0, j) =~= s);
    } else {
        assert(is_space(s.last()));
        let t = s.drop_last();
        lemma_trim_end(t, j);
        assert(t.subrange(0, j) =~= s.subrange(0, j));
    }
}

pub proof fn lemma_trim_start_first(s: Seq<char>)
    ensures
        trim_start(s).len() > 0 ==> !is_space(trim_start(s)[0]),
    decreases s.len(),
{
    if s.len() > 0 && is_space(s[0]) {
        lemma_trim_start_first(s.drop_first());
    }
}

pub proof fn lemma_trim_end_first(s: Seq<char>)
    ensures
        trim_end(s).len() > 0 ==> trim_end(s)[0] == s[0],
    decreases s.len(),
{
    if s.len() > 0 && is_space(s.last()) {
        lemma_trim_end_first(s.drop_last());
    }
}

pub proof fn lemma_trim_end_nonempty(s: Seq<char>)
    requires
        s.len() > 0,
        !is_space(s[0]),
    ensures
        trim_end(s).len() > 0,
    decreases s.len(),
{
    if is_space(s.last()) {
        lemma_trim_end_nonempty(s.drop_last());
    }
}

/// A sequence that starts with a non-space character stays non-empty under
/// trimming.
pub proof fn lemma_trim_nonempty(s: Seq<char>)
    requires
        s.len() > 0,
        !is_space(s[0]),
    ensures
        trim_spec(s).len() > 0,
{
    lemma_trim_end_nonempty(s);
}

/// A non-empty trimmed sequence starts with a non-space character.
pub proof fn lemma_trim_spec_first(s: Seq<char>)
    ensures
        trim_spec(s).len() > 0 ==> !is_space(trim_spec(s)[0]),
{
    lemma_trim_start_first(s);
    lemma_trim_end_first(trim_start(s));
}

/// The characters of `s`, in order, as a vector.
pub fn to_chars(s: &str) -> (r: Vec<char>)
    ensures
        r@ == s@,
{
    let n = s.unicode_len();
    let mut r: Vec<char> = Vec::new();
    let mut i: usize = 0;
    while i < n
        invariant
            n == s@.len(),
            i <= n,
            r@ == s@.subrange(0, i as int),
        decreases n - i,
    {
        r.push(s.get_char(i));
        i = i + 1;
        proof {
            assert(s@.subrange(0, i as int) =~= s@.subrange(0, i - 1).push(s@[i - 1]));
        }
    }
    proof {
        assert(s@.subrange(0, n as int) =~= s@);
    }
    r
}

/// Relies on std's `String::push`: appends exactly the given character.
#[verifier::external_body]
pub fn push_char(s: &mut String, c: char)
    ensures
        final(s)@ == old(s)@.push(c),
{
    s.push(c);
}

/// A string holding exactly the characters of `v`, in order.
pub fn from_chars(v: &Vec<char>) -> (r: String)
    ensures
        r@ == v@,
{
    let mut r = String::new();
    let mut i: usize = 0;
    while i < v.len()
        invariant
            i <= v@.len(),
            r@ == v@.subrange(0, i as int),
        decreases v@.len() - i,
    {
        push_char(&mut r, v[i]);
        i = i + 1;
        proof {
            assert(v@.subrange(0, i as int) =~= v@.subrange(0, i - 1).push(v@[i - 1]));
        }
    }
    proof {
        assert(v@.subrange(0, v@.len() as int) =~= v@);
    }
    r
}

/// The slice `v[a..b]` as a fresh vector.
pub fn subvec(v: &Vec<char>, a: usize, b: usize) -> (r: Vec<char>)
    requires
        a <= b <= v@.len(),
    ensures
        r@ == v@.subrange(a as int, b as int),
{
    let mut r: Vec<char> = Vec::new();
    let mut i: usize = a;
    while i < b
        invariant
            a <= i <= b <= v@.len(),
            r@ == v@.subrange(a as int, i as int),
        decreases b - i,
    {
        r.push(v[i]);
        i = i + 1;
        proof {
            assert(v@.subrange(a as int, i as int) =~= v@.subrange(a as int, i - 1).push(
                v@[i - 1],
            ));
        }
    }
    r
}

/// `v` with leading and trailing whitespace removed.
pub fn trim_chars(v: &Vec<char>) -> (r: Vec<char>)
    ensures
        r@ == trim_spec(v@),
{
    let n = v.len();
    let mut i: usize = 0;
    while i < n && is_space_char(v[i])
        invariant
            i <= n,
            n == v@.len(),
            forall|j: int| 0 <= j < i ==> is_space(v@[j]),
        decreases n - i,
    {
        i = i + 1;
    }
    let mut j: usize = n;
    while j > i && is_space_char(v[j - 1])
        invariant
            i <= j <= n,
            n == v@.len(),
            forall|k: int| j <= k < n ==> is_space(v@[k]),
        decreases j,
    {
        j = j - 1;
    }
    proof {
        lemma_trim_start(v@, i as int);
        let t = v@.subrange(i as int, n as int);
        lemma_trim_end(t, j - i);
        assert(t.subrange(0, j - i) =~= v@.subrange(i as int, j as int));
    }
    subvec(v, i, j)
}

/// Whether `pat` occurs in `s` starting at index `i`.
pub open spec fn has_sub_at(s: Seq<char>, pat: Seq<char>, i: int) -> bool {
    &&& 0 <= i
    &&& i + pat.len() <= s.len()
    &&& s.subrange(i, i + pat.len()) == pat
}

/// Whether `pat` occurs anywhere in `s`.
pub open spec fn contains_sub(s: Seq<char>, pat: Seq<char>) -> bool {
    exists|i: int| has_sub_at(s, pat, i)
}

fn sub_eq_at(v: &Vec<char>, pat: &Vec<char>, i: usize) -> (r: bool)
    requires
        i + pat@.len() <= v@.len(),
    ensures
        r == has_sub_at(v@, pat@, i as int),
{
    let m = pat.len();
    let vn = v.len();
    let mut j: usize = 0;
    while j < m
        invariant
            j <= m,
            m == pat@.len(),
            vn == v@.len(),
            i + m <= vn,
            forall|k: int| 0 <= k < j ==> v@[i + k] == pat@[k],
        decreases m - j,
    {
        if v[i + j] != pat[j] {
            proof {
                assert(v@.subrange(i as int, i + pat@.len())[j as int] == v@[i + j]);
            }
            return false;
        }
        j = j + 1;
    }
    proof {
        assert(v@.subrange(i as int, i + pat@.len()) =~= pat@);
    }
    true
}

/// Whether the characters of `pat` occur, contiguously and in order,
/// anywhere in `v`.
pub fn contains_chars(v: &Vec<char>, pat: &Vec<char>) -> (r: bool)
    ensures
        r == contains_sub(v@, pat@),
{
    if pat.len() > v.len() {
        return false;
    }
    let last = v.len() - pat.len();
    let mut i: usize = 0;
    loop
        invariant
            pat@.len() <= v@.len(),
            last == v@.len() - pat@.len(),
            i <= last,
            forall|k: int| 0 <= k < i ==> !has_sub_at(v@, pat@, k),
        ensures
            forall|k: int| !has_sub_at(v@, pat@, k),
        decreases last - i,
    {
        if sub_eq_at(v, pat, i) {
            assert(has_sub_at(v@, pat@, i as int));
            return true;
        }
        if i == last {
            proof {
                assert forall|k: int| !has_sub_at(v@, pat@, k) by {
                    if 0 <= k < i {
                    } else {
                    }
                }
            }
            break;
        }
        i = i + 1;
    }
    false
}

/// Whether `v` holds exactly the characters of `s`.
pub fn chars_eq_str(v: &Vec<char>, s: &str) -> (r: bool)
    ensures
        r == (v@ == s@),
{
    let n = s.unicode_len();
    if v.len() != n {
        return false;
    }
    let mut i: usize = 0;
    while i < n
        invariant
            i <= n,
            n == s@.len(),
            n == v@.len(),
            forall|j: int| 0 <= j < i ==> v@[j] == s@[j],
        decreases n - i,
    {
        if v[i] != s.get_char(i) {
            return false;
        }
        i = i + 1;
    }
    proof {
        assert(v@ =~= s@);
    }
    true
}


/// Appends all characters of `w`.
pub fn append_chars(out: &mut Vec<char>, w: &Vec<char>)
    ensures
        final(out)@ == old(out)@ + w@,
{
    let ghost pre = out@;
    let mut i: usize = 0;
    while i < w.len()
        invariant
            i <= w@.len(),
            out@ == pre + w@.subrange(0, i as int),
        decreases w@.len() - i,
    {
        out.push(w[i]);
        i = i + 1;
        proof {
            assert(pre + w@.subrange(0, i as int) =~= (pre + w@.subrange(0, i - 1)).push(
                w@[i - 1],
            ));
        }
    }
    proof {
        assert(pre + w@.subrange(0, w@.len() as int) =~= pre + w@);
    }
}

} // verus!

