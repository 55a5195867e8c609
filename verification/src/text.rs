//! Character-level text model and the searching, trimming and rewriting
//! primitives that the CalDAV response scanners are built from.
//!
//! Every position in this module counts characters (`char`s), and every
//! pattern that the library searches for is ASCII, so a match found here
//! starts and ends exactly where the byte-level search of `str` would.
use vstd::prelude::*;

verus! {

/// `pat` occurs in `s` starting at index `i`.
pub open spec fn occurs_at(s: Seq<char>, i: int, pat: Seq<char>) -> bool {
    &&& 0 <= i
    &&& i + pat.len() <= s.len()
    &&& s.subrange(i, i + pat.len()) == pat
}

/// The first index `i >= from` at which `pat` occurs in `s`.
pub open spec fn find_from(s: Seq<char>, pat: Seq<char>, from: int) -> Option<int>
    decreases s.len() - from,
{
    if from < 0 || from + pat.len() > s.len() {
        None
    } else if occurs_at(s, from, pat) {
        Some(from)
    } else {
        proof {
            if pat.len() == 0 {
                assert(s.subrange(from, from + pat.len()) =~= pat);
            }
        }
        find_from(s, pat, from + 1)
    }
}

/// `pat` occurs somewhere in `s`.
pub open spec fn contains(s: Seq<char>, pat: Seq<char>) -> bool {
    exists|i: int| occurs_at(s, i, pat)
}

pub open spec fn starts_with(s: Seq<char>, pat: Seq<char>) -> bool {
    occurs_at(s, 0, pat)
}

pub open spec fn ends_with(s: Seq<char>, pat: Seq<char>) -> bool {
    pat.len() <= s.len() && occurs_at(s, s.len() - pat.len(), pat)
}

/// The greatest index `i <= hi` at which `pat` occurs in `s`.
pub open spec fn rfind_upto(s: Seq<char>, pat: Seq<char>, hi: int) -> Option<int>
    decreases hi + 1,
{
    if hi < 0 {
        None
    } else if occurs_at(s, hi, pat) {
        Some(hi)
    } else {
        rfind_upto(s, pat, hi - 1)
    }
}

/// The last index at which `pat` occurs in `s`.
pub open spec fn rfind(s: Seq<char>, pat: Seq<char>) -> Option<int> {
    rfind_upto(s, pat, s.len() - pat.len())
}

/// The characters that `char::is_whitespace` accepts: those with the
/// Unicode `White_Space` property.
pub open spec fn is_whitespace(c: char) -> bool {
    ||| c == ' '
    ||| ('\t' <= c && c <= '\r')
    ||| c == '\u{85}'
    ||| c == '\u{a0}'
    ||| c == '\u{1680}'
    ||| ('\u{2000}' <= c && c <= '\u{200a}')
    ||| c == '\u{2028}'
    ||| c == '\u{2029}'
    ||| c == '\u{202f}'
    ||| c == '\u{205f}'
    ||| c == '\u{3000}'
}

pub open spec fn trim_start(s: Seq<char>) -> Seq<char>
    decreases s.len(),
{
    if s.len() > 0 && is_whitespace(s[0]) {
        trim_start(s.drop_first())
    } else {
        s
    }
}

pub open spec fn trim_end(s: Seq<char>) -> Seq<char>
    decreases s.len(),
{
    if s.len() > 0 && is_whitespace(s.last()) {
        trim_end(s.drop_last())
    } else {
        s
    }
}

/// `s` without its leading and trailing whitespace, as `str::trim` gives it.
pub open spec fn trim(s: Seq<char>) -> Seq<char> {
    trim_end(trim_start(s))
}

/// The rewriting of `s` from index `i` on in which every occurrence of `pat`
/// (found left to right, without overlap) is replaced by `rep`.
pub open spec fn replace_from(s: Seq<char>, pat: Seq<char>, rep: Seq<char>, i: int) -> Seq<char>
    recommends
        0 <= i <= s.len(),
    decreases s.len() - i,
{
    if pat.len() == 0 || i + pat.len() > s.len() {
        s.subrange(i, s.len() as int)
    } else if occurs_at(s, i, pat) {
        rep + replace_from(s, pat, rep, i + pat.len())
    } else {
        seq![s[i]] + replace_from(s, pat, rep, i + 1)
    }
}

/// `s` with every occurrence of `pat` replaced by `rep`, as `str::replace` gives it.
pub open spec fn replace_all(s: Seq<char>, pat: Seq<char>, rep: Seq<char>) -> Seq<char> {
    replace_from(s, pat, rep, 0)
}

/// What `find_from` returns: the first occurrence at or after `from`, or none at all.
pub proof fn lemma_find_from(s: Seq<char>, pat: Seq<char>, from: int)
    requires
        0 <= from,
    ensures
        match find_from(s, pat, from) {
            Some(i) => {
                &&& from <= i
                &&& i + pat.len() <= s.len()
                &&& occurs_at(s, i, pat)
                &&& forall|j: int| from <= j < i ==> !occurs_at(s, j, pat)
            },
            None => forall|j: int| from <= j ==> !occurs_at(s, j, pat),
        },
    decreases s.len() - from,
{
    if from + pat.len() > s.len() {
    } else if occurs_at(s, from, pat) {
    } else {
        if pat.len() == 0 {
            assert(s.subrange(from, from + pat.len()) =~= pat);
        }
        lemma_find_from(s, pat, from + 1);
    }
}

/// What `rfind_upto` returns: the last occurrence at or before `hi`.
pub proof fn lemma_rfind_upto(s: Seq<char>, pat: Seq<char>, hi: int)
    ensures
        match rfind_upto(s, pat, hi) {
            Some(i) => {
                &&& 0 <= i <= hi
                &&& occurs_at(s, i, pat)
                &&& forall|j: int| i < j <= hi ==> !occurs_at(s, j, pat)
            },
            None => forall|j: int| j <= hi ==> !occurs_at(s, j, pat),
        },
    decreases hi + 1,
{
    if hi >= 0 && !occurs_at(s, hi, pat) {
        lemma_rfind_upto(s, pat, hi - 1);
    }
}

/// `contains` holds exactly when a search from the start succeeds.
pub proof fn lemma_contains_find(s: Seq<char>, pat: Seq<char>)
    ensures
        contains(s, pat) <==> find_from(s, pat, 0) is Some,
{
    lemma_find_from(s, pat, 0);
    if let Some(i) = find_from(s, pat, 0) {
        assert(occurs_at(s, i, pat));
    }
}

/// The characters of `s`, in order.
pub fn chars_of(s: &str) -> (v: Vec<char>)
    ensures
        v@ == s@,
{
    let mut v: Vec<char> = Vec::new();
    for c in it: s.chars()
        invariant
            v@ == it.seq().take(it.index() as int),
            it.seq() == s@,
    {
        v.push(c);
    }
    v
}

/// The characters of `text` from index `from` up to (not including) `to`, as a `String`.
pub fn substring(text: &str, from: usize, to: usize) -> (r: String)
    requires
        from <= to <= text@.len(),
    ensures
        r@ == text@.subrange(from as int, to as int),
{
    String::from_str(text.substring_char(from, to))
}

/// Whether `pat` occurs in `s` at index `i`.
pub fn matches_at(s: &[char], pat: &[char], i: usize) -> (r: bool)
    ensures
        r == occurs_at(s@, i as int, pat@),
{
    let n = s.len();
    let m = pat.len();
    if m > n || i > n - m {
        return false;
    }
    let mut k: usize = 0;
    while k < m
        invariant
            m == pat@.len(),
            n == s@.len(),
            i + m <= n,
            k <= m,
            forall|t: int| 0 <= t < k ==> s@[i + t] == pat@[t],
        decreases m - k,
    {
        if s[i + k] != pat[k] {
            assert(s@.subrange(i as int, i + m)[k as int] != pat@[k as int]);
            return false;
        }
        k = k + 1;
    }
    assert(s@.subrange(i as int, i + m) =~= pat@);
    true
}

/// The first index at or after `from` at which `pat` occurs in `s`.
pub fn find_chars(s: &[char], pat: &[char], from: usize) -> (r: Option<usize>)
    ensures
        match r {
            Some(i) => find_from(s@, pat@, from as int) == Some(i as int),
            None => find_from(s@, pat@, from as int) is None,
        },
{
    let n = s.len();
    let m = pat.len();
    if m > n || from > n - m {
        return None;
    }
    let mut i: usize = from;
    while i <= n - m
        invariant
            m == pat@.len(),
            n == s@.len(),
            m <= n,
            from <= i,
            find_from(s@, pat@, from as int) == find_from(s@, pat@, i as int),
        decreases n - i,
    {
        if matches_at(s, pat, i) {
            return Some(i);
        }
        if m == 0 {
            assert(s@.subrange(i as int, i as int) =~= pat@);
        }
        i = i + 1;
    }
    None
}

/// The last index at which `pat` occurs in `s`.
pub fn rfind_chars(s: &[char], pat: &[char]) -> (r: Option<usize>)
    ensures
        match r {
            Some(i) => rfind(s@, pat@) == Some(i as int),
            None => rfind(s@, pat@) is None,
        },
{
    let n = s.len();
    let m = pat.len();
    if m > n {
        return None;
    }
    let mut hi: usize = n - m;
    loop
        invariant
            m == pat@.len(),
            n == s@.len(),
            m <= n,
            hi <= n - m,
            rfind(s@, pat@) == rfind_upto(s@, pat@, hi as int),
        decreases hi,
    {
        if matches_at(s, pat, hi) {
            return Some(hi);
        }
        if hi == 0 {
            return None;
        }
        hi = hi - 1;
    }
}

/// Whether `pat` occurs anywhere in `s`.
pub fn contains_chars(s: &[char], pat: &[char]) -> (r: bool)
    ensures
        r == contains(s@, pat@),
{
    proof {
        lemma_contains_find(s@, pat@);
    }
    find_chars(s, pat, 0).is_some()
}

/// Whether `c` is whitespace in the sense of `char::is_whitespace`.
pub fn is_whitespace_char(c: char) -> (r: bool)
    ensures
        r == is_whitespace(c),
{
    c == ' ' || ('\t' <= c && c <= '\r') || c == '\u{85}' || c == '\u{a0}' || c == '\u{1680}'
        || ('\u{2000}' <= c && c <= '\u{200a}') || c == '\u{2028}' || c == '\u{2029}'
        || c == '\u{202f}' || c == '\u{205f}' || c == '\u{3000}'
}

/// The bounds of `s[a..b]` once its leading and trailing whitespace is dropped.
pub fn trim_bounds(s: &[char], a: usize, b: usize) -> (r: (usize, usize))
    requires
        a <= b <= s@.len(),
    ensures
        a <= r.0 <= r.1 <= b,
        s@.subrange(r.0 as int, r.1 as int) == trim(s@.subrange(a as int, b as int)),
{
    let mut i: usize = a;
    while i < b && is_whitespace_char(s[i])
        invariant
            a <= i <= b,
            b <= s@.len(),
            trim_start(s@.subrange(a as int, b as int)) == trim_start(
                s@.subrange(i as int, b as int),
            ),
        decreases b - i,
    {
        assert(s@.subrange(i as int, b as int).drop_first() =~= s@.subrange(i + 1, b as int));
        i = i + 1;
    }
    let mut j: usize = b;
    while j > i && is_whitespace_char(s[j - 1])
        invariant
            i <= j <= b,
            b <= s@.len(),
            trim_end(s@.subrange(i as int, b as int)) == trim_end(s@.subrange(i as int, j as int)),
        decreases j - i,
    {
        assert(s@.subrange(i as int, j as int).drop_last() =~= s@.subrange(i as int, j - 1));
        j = j - 1;
    }
    (i, j)
}

/// `text` with every occurrence of `pat` replaced by `rep`, as `str::replace` gives it.
pub fn replace_text(text: &str, pat: &str, rep: &str) -> (r: String)
    requires
        pat@.len() > 0,
    ensures
        r@ == replace_all(text@, pat@, rep@),
{
    let s = chars_of(text);
    let p = chars_of(pat);
    let n = s.len();
    let m = p.len();
    let mut out = String::new();
    let mut run: usize = 0;
    let mut i: usize = 0;
    while i < n
        invariant
            s@ == text@,
            p@ == pat@,
            n == s@.len(),
            m == p@.len(),
            m > 0,
            run <= i <= n,
            out@ + s@.subrange(run as int, i as int) + replace_from(s@, p@, rep@, i as int)
                == replace_all(s@, p@, rep@),
        decreases n - i,
    {
        if m <= n - i && matches_at(s.as_slice(), p.as_slice(), i) {
            let piece = substring(text, run, i);
            let ghost before = out@;
            out.append(piece.as_str());
            out.append(rep);
            assert(before + s@.subrange(run as int, i as int) + (rep@ + replace_from(
                s@,
                p@,
                rep@,
                i + m,
            )) =~= out@ + s@.subrange((i + m) as int, (i + m) as int) + replace_from(
                s@,
                p@,
                rep@,
                i + m,
            ));
            i = i + m;
            run = i;
        } else {
            assert(replace_from(s@, p@, rep@, i as int) =~= seq![s@[i as int]] + replace_from(
                s@,
                p@,
                rep@,
                i + 1,
            ));
            assert(s@.subrange(run as int, i as int) + seq![s@[i as int]] =~= s@.subrange(
                run as int,
                i + 1,
            ));
            i = i + 1;
        }
    }
    assert(replace_from(s@, p@, rep@, n as int) =~= Seq::<char>::empty());
    let tail = substring(text, run, n);
    out.append(tail.as_str());
    out
}

/// Whether `a` and `b` hold the same characters.
pub fn same_chars(a: &[char], b: &[char]) -> (r: bool)
    ensures
        r == (a@ == b@),
{
    if a.len() != b.len() {
        return false;
    }
    let r = matches_at(a, b, 0);
    assert(a@.subrange(0, b@.len() as int) =~= a@);
    r
}

/// The views of a sequence of character vectors.
pub open spec fn views(v: Seq<Vec<char>>) -> Seq<Seq<char>> {
    v.map_values(|p: Vec<char>| p@)
}

/// Whether `s` ends with `pat`.
pub fn ends_with_chars(s: &[char], pat: &[char]) -> (r: bool)
    ensures
        r == ends_with(s@, pat@),
{
    pat.len() <= s.len() && matches_at(s, pat, s.len() - pat.len())
}

/// Whether `s` starts with `pat`.
pub fn starts_with_chars(s: &[char], pat: &[char]) -> (r: bool)
    ensures
        r == starts_with(s@, pat@),
{
    matches_at(s, pat, 0)
}

} // verus!
