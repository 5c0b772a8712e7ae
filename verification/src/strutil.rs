//! Character-sequence utilities shared by the parsers and renderers.
//!
//! Text is handled as sequences of `char`s; every position below is a
//! character index.
use vstd::prelude::*;

verus! {

/// The Unicode `White_Space` property, as `char::is_whitespace` documents it.
pub open spec fn is_ws(c: char) -> bool {
    ||| ('\u{9}' <= c && c <= '\u{d}')
    ||| c == ' '
    ||| c == '\u{85}'
    ||| c == '\u{a0}'
    ||| c == '\u{1680}'
    ||| ('\u{2000}' <= c && c <= '\u{200a}')
    ||| c == '\u{2028}'
    ||| c == '\u{2029}'
    ||| c == '\u{202f}'
    ||| c == '\u{205f}'
    ||| c == '\u{3000}'
}

/// Whether `c` is white space (Unicode `White_Space`).
pub fn is_whitespace(c: char) -> (r: bool)
    ensures
        r == is_ws(c),
{
    ('\u{9}' <= c && c <= '\u{d}') || c == ' ' || c == '\u{85}' || c == '\u{a0}' || c
        == '\u{1680}' || ('\u{2000}' <= c && c <= '\u{200a}') || c == '\u{2028}' || c
        == '\u{2029}' || c == '\u{202f}' || c == '\u{205f}' || c == '\u{3000}'
}

/// `s` without its leading white space.
pub open spec fn trim_start(s: Seq<char>) -> Seq<char>
    decreases s.len(),
{
    if s.len() > 0 && is_ws(s[0]) {
        trim_start(s.drop_first())
    } else {
        s
    }
}

/// `s` without its trailing white space.
pub open spec fn trim_end(s: Seq<char>) -> Seq<char>
    decreases s.len(),
{
    if s.len() > 0 && is_ws(s.last()) {
        trim_end(s.drop_last())
    } else {
        s
    }
}

/// `s` without leading and trailing white space (`str::trim`).
pub open spec fn trim(s: Seq<char>) -> Seq<char> {
    trim_end(trim_start(s))
}

/// Every character of `s` is white space.
pub open spec fn all_ws(s: Seq<char>) -> bool {
    forall|i: int| 0 <= i < s.len() ==> is_ws(#[trigger] s[i])
}

pub proof fn lemma_trim_start_skip(s: Seq<char>, a: int)
    requires
        0 <= a <= s.len(),
        forall|i: int| 0 <= i < a ==> is_ws(#[trigger] s[i]),
    ensures
        trim_start(s) == trim_start(s.skip(a)),
    decreases a,
{
    if a > 0 {
        assert(s.drop_first().skip(a - 1) =~= s.skip(a));
        lemma_trim_start_skip(s.drop_first(), a - 1);
    } else {
        assert(s.skip(0) =~= s);
    }
}

pub proof fn lemma_trim_end_take(s: Seq<char>, b: int)
    requires
        0 <= b <= s.len(),
        forall|i: int| b <= i < s.len() ==> is_ws(#[trigger] s[i]),
    ensures
        trim_end(s) == trim_end(s.take(b)),
    decreases s.len() - b,
{
    if b < s.len() {
        assert(s.drop_last().take(b) =~= s.take(b));
        lemma_trim_end_take(s.drop_last(), b);
    } else {
        assert(s.take(b) =~= s);
    }
}

pub proof fn lemma_trim_start_len(s: Seq<char>)
    ensures
        trim_start(s).len() <= s.len(),
        trim_start(s).len() == 0 <==> all_ws(s),
        trim_start(s).len() > 0 ==> !is_ws(trim_start(s)[0]),
    decreases s.len(),
{
    if s.len() > 0 && is_ws(s[0]) {
        lemma_trim_start_len(s.drop_first());
        if all_ws(s.drop_first()) {
            assert forall|i: int| 0 <= i < s.len() implies is_ws(#[trigger] s[i]) by {
                if i > 0 {
                    assert(s[i] == s.drop_first()[i - 1]);
                }
            }
        }
        if all_ws(s) {
            assert forall|i: int| 0 <= i < s.drop_first().len() implies is_ws(
                #[trigger] s.drop_first()[i],
            ) by {
                assert(s.drop_first()[i] == s[i + 1]);
            }
        }
    }
}

pub proof fn lemma_trim_end_len(s: Seq<char>)
    ensures
        trim_end(s).len() <= s.len(),
        trim_end(s).len() == 0 <==> all_ws(s),
        trim_end(s).len() > 0 ==> !is_ws(trim_end(s).last()),
        trim_end(s) =~= s.take(trim_end(s).len() as int),
    decreases s.len(),
{
    if s.len() > 0 && is_ws(s.last()) {
        lemma_trim_end_len(s.drop_last());
        assert(s.drop_last().take(trim_end(s).len() as int) =~= s.take(
            trim_end(s).len() as int,
        ));
        if all_ws(s.drop_last()) {
            assert forall|i: int| 0 <= i < s.len() implies is_ws(#[trigger] s[i]) by {
                if i < s.len() - 1 {
                    assert(s[i] == s.drop_last()[i]);
                }
            }
        }
        if all_ws(s) {
            assert forall|i: int| 0 <= i < s.drop_last().len() implies is_ws(
                #[trigger] s.drop_last()[i],
            ) by {
                assert(s.drop_last()[i] == s[i]);
            }
        }
    } else {
        assert(s.take(s.len() as int) =~= s);
    }
}

/// `trim(s)` is empty exactly when `s` is all white space.
pub proof fn lemma_trim_empty(s: Seq<char>)
    ensures
        trim(s).len() == 0 <==> all_ws(s),
        trim(s).len() <= s.len(),
{
    lemma_trim_start_len(s);
    lemma_trim_end_len(trim_start(s));
    if all_ws(trim_start(s)) && !all_ws(s) {
        assert(!is_ws(trim_start(s)[0]));
    }
}

/// The bounds `(a, b)` with `s[a..b] == trim(s[lo..hi])`.
pub fn trim_bounds(s: &[char], lo: usize, hi: usize) -> (r: (usize, usize))
    requires
        lo <= hi <= s@.len(),
    ensures
        lo <= r.0 <= r.1 <= hi,
        s@.subrange(r.0 as int, r.1 as int) == trim(s@.subrange(lo as int, hi as int)),
{
    let mut a = lo;
    while a < hi && is_whitespace(s[a])
        invariant
            lo <= a <= hi <= s@.len(),
            trim_start(s@.subrange(lo as int, hi as int)) == trim_start(
                s@.subrange(a as int, hi as int),
            ),
        decreases hi - a,
    {
        proof {
            let t = s@.subrange(a as int, hi as int);
            assert(t.drop_first() =~= s@.subrange(a + 1, hi as int));
        }
        a = a + 1;
    }
    let mut b = hi;
    while b > a && is_whitespace(s[b - 1])
        invariant
            lo <= a <= b <= hi <= s@.len(),
            trim_end(s@.subrange(a as int, hi as int)) == trim_end(
                s@.subrange(a as int, b as int),
            ),
            trim_start(s@.subrange(lo as int, hi as int)) == s@.subrange(a as int, hi as int),
        decreases b - a,
    {
        proof {
            let t = s@.subrange(a as int, b as int);
            assert(t.drop_last() =~= s@.subrange(a as int, b - 1));
        }
        b = b - 1;
    }
    (a, b)
}

/// `str::trim` on a character vector.
pub fn trimmed(s: &[char]) -> (r: Vec<char>)
    ensures
        r@ == trim(s@),
{
    let (a, b) = trim_bounds(s, 0, s.len());
    assert(s@.subrange(0, s@.len() as int) =~= s@);
    copy_range(s, a, b)
}

/// A copy of `s[a..b]`.
pub fn copy_range(s: &[char], a: usize, b: usize) -> (r: Vec<char>)
    requires
        a <= b <= s@.len(),
    ensures
        r@ == s@.subrange(a as int, b as int),
{
    let mut r: Vec<char> = Vec::new();
    let mut i = a;
    while i < b
        invariant
            a <= i <= b <= s@.len(),
            r@ == s@.subrange(a as int, i as int),
        decreases b - i,
    {
        r.push(s[i]);
        i = i + 1;
        assert(r@ =~= s@.subrange(a as int, i as int));
    }
    r
}

/// The characters of `s`.
pub fn chars_of(s: &str) -> (r: Vec<char>)
    ensures
        r@ == s@,
{
    let mut r: Vec<char> = Vec::new();
    for c in it: s.chars()
        invariant
            it.seq() == s@,
            r@ == s@.take(it.index()),
            it.index() == s@.len() ==> r@ == s@,
    {
        r.push(c);
    }
    r
}


/// `String::push`: appends one character.
#[verifier::external_body]
pub fn push_char(s: &mut String, c: char)
    ensures
        final(s)@ == old(s)@.push(c),
{
    s.push(c);
}

/// Appends the characters `v` to `s`.
pub fn push_chars(s: &mut String, v: &[char])
    ensures
        final(s)@ == old(s)@ + v@,
{
    let mut i: usize = 0;
    while i < v.len()
        invariant
            i <= v@.len(),
            s@ == old(s)@ + v@.take(i as int),
        decreases v.len() - i,
    {
        push_char(s, v[i]);
        i = i + 1;
        assert(s@ =~= old(s)@ + v@.take(i as int));
    }
    assert(v@.take(i as int) =~= v@);
}

/// Appends the string `t` to `s`.
pub fn push_str(s: &mut String, t: &str)
    ensures
        final(s)@ == old(s)@ + t@,
{
    s.append(t);
}

/// A `String` holding the characters `v`.
pub fn string_of(v: &[char]) -> (r: String)
    ensures
        r@ == v@,
{
    let mut r = String::new();
    push_chars(&mut r, v);
    assert(r@ =~= v@);
    r
}


/// `pat` occurs in `s` at position `k`.
pub open spec fn matches_at(s: Seq<char>, k: int, pat: Seq<char>) -> bool {
    0 <= k && k + pat.len() <= s.len() && s.subrange(k, k + pat.len()) == pat
}

/// The first position `k >= i` at which `pat` occurs in `s`.
pub open spec fn find_from(s: Seq<char>, pat: Seq<char>, i: int) -> Option<int>
    decreases s.len() + 1 - i,
{
    if i < 0 || i + pat.len() > s.len() {
        None
    } else if matches_at(s, i, pat) {
        Some(i)
    } else {
        find_from(s, pat, i + 1)
    }
}

pub proof fn lemma_find_from_props(s: Seq<char>, pat: Seq<char>, i: int)
    requires
        0 <= i,
    ensures
        find_from(s, pat, i) matches Some(k) ==> i <= k && matches_at(s, k, pat) && forall|
            j: int,
        |
            i <= j < k ==> !matches_at(s, j, pat),
        find_from(s, pat, i) is None ==> forall|j: int| i <= j ==> !matches_at(s, j, pat),
    decreases s.len() + 1 - i,
{
    if i + pat.len() > s.len() {
    } else if matches_at(s, i, pat) {
    } else {
        lemma_find_from_props(s, pat, i + 1);
    }
}

/// Whether `pat` occurs in `s` at position `k` (`k + pat.len() <= s.len()`).
pub fn matches_here(s: &[char], k: usize, pat: &[char]) -> (r: bool)
    requires
        k + pat@.len() <= s@.len(),
    ensures
        r == matches_at(s@, k as int, pat@),
{
    let mut j: usize = 0;
    while j < pat.len()
        invariant
            j <= pat@.len(),
            k + pat@.len() <= s@.len(),
            s@.len() == s.len(),
            forall|m: int| 0 <= m < j ==> s@[k + m] == pat@[m],
        decreases pat.len() - j,
    {
        if s[k + j] != pat[j] {
            assert(s@.subrange(k as int, k + pat@.len())[j as int] != pat@[j as int]);
            return false;
        }
        j = j + 1;
    }
    assert(s@.subrange(k as int, k + pat@.len()) =~= pat@);
    true
}

/// `str::find` from position `i`: the first occurrence of `pat` at or after `i`.
pub fn find(s: &[char], pat: &[char], i: usize) -> (r: Option<usize>)
    ensures
        r matches Some(k) ==> find_from(s@, pat@, i as int) == Some(k as int),
        r is None ==> find_from(s@, pat@, i as int) is None,
{
    if pat.len() > s.len() {
        return None;
    }
    let mut k = i;
    while k <= s.len() - pat.len()
        invariant
            i <= k,
            pat@.len() <= s@.len(),
            s@.len() == s.len(),
            pat@.len() == pat.len(),
            find_from(s@, pat@, i as int) == find_from(s@, pat@, k as int),
        decreases s.len() + 1 - k,
    {
        if matches_here(s, k, pat) {
            return Some(k);
        }
        if k == s.len() - pat.len() {
            assert(find_from(s@, pat@, k + 1) is None);
            return None;
        }
        k = k + 1;
    }
    None
}

/// The first occurrence of `pat` anywhere in `s`.
pub open spec fn find_seq(s: Seq<char>, pat: Seq<char>) -> Option<int> {
    find_from(s, pat, 0)
}

/// `s` contains `pat`.
pub open spec fn contains_seq(s: Seq<char>, pat: Seq<char>) -> bool {
    find_seq(s, pat) is Some
}

/// `str::contains`.
pub fn contains(s: &[char], pat: &[char]) -> (r: bool)
    ensures
        r == contains_seq(s@, pat@),
{
    find(s, pat, 0).is_some()
}

/// `str::contains` with a string-literal pattern.
pub fn contains_str(s: &[char], pat: &str) -> (r: bool)
    ensures
        r == contains_seq(s@, pat@),
{
    let p = chars_of(pat);
    contains(s, &p)
}

/// `s` starts with `pat`.
pub open spec fn starts_with(s: Seq<char>, pat: Seq<char>) -> bool {
    matches_at(s, 0, pat)
}

/// A line without the `'\r'` that ends it, if any.
pub open spec fn strip_cr(l: Seq<char>) -> Seq<char> {
    if l.len() > 0 && l.last() == '\r' {
        l.drop_last()
    } else {
        l
    }
}

/// The position of the first `'\n'` in `s`.
pub open spec fn first_newline(s: Seq<char>) -> Option<int> {
    find_from(s, seq!['\n'], 0)
}

/// `str::lines`: the lines of `s`, split at `'\n'`; a line ended by `'\n'` loses a
/// final `'\r'`, and a final line ending adds no empty line.
pub open spec fn lines(s: Seq<char>) -> Seq<Seq<char>>
    decreases s.len(),
{
    if s.len() == 0 {
        seq![]
    } else {
        match first_newline(s) {
            None => seq![s],
            Some(k) => {
                proof {
                    lemma_find_from_props(s, seq!['\n'], 0);
                }
                seq![strip_cr(s.take(k))] + lines(s.skip(k + 1))
            },
        }
    }
}

/// The non-empty trimmed forms of the lines `ls`, in order.
pub open spec fn nonblank(ls: Seq<Seq<char>>) -> Seq<Seq<char>>
    decreases ls.len(),
{
    if ls.len() == 0 {
        seq![]
    } else {
        let t = trim(ls[0]);
        if t.len() == 0 {
            nonblank(ls.drop_first())
        } else {
            seq![t] + nonblank(ls.drop_first())
        }
    }
}

/// The non-empty trimmed lines of `s`.
pub open spec fn nonblank_lines_of(s: Seq<char>) -> Seq<Seq<char>> {
    nonblank(lines(s))
}

pub proof fn lemma_newline_at_from(t: Seq<char>, k: int, j: int)
    requires
        0 <= j <= k < t.len(),
        t[k] == '\n',
        forall|m: int| 0 <= m < k ==> t[m] != '\n',
    ensures
        find_from(t, seq!['\n'], j) == Some(k),
    decreases k - j,
{
    let p = seq!['\n'];
    if j < k {
        assert(t.subrange(j, j + 1)[0] == t[j]);
        assert(!matches_at(t, j, p));
        lemma_newline_at_from(t, k, j + 1);
    } else {
        assert(t.subrange(k, k + 1) =~= p);
    }
}

pub proof fn lemma_newline_at(t: Seq<char>, k: int)
    requires
        0 <= k < t.len(),
        t[k] == '\n',
        forall|j: int| 0 <= j < k ==> t[j] != '\n',
    ensures
        first_newline(t) == Some(k),
{
    lemma_newline_at_from(t, k, 0);
}

pub proof fn lemma_no_newline(t: Seq<char>)
    requires
        forall|j: int| 0 <= j < t.len() ==> t[j] != '\n',
    ensures
        first_newline(t) is None,
{
    let p = seq!['\n'];
    lemma_find_from_props(t, p, 0);
    if first_newline(t) is Some {
        let k = first_newline(t)->0;
        assert(t.subrange(k, k + 1)[0] == t[k]);
    }
}

/// The character sequences held by a sequence of vectors.
pub open spec fn seqs_of(v: Seq<Vec<char>>) -> Seq<Seq<char>> {
    v.map_values(|x: Vec<char>| x@)
}

/// The non-empty trimmed lines of `s` (`s.lines()` followed by `trim` and a
/// non-empty filter).
pub fn nonblank_lines(s: &[char]) -> (r: Vec<Vec<char>>)
    ensures
        seqs_of(r@) == nonblank_lines_of(s@),
{
    let mut out: Vec<Vec<char>> = Vec::new();
    let mut start: usize = 0;
    let mut i: usize = 0;
    assert(s@.skip(0) =~= s@);
    while i < s.len()
        invariant
            start <= i <= s@.len(),
            forall|j: int| start <= j < i ==> s@[j] != '\n',
            nonblank(lines(s@)) == seqs_of(out@) + nonblank(lines(s@.skip(start as int))),
        decreases s.len() - i,
    {
        if s[i] == '\n' {
            let mut end = i;
            if end > start && s[end - 1] == '\r' {
                end = end - 1;
            }
            let (a, b) = trim_bounds(s, start, end);
            let ghost t = s@.skip(start as int);
            let ghost k = i - start;
            proof {
                lemma_newline_at(t, k);
                assert(t.take(k) =~= s@.subrange(start as int, i as int));
                assert(strip_cr(t.take(k)) =~= s@.subrange(start as int, end as int));
                assert(t.skip(k + 1) =~= s@.skip(i + 1));
                let ls = lines(t);
                assert(ls[0] == strip_cr(t.take(k)));
                assert(ls.drop_first() =~= lines(s@.skip(i + 1)));
            }
            if a < b {
                let line = copy_range(s, a, b);
                let ghost before = seqs_of(out@);
                out.push(line);
                proof {
                    assert(seqs_of(out@) =~= before.push(line@));
                    assert(nonblank(lines(t)) == seq![trim(strip_cr(t.take(k)))] + nonblank(
                        lines(s@.skip(i + 1)),
                    ));
                    assert(nonblank(lines(s@)) =~= seqs_of(out@) + nonblank(
                        lines(s@.skip(i + 1)),
                    ));
                }
            } else {
                proof {
                    assert(nonblank(lines(t)) == nonblank(lines(s@.skip(i + 1))));
                }
            }
            start = i + 1;
        }
        i = i + 1;
    }
    if start < s.len() {
        let ghost t = s@.skip(start as int);
        proof {
            lemma_no_newline(t);
            assert(lines(t) =~= seq![t]);
            assert(seq![t].drop_first() =~= Seq::<Seq<char>>::empty());
            assert(t =~= s@.subrange(start as int, s@.len() as int));
            assert(nonblank(Seq::<Seq<char>>::empty()) =~= Seq::<Seq<char>>::empty());
            if trim(t).len() == 0 {
                assert(nonblank(seq![t]) =~= Seq::<Seq<char>>::empty());
            } else {
                assert(nonblank(seq![t]) =~= seq![trim(t)]);
            }
        }
        let (a, b) = trim_bounds(s, start, s.len());
        if a < b {
            let line = copy_range(s, a, b);
            let ghost before = seqs_of(out@);
            out.push(line);
            proof {
                assert(seqs_of(out@) =~= before.push(line@));
                assert(nonblank(lines(s@)) =~= seqs_of(out@));
            }
        } else {
            proof {
                assert(nonblank(lines(s@)) =~= seqs_of(out@));
            }
        }
    } else {
        proof {
            assert(s@.skip(start as int).len() == 0);
            assert(nonblank(lines(s@)) =~= seqs_of(out@));
        }
    }
    out
}


/// The lines of `s` (`str::lines`).
pub fn all_lines(s: &[char]) -> (r: Vec<Vec<char>>)
    ensures
        seqs_of(r@) == lines(s@),
{
    let mut out: Vec<Vec<char>> = Vec::new();
    let mut start: usize = 0;
    let mut i: usize = 0;
    assert(s@.skip(0) =~= s@);
    while i < s.len()
        invariant
            start <= i <= s@.len(),
            forall|j: int| start <= j < i ==> s@[j] != '\n',
            lines(s@) == seqs_of(out@) + lines(s@.skip(start as int)),
        decreases s.len() - i,
    {
        if s[i] == '\n' {
            let mut end = i;
            if end > start && s[end - 1] == '\r' {
                end = end - 1;
            }
            let ghost t = s@.skip(start as int);
            let ghost k = i - start;
            proof {
                lemma_newline_at(t, k);
                assert(t.take(k) =~= s@.subrange(start as int, i as int));
                assert(strip_cr(t.take(k)) =~= s@.subrange(start as int, end as int));
                assert(t.skip(k + 1) =~= s@.skip(i + 1));
            }
            let line = copy_range(s, start, end);
            let ghost before = seqs_of(out@);
            out.push(line);
            proof {
                assert(seqs_of(out@) =~= before.push(line@));
                assert(lines(s@) =~= seqs_of(out@) + lines(s@.skip(i + 1)));
            }
            start = i + 1;
        }
        i = i + 1;
    }
    if start < s.len() {
        let ghost t = s@.skip(start as int);
        proof {
            lemma_no_newline(t);
            assert(lines(t) =~= seq![t]);
            assert(t =~= s@.subrange(start as int, s@.len() as int));
        }
        let line = copy_range(s, start, s.len());
        let ghost before = seqs_of(out@);
        out.push(line);
        proof {
            assert(seqs_of(out@) =~= before.push(line@));
            assert(lines(s@) =~= seqs_of(out@));
        }
    } else {
        proof {
            assert(s@.skip(start as int).len() == 0);
            assert(lines(s@) =~= seqs_of(out@));
        }
    }
    out
}

/// The length of the run of non-white-space characters that starts `t`.
pub open spec fn word_len(t: Seq<char>) -> nat
    decreases t.len(),
{
    if t.len() == 0 || is_ws(t[0]) {
        0
    } else {
        1 + word_len(t.drop_first())
    }
}

/// `str::split_whitespace`: the maximal runs of non-white-space characters of `s`.
pub open spec fn words(s: Seq<char>) -> Seq<Seq<char>>
    decreases s.len(),
{
    let t = trim_start(s);
    if t.len() == 0 {
        seq![]
    } else {
        proof {
            lemma_trim_start_len(s);
            lemma_word_len_bound(t);
        }
        let k = word_len(t) as int;
        seq![t.take(k)] + words(t.skip(k))
    }
}

/// The parts joined with `sep` between consecutive parts (`join`).
pub open spec fn join(parts: Seq<Seq<char>>, sep: Seq<char>) -> Seq<char>
    decreases parts.len(),
{
    if parts.len() == 0 {
        seq![]
    } else if parts.len() == 1 {
        parts[0]
    } else {
        join(parts.drop_last(), sep) + sep + parts.last()
    }
}

/// `s.split_whitespace().collect::<Vec<_>>().join(" ")`.
pub open spec fn collapse_ws(s: Seq<char>) -> Seq<char> {
    join(words(s), seq![' '])
}

pub proof fn lemma_word_len_bound(t: Seq<char>)
    ensures
        word_len(t) <= t.len(),
        t.len() > 0 && !is_ws(t[0]) ==> word_len(t) > 0,
    decreases t.len(),
{
    if t.len() > 0 && !is_ws(t[0]) {
        lemma_word_len_bound(t.drop_first());
    }
}

pub proof fn lemma_word_len_exact(t: Seq<char>, k: int)
    requires
        0 <= k <= t.len(),
        forall|m: int| 0 <= m < k ==> !is_ws(#[trigger] t[m]),
        k == t.len() || is_ws(t[k]),
    ensures
        word_len(t) == k,
    decreases k,
{
    if k > 0 {
        assert forall|m: int| 0 <= m < k - 1 implies !is_ws(#[trigger] t.drop_first()[m]) by {
            assert(t.drop_first()[m] == t[m + 1]);
        }
        lemma_word_len_exact(t.drop_first(), k - 1);
    }
}

pub proof fn lemma_join_push(parts: Seq<Seq<char>>, w: Seq<char>, sep: Seq<char>)
    ensures
        join(parts.push(w), sep) == if parts.len() == 0 {
            w
        } else {
            join(parts, sep) + sep + w
        },
{
    assert(parts.push(w).drop_last() =~= parts);
}

/// Collapses white space like `split_whitespace` followed by `join(" ")`.
pub fn collapse_whitespace(s: &[char]) -> (r: Vec<char>)
    ensures
        r@ == collapse_ws(s@),
{
    let mut out: Vec<char> = Vec::new();
    let ghost mut done: Seq<Seq<char>> = seq![];
    let mut i: usize = 0;
    assert(s@.skip(0) =~= s@);
    while i < s.len()
        invariant
            i <= s@.len(),
            words(s@) == done + words(s@.skip(i as int)),
            out@ == join(done, seq![' ']),
            forall|m: int| 0 <= m < done.len() ==> (#[trigger] done[m]).len() > 0,
        decreases s.len() - i,
    {
        let mut a = i;
        while a < s.len() && is_whitespace(s[a])
            invariant
                i <= a <= s@.len(),
                forall|m: int| i <= m < a ==> is_ws(#[trigger] s@[m]),
            decreases s.len() - a,
        {
            a = a + 1;
        }
        proof {
            let t = s@.skip(i as int);
            assert forall|m: int| 0 <= m < a - i implies is_ws(#[trigger] t[m]) by {
                assert(t[m] == s@[i + m]);
            }
            lemma_trim_start_skip(t, a - i);
            assert(t.skip(a - i) =~= s@.skip(a as int));
        }
        if a == s.len() {
            proof {
                assert(s@.skip(a as int).len() == 0);
                assert(words(s@.skip(i as int)) =~= Seq::<Seq<char>>::empty());
                assert(done + Seq::<Seq<char>>::empty() =~= done);
                assert(words(s@.skip(a as int)) =~= Seq::<Seq<char>>::empty());
            }
            i = a;
        } else {
            let mut j = a;
            while j < s.len() && !is_whitespace(s[j])
                invariant
                    a <= j <= s@.len(),
                    forall|m: int| a <= m < j ==> !is_ws(#[trigger] s@[m]),
                decreases s.len() - j,
            {
                j = j + 1;
            }
            let ghost before = out@;
            if out.len() > 0 {
                out.push(' ');
            }
            let mut k = a;
            while k < j
                invariant
                    a <= k <= j <= s@.len(),
                    out@ == (if before.len() > 0 {
                        before + seq![' ']
                    } else {
                        before
                    }) + s@.subrange(a as int, k as int),
                decreases j - k,
            {
                out.push(s[k]);
                k = k + 1;
                assert(out@ =~= (if before.len() > 0 {
                    before + seq![' ']
                } else {
                    before
                }) + s@.subrange(a as int, k as int));
            }
            proof {
                let u = s@.skip(a as int);
                assert forall|m: int| 0 <= m < j - a implies !is_ws(#[trigger] u[m]) by {
                    assert(u[m] == s@[a + m]);
                }
                if j < s.len() {
                    assert(u[j - a] == s@[j as int]);
                }
                lemma_word_len_exact(u, j - a);
                assert(u.take(j - a) =~= s@.subrange(a as int, j as int));
                assert(u.skip(j - a) =~= s@.skip(j as int));
                let w = s@.subrange(a as int, j as int);
                assert(words(s@.skip(i as int)) == seq![w] + words(s@.skip(j as int)));
                lemma_join_push(done, w, seq![' ']);
                assert(done + words(s@.skip(i as int)) =~= done.push(w) + words(
                    s@.skip(j as int),
                ));
                // the separator is written exactly when something came before
                if done.len() == 0 {
                    assert(before.len() == 0);
                } else {
                    lemma_join_nonempty(done);
                }
                assert(w.len() > 0);
                done = done.push(w);
            }
            i = j;
        }
    }
    proof {
        assert(s@.skip(i as int).len() == 0);
        assert(words(s@.skip(i as int)) =~= Seq::<Seq<char>>::empty());
        assert(done + Seq::<Seq<char>>::empty() =~= done);
    }
    out
}

/// Joining a non-empty list of non-empty words gives a non-empty sequence.
pub proof fn lemma_join_nonempty(parts: Seq<Seq<char>>)
    requires
        parts.len() > 0,
        forall|k: int| 0 <= k < parts.len() ==> (#[trigger] parts[k]).len() > 0,
    ensures
        join(parts, seq![' ']).len() > 0,
    decreases parts.len(),
{
    if parts.len() > 1 {
        lemma_join_nonempty(parts.drop_last());
    }
}


/// `str::replace` with a non-empty pattern: every leftmost non-overlapping
/// occurrence of `pat` is replaced by `rep`.
pub open spec fn replace(s: Seq<char>, pat: Seq<char>, rep: Seq<char>) -> Seq<char>
    decreases s.len(),
{
    if pat.len() == 0 || s.len() < pat.len() {
        s
    } else if s.take(pat.len() as int) == pat {
        rep + replace(s.skip(pat.len() as int), pat, rep)
    } else {
        seq![s[0]] + replace(s.drop_first(), pat, rep)
    }
}

/// `str::replace(pat, rep)` for a non-empty pattern.
pub fn replace_all(s: &[char], pat: &str, rep: &str) -> (r: Vec<char>)
    requires
        pat@.len() > 0,
    ensures
        r@ == replace(s@, pat@, rep@),
{
    let p = chars_of(pat);
    let q = chars_of(rep);
    let mut out: Vec<char> = Vec::new();
    let mut i: usize = 0;
    assert(s@.skip(0) =~= s@);
    while i < s.len()
        invariant
            i <= s@.len(),
            p@ == pat@,
            q@ == rep@,
            p@.len() > 0,
            replace(s@, pat@, rep@) == out@ + replace(s@.skip(i as int), pat@, rep@),
        decreases s.len() - i,
    {
        let ghost t = s@.skip(i as int);
        if p.len() <= s.len() - i && matches_here(s, i, &p) {
            proof {
                assert(t.take(p@.len() as int) =~= s@.subrange(i as int, i + p@.len()));
                assert(t.skip(p@.len() as int) =~= s@.skip(i + p@.len()));
            }
            let mut k: usize = 0;
            let ghost before = out@;
            while k < q.len()
                invariant
                    k <= q@.len(),
                    out@ == before + q@.take(k as int),
                decreases q.len() - k,
            {
                out.push(q[k]);
                k = k + 1;
                assert(out@ =~= before + q@.take(k as int));
            }
            proof {
                assert(q@.take(k as int) =~= q@);
                assert(replace(s@, pat@, rep@) =~= out@ + replace(
                    s@.skip(i + p@.len()),
                    pat@,
                    rep@,
                ));
            }
            i = i + p.len();
        } else {
            proof {
                if t.len() >= p@.len() {
                    assert(t.take(p@.len() as int) =~= s@.subrange(i as int, i + p@.len()));
                }
                assert(t.drop_first() =~= s@.skip(i + 1));
                assert(t[0] == s@[i as int]);
            }
            let ghost before = out@;
            out.push(s[i]);
            proof {
                assert(replace(s@, pat@, rep@) =~= out@ + replace(s@.skip(i + 1), pat@, rep@));
            }
            i = i + 1;
        }
    }
    proof {
        assert(s@.skip(i as int).len() == 0);
        assert(out@ + replace(s@.skip(i as int), pat@, rep@) =~= out@);
    }
    out
}

/// The ASCII digit for `d < 10`.
pub open spec fn digit(d: nat) -> char {
    ((48 + d) as u8) as char
}

/// The decimal representation of `n` (integer `Display`).
pub open spec fn decimal(n: nat) -> Seq<char>
    decreases n,
{
    if n < 10 {
        seq![digit(n)]
    } else {
        decimal(n / 10).push(digit(n % 10))
    }
}

/// Appends the decimal representation of `n`.
pub fn push_decimal(out: &mut String, n: u64)
    ensures
        final(out)@ == old(out)@ + decimal(n as nat),
    decreases n,
{
    if n >= 10 {
        push_decimal(out, n / 10);
    }
    let d: u8 = (n % 10) as u8;
    push_char(out, (48u8 + d) as char);
    proof {
        if n >= 10 {
            assert(old(out)@ + decimal(n as nat) =~= old(out)@ + decimal((n / 10) as nat) + seq![
                digit((n % 10) as nat),
            ]);
        }
    }
}

/// The lower-case form of a string that is not all ASCII, as
/// `str::to_lowercase` computes it.
pub uninterp spec fn unicode_lowercase(s: Seq<char>) -> Seq<char>;

/// The lower-case form of a string (`str::to_lowercase`): of ASCII text, the
/// text with `A` to `Z` lowered.
pub open spec fn lowercase(s: Seq<char>) -> Seq<char> {
    if is_ascii(s) {
        s.map_values(|c: char| ascii_lower(c))
    } else {
        unicode_lowercase(s)
    }
}

/// `A` to `Z` lowered to `a` to `z`; any other character as it is.
pub open spec fn ascii_lower(c: char) -> char {
    if 'A' <= c <= 'Z' {
        ((c as int) + 32) as char
    } else {
        c
    }
}

/// `a` to `z` raised to `A` to `Z`; any other character as it is.
pub open spec fn ascii_upper(c: char) -> char {
    if 'a' <= c <= 'z' {
        ((c as int) - 32) as char
    } else {
        c
    }
}

/// Every character is ASCII.
pub open spec fn is_ascii(s: Seq<char>) -> bool {
    forall|i: int| 0 <= i < s.len() ==> (#[trigger] s[i] as int) < 128
}

/// `str::to_lowercase`. Of ASCII text it is the text with `A` to `Z`
/// lowered, as the Unicode lower-case mapping it follows has it for ASCII;
/// of other text the result is named `unicode_lowercase`.
#[verifier::external_body]
pub fn to_lowercase(s: &str) -> (r: String)
    ensures
        r@ == (if is_ascii(s@) {
            s@.map_values(|c: char| ascii_lower(c))
        } else {
            unicode_lowercase(s@)
        }),
        r@ == lowercase(s@),
{
    s.to_lowercase()
}

/// Whether `char::is_alphabetic` holds of a character.
pub uninterp spec fn alphabetic(c: char) -> bool;

/// `char::is_alphabetic`. Its result is named `alphabetic`.
#[verifier::external_body]
pub fn is_alphabetic(c: char) -> (r: bool)
    ensures
        r == alphabetic(c),
{
    c.is_alphabetic()
}

/// The number of bytes of the UTF-8 encoding of `c` (`char::len_utf8`).
pub open spec fn char_width(c: char) -> nat {
    if (c as u32) < 0x80 {
        1
    } else if (c as u32) < 0x800 {
        2
    } else if (c as u32) < 0x10000 {
        3
    } else {
        4
    }
}

/// The number of bytes of the UTF-8 encoding of `s` (`str::len`).
pub open spec fn byte_len(s: Seq<char>) -> nat
    decreases s.len(),
{
    if s.len() == 0 {
        0
    } else {
        byte_len(s.drop_last()) + char_width(s.last())
    }
}

/// Raising a lower-case ASCII letter and lowering it again gives it back.
pub proof fn lemma_ascii_round(c: char)
    requires
        'a' <= c <= 'z',
    ensures
        ascii_upper(c) as int == c as int - 32,
        'A' <= ascii_upper(c) <= 'Z',
        ascii_lower(ascii_upper(c)) == c,
{
    let u = ((c as int) - 32) as char;
    assert(u as int == c as int - 32);
    assert(((u as int) + 32) as char == c);
}

/// A prefix has no more bytes than the whole.
pub proof fn lemma_byte_len_take(s: Seq<char>, k: int)
    requires
        0 <= k <= s.len(),
    ensures
        byte_len(s.take(k)) <= byte_len(s),
    decreases s.len() - k,
{
    if k < s.len() {
        lemma_byte_len_take(s, k + 1);
        assert(s.take(k + 1).drop_last() =~= s.take(k));
    } else {
        assert(s.take(k) =~= s);
    }
}

/// `char::len_utf8`.
pub fn char_len_utf8(c: char) -> (r: usize)
    ensures
        r == char_width(c),
{
    let u = c as u32;
    if u < 0x80 {
        1
    } else if u < 0x800 {
        2
    } else if u < 0x10000 {
        3
    } else {
        4
    }
}

/// `String::into_bytes`: the UTF-8 encoding of the string.
#[verifier::external_body]
pub fn into_bytes(s: String) -> (r: Vec<u8>)
    ensures
        r@ == vstd::utf8::encode_utf8(s@),
{
    s.into_bytes()
}

/// `String::from_utf8`: the decoded text when `b` is valid UTF-8.
#[verifier::external_body]
pub fn from_utf8(b: Vec<u8>) -> (r: Option<String>)
    ensures
        r is Some <==> vstd::utf8::valid_utf8(b@),
        r matches Some(s) ==> s@ == vstd::utf8::decode_utf8(b@),
{
    String::from_utf8(b).ok()
}


/// Whether the characters `a` spell the string `b`.
pub fn eq_str(a: &[char], b: &str) -> (r: bool)
    ensures
        r == (a@ == b@),
{
    let v = chars_of(b);
    if a.len() != v.len() {
        return false;
    }
    let mut i: usize = 0;
    while i < a.len()
        invariant
            i <= a@.len(),
            a@.len() == v@.len(),
            v@ == b@,
            forall|j: int| 0 <= j < i ==> a@[j] == v@[j],
        decreases a.len() - i,
    {
        if a[i] != v[i] {
            return false;
        }
        i = i + 1;
    }
    assert(a@ =~= v@);
    true
}


/// Whether the text before position `n` of `s` leaves a `<...>` tag open: the
/// last `'<'` or `'>'` among `s[..n]` is a `'<'`.
pub open spec fn in_tag_after(s: Seq<char>) -> bool
    decreases s.len(),
{
    if s.len() == 0 {
        false
    } else if s.last() == '<' {
        true
    } else if s.last() == '>' {
        false
    } else {
        in_tag_after(s.drop_last())
    }
}

/// The characters of `s` outside `<...>` tags, the brackets themselves
/// excluded; when `drop_amp` holds, `'&'` is dropped too.
pub open spec fn outside_tags(s: Seq<char>, drop_amp: bool) -> Seq<char>
    decreases s.len(),
{
    if s.len() == 0 {
        seq![]
    } else {
        let p = s.drop_last();
        let c = s.last();
        if c == '<' || c == '>' || in_tag_after(p) || (drop_amp && c == '&') {
            outside_tags(p, drop_amp)
        } else {
            outside_tags(p, drop_amp).push(c)
        }
    }
}

/// The text of `s[a..b]` outside tags (see `outside_tags`).
pub fn text_outside_tags(s: &[char], a: usize, b: usize, drop_amp: bool) -> (r: Vec<char>)
    requires
        a <= b <= s@.len(),
    ensures
        r@ == outside_tags(s@.subrange(a as int, b as int), drop_amp),
{
    let mut out: Vec<char> = Vec::new();
    let mut in_tag = false;
    let mut i = a;
    while i < b
        invariant
            a <= i <= b <= s@.len(),
            in_tag == in_tag_after(s@.subrange(a as int, i as int)),
            out@ == outside_tags(s@.subrange(a as int, i as int), drop_amp),
        decreases b - i,
    {
        let c = s[i];
        proof {
            let t = s@.subrange(a as int, i + 1);
            assert(t.drop_last() =~= s@.subrange(a as int, i as int));
            assert(t.last() == c);
        }
        if c == '<' {
            in_tag = true;
        } else if c == '>' {
            in_tag = false;
        } else if in_tag {
        } else if drop_amp && c == '&' {
        } else {
            out.push(c);
        }
        i = i + 1;
    }
    out
}


/// `parts.join(sep)` on character vectors.
pub fn join_parts(parts: &Vec<Vec<char>>, sep: &str) -> (r: Vec<char>)
    ensures
        r@ == join(seqs_of(parts@), sep@),
{
    let sp = chars_of(sep);
    let mut out: Vec<char> = Vec::new();
    let mut k: usize = 0;
    while k < parts.len()
        invariant
            k <= parts@.len(),
            sp@ == sep@,
            out@ == join(seqs_of(parts@).take(k as int), sep@),
        decreases parts.len() - k,
    {
        let ghost before = out@;
        if k > 0 {
            let mut j: usize = 0;
            while j < sp.len()
                invariant
                    j <= sp@.len(),
                    out@ == before + sp@.take(j as int),
                decreases sp.len() - j,
            {
                out.push(sp[j]);
                j = j + 1;
                assert(out@ =~= before + sp@.take(j as int));
            }
            assert(sp@.take(j as int) =~= sp@);
        }
        let ghost mid = out@;
        let part = &parts[k];
        let mut j: usize = 0;
        while j < part.len()
            invariant
                j <= part@.len(),
                out@ == mid + part@.take(j as int),
            decreases part.len() - j,
        {
            out.push(part[j]);
            j = j + 1;
            assert(out@ =~= mid + part@.take(j as int));
        }
        proof {
            assert(part@.take(j as int) =~= part@);
            let sv = seqs_of(parts@);
            assert(sv.take(k + 1).drop_last() =~= sv.take(k as int));
            assert(sv.take(k + 1).last() == part@);
            if k == 0 {
                assert(sv.take(1) =~= seq![part@]);
                assert(out@ =~= part@);
            }
        }
        k = k + 1;
    }
    assert(seqs_of(parts@).take(k as int) =~= seqs_of(parts@));
    out
}


/// `s` ends with `suffix`.
pub open spec fn ends_with(s: Seq<char>, suffix: Seq<char>) -> bool {
    s.len() >= suffix.len() && s.subrange(s.len() - suffix.len(), s.len() as int) == suffix
}

/// `str::ends_with`.
pub fn ends_with_str(s: &[char], suffix: &str) -> (r: bool)
    ensures
        r == ends_with(s@, suffix@),
{
    let p = chars_of(suffix);
    if p.len() > s.len() {
        return false;
    }
    let k = s.len() - p.len();
    let r = matches_here(s, k, &p);
    assert(matches_at(s@, k as int, p@) == (s@.subrange(k as int, s@.len() as int) == p@));
    r
}

/// `str::starts_with`.
pub fn starts_with_str(s: &[char], prefix: &str) -> (r: bool)
    ensures
        r == starts_with(s@, prefix@),
{
    let p = chars_of(prefix);
    if p.len() > s.len() {
        return false;
    }
    matches_here(s, 0, &p)
}


/// `a` comes strictly before `b` in lexicographic order of characters (the
/// order of `String`).
pub open spec fn seq_lt(a: Seq<char>, b: Seq<char>) -> bool
    decreases a.len(),
{
    if b.len() == 0 {
        false
    } else if a.len() == 0 {
        true
    } else if a[0] != b[0] {
        (a[0] as int) < (b[0] as int)
    } else {
        seq_lt(a.drop_first(), b.drop_first())
    }
}

/// The sequence is in non-decreasing order.
pub open spec fn sorted_seqs(v: Seq<Seq<char>>) -> bool {
    forall|i: int, j: int| 0 <= i < j < v.len() ==> !seq_lt(#[trigger] v[j], #[trigger] v[i])
}

/// The values of a list of strings.
pub open spec fn strings_view(v: Seq<String>) -> Seq<Seq<char>> {
    v.map_values(|s: String| s@)
}

/// `slice::sort` on strings: the result is the same strings in non-decreasing
/// order.
#[verifier::external_body]
pub fn sort_strings(v: &mut Vec<String>)
    ensures
        strings_view(final(v)@).to_multiset() == strings_view(old(v)@).to_multiset(),
        sorted_seqs(strings_view(final(v)@)),
{
    v.sort();
}

} // verus!
