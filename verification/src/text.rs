//! Character-level string operations, each stated over `Seq<char>`:
//! searching for a character, splitting at it, prefix tests, replacement,
//! trimming, splitting into whitespace-separated words, joining and lines.

use vstd::prelude::*;

verus! {

broadcast use vstd::string::group_string_axioms;

// ---------------------------------------------------------------------------
// Whitespace
// ---------------------------------------------------------------------------

/// The Unicode `White_Space` property (the set that `char::is_whitespace` tests).
pub open spec fn is_space(c: char) -> bool {
    ||| ('\u{9}' <= c && c <= '\u{d}')
    ||| c == ' '
    ||| c == '\u{85}'
    ||| c == '\u{a0}'
    ||| c == '\u{1680}'
    ||| ('\u{2000}' <= c && c <= '\u{200a}')
    ||| c == '\u{2028}'
    ||| c == '\u{2029}'
    ||| c == '\u{202f}'
    ||| c == '\u{205f}'
    ||| c == '\u{3000}'
}

/// Tests the Unicode `White_Space` property.
pub fn is_space_char(c: char) -> (r: bool)
    ensures
        r == is_space(c),
{
    ('\u{9}' <= c && c <= '\u{d}') || c == ' ' || c == '\u{85}' || c == '\u{a0}' || c == '\u{1680}'
        || ('\u{2000}' <= c && c <= '\u{200a}') || c == '\u{2028}' || c == '\u{2029}' || c
        == '\u{202f}' || c == '\u{205f}' || c == '\u{3000}'
}

// ---------------------------------------------------------------------------
// Conversions between `str` and characters
// ---------------------------------------------------------------------------

/// `String::push` appends one character.
pub assume_specification[ String::push ](s: &mut String, ch: char)
    ensures
        final(s)@ == old(s)@.push(ch),
;

/// The characters of `s`, in order.
pub fn chars_of(s: &str) -> (v: Vec<char>)
    ensures
        v@ == s@,
{
    let mut v: Vec<char> = Vec::new();
    for c in iter: s.chars()
        invariant
            v@ == iter.seq().take(iter.index()),
    {
        v.push(c);
    }
    v
}

/// The string made of `cs[from..to]`.
pub fn string_of(cs: &Vec<char>, from: usize, to: usize) -> (s: String)
    requires
        from <= to <= cs@.len(),
    ensures
        s@ == cs@.subrange(from as int, to as int),
{
    let mut s = String::new();
    let mut i = from;
    while i < to
        invariant
            from <= i <= to <= cs@.len(),
            s@ == cs@.subrange(from as int, i as int),
        decreases to - i,
    {
        s.push(cs[i]);
        i += 1;
    }
    s
}

/// A copy of `s`.
pub fn copy_str(s: &str) -> (r: String)
    ensures
        r@ == s@,
{
    s.to_owned()
}

/// Appends the characters of `s` to `out`.
pub fn push_str(out: &mut String, s: &str)
    ensures
        final(out)@ == old(out)@ + s@,
{
    out.append(s);
}

/// Whether `a` and `b` hold the same characters.
pub fn str_eq(a: &str, b: &str) -> (r: bool)
    ensures
        r == (a@ == b@),
{
    let ca = chars_of(a);
    let cb = chars_of(b);
    if ca.len() != cb.len() {
        return false;
    }
    let mut i: usize = 0;
    while i < ca.len()
        invariant
            i <= ca@.len() == cb@.len(),
            ca@ == a@,
            cb@ == b@,
            forall|j: int| 0 <= j < i ==> ca@[j] == cb@[j],
        decreases ca@.len() - i,
    {
        if ca[i] != cb[i] {
            assert(ca@[i as int] != cb@[i as int]);
            return false;
        }
        i += 1;
    }
    assert(ca@ =~= cb@);
    true
}

// ---------------------------------------------------------------------------
// Searching for a character; splitting at its first occurrence
// ---------------------------------------------------------------------------

/// The index of the first `c` in `s`, or -1 where `s` holds none.
pub open spec fn find(s: Seq<char>, c: char) -> int
    decreases s.len(),
{
    if s.len() == 0 {
        -1
    } else if s[0] == c {
        0
    } else {
        let r = find(s.drop_first(), c);
        if r < 0 {
            -1
        } else {
            r + 1
        }
    }
}

/// `i` is the first position of `c` in `s`.
pub open spec fn is_first(s: Seq<char>, c: char, i: int) -> bool {
    &&& 0 <= i < s.len()
    &&& s[i] == c
    &&& forall|j: int| 0 <= j < i ==> s[j] != c
}

/// `find` gives the first position of `c`, or -1 exactly where `c` is absent.
pub proof fn lemma_find(s: Seq<char>, c: char)
    ensures
        find(s, c) == -1 || is_first(s, c, find(s, c)),
        find(s, c) == -1 <==> forall|j: int| 0 <= j < s.len() ==> s[j] != c,
    decreases s.len(),
{
    if s.len() > 0 && s[0] != c {
        lemma_find(s.drop_first(), c);
        if find(s.drop_first(), c) == -1 {
            assert forall|j: int| 0 <= j < s.len() implies s[j] != c by {
                if j > 0 {
                    assert(s[j] == s.drop_first()[j - 1]);
                }
            }
        } else {
            let r = find(s.drop_first(), c);
            assert(s[r + 1] == s.drop_first()[r]);
            assert forall|j: int| 0 <= j < r + 1 implies s[j] != c by {
                if j > 0 {
                    assert(s[j] == s.drop_first()[j - 1]);
                }
            }
        }
    }
}

/// Any first position of `c` is the one that `find` gives.
pub proof fn lemma_find_first(s: Seq<char>, c: char, i: int)
    requires
        is_first(s, c, i),
    ensures
        find(s, c) == i,
{
    lemma_find(s, c);
    if find(s, c) == -1 {
        assert(s[i] == c);
    } else {
        let k = find(s, c);
        if k < i {
            assert(s[k] != c);
        } else if i < k {
            assert(s[i] != c);
        }
    }
}

/// What comes before the first `c` in `s`, or all of `s` where it holds none
/// (the first item of `str::split(c)`).
pub open spec fn before(s: Seq<char>, c: char) -> Seq<char> {
    if find(s, c) < 0 {
        s
    } else {
        s.take(find(s, c))
    }
}

/// What comes after the first `c` in `s`, where it holds one.
pub open spec fn after(s: Seq<char>, c: char) -> Option<Seq<char>> {
    if find(s, c) < 0 {
        None
    } else {
        Some(s.skip(find(s, c) + 1))
    }
}

/// The position of the first `c` in `cs` at or after `from`.
pub fn find_from(cs: &Vec<char>, from: usize, c: char) -> (r: Option<usize>)
    requires
        from <= cs@.len(),
    ensures
        match r {
            Some(k) => from <= k < cs@.len() && cs@[k as int] == c && find(
                cs@.skip(from as int),
                c,
            ) == k - from,
            None => find(cs@.skip(from as int), c) == -1,
        },
{
    let ghost s = cs@.skip(from as int);
    let mut i = from;
    while i < cs.len()
        invariant
            from <= i <= cs@.len(),
            s == cs@.skip(from as int),
            forall|j: int| from <= j < i ==> cs@[j] != c,
        decreases cs@.len() - i,
    {
        if cs[i] == c {
            proof {
                assert forall|j: int| 0 <= j < i - from implies s[j] != c by {
                    assert(s[j] == cs@[j + from]);
                }
                lemma_find_first(s, c, i - from);
            }
            return Some(i);
        }
        i += 1;
    }
    proof {
        lemma_find(s, c);
        assert forall|j: int| 0 <= j < s.len() implies s[j] != c by {
            assert(s[j] == cs@[j + from]);
        }
    }
    None
}

/// The position of the first `c` in `s`.
pub fn find_char(s: &str, c: char) -> (r: Option<usize>)
    ensures
        match r {
            Some(k) => find(s@, c) == k,
            None => find(s@, c) == -1,
        },
{
    let cs = chars_of(s);
    assert(cs@.skip(0) == cs@);
    find_from(&cs, 0, c)
}

/// `str::split(c).next()`: the part of `s` before its first `c`.
pub fn before_char<'a>(s: &'a str, c: char) -> (r: &'a str)
    ensures
        r@ == before(s@, c),
{
    match find_char(s, c) {
        Some(k) => {
            proof {
                lemma_find(s@, c);
            }
            s.substring_char(0, k)
        },
        None => s,
    }
}

/// `str::split_once(c)`: the parts of `s` before and after its first `c`.
pub fn split_once_char<'a>(s: &'a str, c: char) -> (r: Option<(&'a str, &'a str)>)
    ensures
        match r {
            Some((a, b)) => find(s@, c) >= 0 && a@ == before(s@, c) && Some(b@) == after(s@, c),
            None => find(s@, c) == -1,
        },
{
    match find_char(s, c) {
        Some(k) => {
            proof {
                lemma_find(s@, c);
            }
            let n = s.unicode_len();
            Some((s.substring_char(0, k), s.substring_char(k + 1, n)))
        },
        None => None,
    }
}

// ---------------------------------------------------------------------------
// Prefixes and replacement
// ---------------------------------------------------------------------------

/// `p` is a prefix of `s`.
pub open spec fn starts_with(s: Seq<char>, p: Seq<char>) -> bool {
    p.len() <= s.len() && s.take(p.len() as int) == p
}

/// `p` occurs in `cs` at position `i`.
fn occurs_at(cs: &Vec<char>, i: usize, p: &Vec<char>) -> (r: bool)
    requires
        i <= cs@.len(),
    ensures
        r == starts_with(cs@.skip(i as int), p@),
{
    if p.len() > cs.len() - i {
        return false;
    }
    let mut j: usize = 0;
    let n = cs.len();
    while j < p.len()
        invariant
            n == cs@.len(),
            j <= p@.len(),
            i + p@.len() <= cs@.len(),
            forall|k: int| 0 <= k < j ==> cs@[i + k] == p@[k],
        decreases p@.len() - j,
    {
        assert(i + j < cs@.len());
        if cs[i + j] != p[j] {
            assert(cs@.skip(i as int).take(p@.len() as int)[j as int] == cs@[i + j]);
            return false;
        }
        j += 1;
    }
    assert(cs@.skip(i as int).take(p@.len() as int) =~= p@);
    true
}

/// `str::starts_with`.
pub fn str_starts_with(s: &str, p: &str) -> (r: bool)
    ensures
        r == starts_with(s@, p@),
{
    let cs = chars_of(s);
    let cp = chars_of(p);
    assert(cs@.skip(0) == cs@);
    occurs_at(&cs, 0, &cp)
}

/// `str::replace(pat, rep)` for a non-empty `pat`: from left to right, each
/// occurrence of `pat` that does not overlap an earlier one becomes `rep`.
pub open spec fn replace_all(s: Seq<char>, pat: Seq<char>, rep: Seq<char>) -> Seq<char>
    decreases s.len(),
{
    if pat.len() == 0 || s.len() == 0 {
        s
    } else if starts_with(s, pat) {
        rep + replace_all(s.skip(pat.len() as int), pat, rep)
    } else {
        seq![s[0]] + replace_all(s.drop_first(), pat, rep)
    }
}

/// Text that holds no character that begins `pat` is left as it is.
pub proof fn lemma_replace_none(s: Seq<char>, pat: Seq<char>, rep: Seq<char>)
    requires
        pat.len() > 0,
        forall|j: int| 0 <= j < s.len() ==> s[j] != pat[0],
    ensures
        replace_all(s, pat, rep) == s,
    decreases s.len(),
{
    if s.len() > 0 {
        if pat.len() <= s.len() {
            assert(s.take(pat.len() as int)[0] == s[0]);
        }
        lemma_replace_none(s.drop_first(), pat, rep);
        assert(seq![s[0]] + s.drop_first() == s);
    }
}

/// Replacing in `a + s`, where no occurrence of `pat` can reach into `s`
/// (`s` starts with a character that `pat` does not hold, and holds none
/// that begins `pat`), replaces in `a` alone.
pub proof fn lemma_replace_suffix(a: Seq<char>, s: Seq<char>, pat: Seq<char>, rep: Seq<char>)
    requires
        pat.len() > 0,
        s.len() > 0,
        forall|j: int| 0 <= j < s.len() ==> s[j] != pat[0],
        forall|j: int| 0 <= j < pat.len() ==> pat[j] != s[0],
    ensures
        replace_all(a + s, pat, rep) == replace_all(a, pat, rep) + s,
    decreases a.len(),
{
    let x = a + s;
    let m = pat.len() as int;
    if a.len() == 0 {
        assert(x == s);
        lemma_replace_none(s, pat, rep);
    } else if starts_with(x, pat) {
        if m > a.len() {
            assert(x.take(m)[a.len() as int] == s[0]);
            assert(pat[a.len() as int] == s[0]);
        }
        assert(a.take(m) == x.take(m));
        assert(x.skip(m) == a.skip(m) + s);
        lemma_replace_suffix(a.skip(m), s, pat, rep);
    } else {
        if m <= a.len() {
            assert(a.take(m) == x.take(m));
        }
        assert(x.drop_first() == a.drop_first() + s);
        assert(x[0] == a[0]);
        lemma_replace_suffix(a.drop_first(), s, pat, rep);
    }
}

/// Replacing never brings in a character that neither the text nor the
/// replacement holds.
pub proof fn lemma_replace_keeps_absent(s: Seq<char>, pat: Seq<char>, rep: Seq<char>, c: char)
    requires
        forall|j: int| 0 <= j < s.len() ==> s[j] != c,
        forall|j: int| 0 <= j < rep.len() ==> rep[j] != c,
    ensures
        forall|j: int| 0 <= j < replace_all(s, pat, rep).len() ==> replace_all(s, pat, rep)[j] != c,
    decreases s.len(),
{
    if pat.len() == 0 || s.len() == 0 {
    } else if starts_with(s, pat) {
        let t = s.skip(pat.len() as int);
        assert forall|j: int| 0 <= j < t.len() implies t[j] != c by {
            assert(t[j] == s[j + pat.len()]);
        }
        lemma_replace_keeps_absent(t, pat, rep, c);
        let r = replace_all(t, pat, rep);
        assert forall|j: int| 0 <= j < (rep + r).len() implies (rep + r)[j] != c by {
            if j >= rep.len() {
                assert((rep + r)[j] == r[j - rep.len()]);
            }
        }
    } else {
        let t = s.drop_first();
        assert forall|j: int| 0 <= j < t.len() implies t[j] != c by {
            assert(t[j] == s[j + 1]);
        }
        lemma_replace_keeps_absent(t, pat, rep, c);
        let r = replace_all(t, pat, rep);
        assert forall|j: int| 0 <= j < (seq![s[0]] + r).len() implies (seq![s[0]] + r)[j] != c by {
            if j >= 1 {
                assert((seq![s[0]] + r)[j] == r[j - 1]);
            }
        }
    }
}

/// Replaces each occurrence of the non-empty `pat` in `s` by `rep`.
pub fn replace_str(s: &str, pat: &str, rep: &str) -> (r: String)
    requires
        pat@.len() > 0,
    ensures
        r@ == replace_all(s@, pat@, rep@),
{
    let cs = chars_of(s);
    let cp = chars_of(pat);
    let mut out = String::new();
    let mut i: usize = 0;
    assert(cs@.skip(0) == cs@);
    while i < cs.len()
        invariant
            i <= cs@.len(),
            cs@ == s@,
            cp@ == pat@,
            pat@.len() > 0,
            replace_all(s@, pat@, rep@) == out@ + replace_all(cs@.skip(i as int), pat@, rep@),
        decreases cs@.len() - i,
    {
        let ghost rest = cs@.skip(i as int);
        if occurs_at(&cs, i, &cp) {
            push_str(&mut out, rep);
            assert(rest.skip(pat@.len() as int) == cs@.skip(i + pat@.len()));
            i += cp.len();
        } else {
            out.push(cs[i]);
            assert(rest.drop_first() == cs@.skip(i + 1));
            assert(seq![rest[0]] == seq![cs@[i as int]]);
            i += 1;
        }
    }
    assert(cs@.skip(i as int).len() == 0);
    out
}

// ---------------------------------------------------------------------------
// Trimming
// ---------------------------------------------------------------------------

/// `s` without its leading whitespace.
pub open spec fn trim_start(s: Seq<char>) -> Seq<char>
    decreases s.len(),
{
    if s.len() > 0 && is_space(s[0]) {
        trim_start(s.drop_first())
    } else {
        s
    }
}

/// `s` without its trailing whitespace.
pub open spec fn trim_end(s: Seq<char>) -> Seq<char>
    decreases s.len(),
{
    if s.len() > 0 && is_space(s.last()) {
        trim_end(s.drop_last())
    } else {
        s
    }
}

/// `str::trim`: `s` without leading and trailing whitespace.
pub open spec fn trim(s: Seq<char>) -> Seq<char> {
    trim_end(trim_start(s))
}

proof fn lemma_trim_start_skip(s: Seq<char>, k: int)
    requires
        0 <= k <= s.len(),
        forall|j: int| 0 <= j < k ==> is_space(s[j]),
    ensures
        trim_start(s) == trim_start(s.skip(k)),
    decreases k,
{
    if k == 0 {
        assert(s.skip(0) == s);
    } else {
        assert(s.drop_first().skip(k - 1) == s.skip(k));
        lemma_trim_start_skip(s.drop_first(), k - 1);
    }
}

proof fn lemma_trim_end_take(s: Seq<char>, k: int)
    requires
        0 <= k <= s.len(),
        forall|j: int| k <= j < s.len() ==> is_space(s[j]),
    ensures
        trim_end(s) == trim_end(s.take(k)),
    decreases s.len() - k,
{
    if k == s.len() {
        assert(s.take(k) == s);
    } else {
        assert(s.drop_last().take(k) == s.take(k));
        lemma_trim_end_take(s.drop_last(), k);
    }
}

/// `cs[from..to]` without leading and trailing whitespace.
pub fn trim_range(cs: &Vec<char>, from: usize, to: usize) -> (r: String)
    requires
        from <= to <= cs@.len(),
    ensures
        r@ == trim(cs@.subrange(from as int, to as int)),
{
    let ghost s = cs@.subrange(from as int, to as int);
    let mut a = from;
    while a < to && is_space_char(cs[a])
        invariant
            from <= a <= to <= cs@.len(),
            forall|j: int| from <= j < a ==> is_space(cs@[j]),
        decreases to - a,
    {
        a += 1;
    }
    let mut b = to;
    while b > a && is_space_char(cs[b - 1])
        invariant
            a <= b <= to,
            to <= cs@.len(),
            forall|j: int| b <= j < to ==> is_space(cs@[j]),
        decreases b - a,
    {
        b -= 1;
    }
    proof {
        let t = s.skip(a - from);
        assert forall|j: int| 0 <= j < a - from implies is_space(s[j]) by {
            assert(s[j] == cs@[j + from]);
        }
        lemma_trim_start_skip(s, a - from);
        assert(t == cs@.subrange(a as int, to as int));
        if a < to {
            assert(!is_space(t[0]));
        }
        assert(trim_start(t) == t);
        assert forall|j: int| b - a <= j < t.len() implies is_space(t[j]) by {
            assert(t[j] == cs@[j + a]);
        }
        lemma_trim_end_take(t, b - a);
        let u = t.take(b - a);
        assert(u == cs@.subrange(a as int, b as int));
        if b > a {
            assert(u.last() == cs@[b - 1]);
        }
        assert(trim_end(u) == u);
    }
    string_of(cs, a, b)
}

/// `str::trim`.
pub fn trim_str(s: &str) -> (r: String)
    ensures
        r@ == trim(s@),
{
    let cs = chars_of(s);
    assert(cs@.subrange(0, cs@.len() as int) == cs@);
    trim_range(&cs, 0, cs.len())
}


// ---------------------------------------------------------------------------
// Whitespace-separated words
// ---------------------------------------------------------------------------

/// The length of the run of non-whitespace characters that `s` starts with.
pub open spec fn word_len(s: Seq<char>) -> nat
    decreases s.len(),
{
    if s.len() > 0 && !is_space(s[0]) {
        1 + word_len(s.drop_first())
    } else {
        0
    }
}

pub proof fn lemma_word_len_bound(s: Seq<char>)
    ensures
        word_len(s) <= s.len(),
        s.len() > 0 && !is_space(s[0]) ==> word_len(s) >= 1,
    decreases s.len(),
{
    if s.len() > 0 && !is_space(s[0]) {
        lemma_word_len_bound(s.drop_first());
    }
}

proof fn lemma_word_len_exact(s: Seq<char>, k: int)
    requires
        0 <= k <= s.len(),
        forall|j: int| 0 <= j < k ==> !is_space(s[j]),
        k == s.len() || is_space(s[k]),
    ensures
        word_len(s) == k,
    decreases k,
{
    if k > 0 {
        assert forall|j: int| 0 <= j < k - 1 implies !is_space(s.drop_first()[j]) by {
            assert(s.drop_first()[j] == s[j + 1]);
        }
        if k < s.len() {
            assert(s.drop_first()[k - 1] == s[k]);
        }
        lemma_word_len_exact(s.drop_first(), k - 1);
    }
}

/// `str::split_whitespace`: the maximal runs of non-whitespace characters of
/// `s`, in order.
pub open spec fn words(s: Seq<char>) -> Seq<Seq<char>>
    decreases s.len(),
{
    if s.len() == 0 {
        seq![]
    } else if is_space(s[0]) {
        words(s.drop_first())
    } else {
        proof {
            lemma_word_len_bound(s);
        }
        seq![s.take(word_len(s) as int)] + words(s.skip(word_len(s) as int))
    }
}

/// The whitespace-separated words of `cs[from..to]`.
pub fn words_of_range(cs: &Vec<char>, from: usize, to: usize) -> (r: Vec<String>)
    requires
        from <= to <= cs@.len(),
    ensures
        r.deep_view() == words(cs@.subrange(from as int, to as int)),
{
    let ghost s = cs@.subrange(from as int, to as int);
    let mut out: Vec<String> = Vec::new();
    let mut i = from;
    assert(s.skip(0) == s);
    while i < to
        invariant
            from <= i <= to <= cs@.len(),
            s == cs@.subrange(from as int, to as int),
            words(s) == out.deep_view() + words(s.skip(i - from)),
        decreases to - i,
    {
        let ghost rest = s.skip(i - from);
        assert(rest[0] == cs@[i as int]);
        if is_space_char(cs[i]) {
            assert(rest.drop_first() == s.skip(i + 1 - from));
            i += 1;
        } else {
            let mut j = i + 1;
            while j < to && !is_space_char(cs[j])
                invariant
                    i < j <= to <= cs@.len(),
                    forall|k: int| i <= k < j ==> !is_space(cs@[k]),
                decreases to - j,
            {
                j += 1;
            }
            proof {
                assert forall|k: int| 0 <= k < j - i implies !is_space(rest[k]) by {
                    assert(rest[k] == cs@[k + i]);
                }
                if j < to {
                    assert(rest[j - i] == cs@[j as int]);
                }
                lemma_word_len_exact(rest, j - i);
                assert(rest.take(j - i) == cs@.subrange(i as int, j as int));
                assert(rest.skip(j - i) == s.skip(j - from));
            }
            let w = string_of(cs, i, j);
            let ghost before_push = out.deep_view();
            out.push(w);
            assert(out.deep_view() == before_push.push(w@));
            assert(words(s) == out.deep_view() + words(s.skip(j - from)));
            i = j;
        }
    }
    assert(s.skip(i - from).len() == 0);
    assert(words(s) == out.deep_view());
    out
}

/// `str::split_whitespace`, each word copied.
pub fn split_words(s: &str) -> (r: Vec<String>)
    ensures
        r.deep_view() == words(s@),
{
    let cs = chars_of(s);
    assert(cs@.subrange(0, cs@.len() as int) == cs@);
    words_of_range(&cs, 0, cs.len())
}

// ---------------------------------------------------------------------------
// Joining
// ---------------------------------------------------------------------------

/// `[T]::join(sep)`: the parts with `sep` between each two neighbours.
pub open spec fn join(parts: Seq<Seq<char>>, sep: Seq<char>) -> Seq<char>
    decreases parts.len(),
{
    if parts.len() == 0 {
        seq![]
    } else if parts.len() == 1 {
        parts[0]
    } else {
        join(parts.drop_last(), sep) + sep + parts.last()
    }
}

/// `parts[from..].join(sep)`.
pub fn join_from(parts: &Vec<String>, from: usize, sep: &str) -> (r: String)
    requires
        from <= parts@.len(),
    ensures
        r@ == join(parts.deep_view().skip(from as int), sep@),
{
    let ghost dv = parts.deep_view();
    let mut out = String::new();
    let mut i = from;
    assert(dv.subrange(from as int, from as int) =~= Seq::<Seq<char>>::empty());
    while i < parts.len()
        invariant
            from <= i <= parts@.len(),
            dv == parts.deep_view(),
            out@ == join(dv.subrange(from as int, i as int), sep@),
        decreases parts@.len() - i,
    {
        let ghost prev = dv.subrange(from as int, i as int);
        let ghost next = dv.subrange(from as int, i + 1);
        assert(next.drop_last() == prev);
        assert(next.last() == parts[i as int]@);
        if i > from {
            push_str(&mut out, sep);
        }
        push_str(&mut out, parts[i].as_str());
        i += 1;
    }
    assert(dv.subrange(from as int, i as int) == dv.skip(from as int));
    out
}

// ---------------------------------------------------------------------------
// Lines
// ---------------------------------------------------------------------------

/// A line without the carriage return that ends it, where it has one.
pub open spec fn strip_cr(l: Seq<char>) -> Seq<char> {
    if l.len() > 0 && l.last() == '\r' {
        l.drop_last()
    } else {
        l
    }
}

/// `str::lines`: the lines of `s`, split at each `\n` and at each `\r\n`,
/// with the final line ending optional; an empty `s` has no lines.
pub open spec fn lines(s: Seq<char>) -> Seq<Seq<char>>
    decreases s.len(),
{
    if s.len() == 0 {
        seq![]
    } else if find(s, '\n') < 0 {
        seq![s]
    } else {
        proof {
            lemma_find(s, '\n');
        }
        seq![strip_cr(s.take(find(s, '\n')))] + lines(s.skip(find(s, '\n') + 1))
    }
}

/// The end of the line of `cs` that runs from `from` to `to`, a `\n` excluded.
fn line_end(cs: &Vec<char>, from: usize, to: usize) -> (r: usize)
    requires
        from <= to <= cs@.len(),
    ensures
        if to > from && cs@[to - 1] == '\r' {
            r == to - 1
        } else {
            r == to
        },
{
    if to > from && cs[to - 1] == '\r' {
        to - 1
    } else {
        to
    }
}

/// The lines of `s`, each copied.
pub fn split_lines(s: &str) -> (r: Vec<String>)
    ensures
        r.deep_view() == lines(s@),
{
    let cs = chars_of(s);
    let mut out: Vec<String> = Vec::new();
    let mut i: usize = 0;
    assert(cs@.skip(0) == cs@);
    while i < cs.len()
        invariant
            i <= cs@.len(),
            cs@ == s@,
            lines(s@) == out.deep_view() + lines(cs@.skip(i as int)),
        decreases cs@.len() - i,
    {
        let ghost rest = cs@.skip(i as int);
        let ghost before_push = out.deep_view();
        match find_from(&cs, i, '\n') {
            Some(k) => {
                let e = line_end(&cs, i, k);
                let line = string_of(&cs, i, e);
                proof {
                    lemma_find(rest, '\n');
                    let t = rest.take(k - i);
                    assert(t == cs@.subrange(i as int, k as int));
                    if e < k {
                        assert(t.last() == cs@[k - 1]);
                        assert(strip_cr(t) == cs@.subrange(i as int, e as int));
                    } else {
                        assert(strip_cr(t) == t);
                    }
                    assert(rest.skip(k - i + 1) == cs@.skip(k + 1));
                }
                out.push(line);
                assert(out.deep_view() == before_push.push(line@));
                i = k + 1;
            },
            None => {
                let line = string_of(&cs, i, cs.len());
                assert(line@ == rest);
                out.push(line);
                assert(out.deep_view() == before_push.push(line@));
                i = cs.len();
                assert(cs@.skip(i as int).len() == 0);
            },
        }
    }
    assert(cs@.skip(i as int).len() == 0);
    out
}

} // verus!
