//! Character-level string operations, each specified over `Seq<char>`.
use vstd::prelude::*;
use vstd::string::StrSliceExecFns;
use vstd::string::StringExecFns;

verus! {

/// `p` occurs in `s` starting at index `i`.
pub open spec fn occurs_at(s: Seq<char>, p: Seq<char>, i: int) -> bool {
    0 <= i && i + p.len() <= s.len() && s.subrange(i, i + p.len()) == p
}

/// `s` begins with `p`.
pub open spec fn starts_with(s: Seq<char>, p: Seq<char>) -> bool {
    occurs_at(s, p, 0)
}

/// `p` occurs somewhere in `s`.
pub open spec fn contains(s: Seq<char>, p: Seq<char>) -> bool {
    exists|i: int| occurs_at(s, p, i)
}

/// The first index at or after `i` where `p` occurs in `s`.
pub open spec fn find_from(s: Seq<char>, p: Seq<char>, i: int) -> Option<int>
    decreases s.len() + 1 - i,
{
    if i < 0 || i + p.len() > s.len() {
        None
    } else if occurs_at(s, p, i) {
        Some(i)
    } else {
        find_from(s, p, i + 1)
    }
}

/// The first index where `p` occurs in `s`.
pub open spec fn find(s: Seq<char>, p: Seq<char>) -> Option<int> {
    find_from(s, p, 0)
}

/// What `find_from` returns is the first occurrence, and `None` means there is none.
pub proof fn lemma_find_from(s: Seq<char>, p: Seq<char>, i: int)
    requires
        0 <= i,
    ensures
        match find_from(s, p, i) {
            Some(k) => i <= k && occurs_at(s, p, k) && forall|j: int|
                i <= j < k ==> !#[trigger] occurs_at(s, p, j),
            None => forall|j: int| i <= j ==> !#[trigger] occurs_at(s, p, j),
        },
    decreases s.len() + 1 - i,
{
    if i + p.len() > s.len() {
    } else if occurs_at(s, p, i) {
    } else {
        lemma_find_from(s, p, i + 1);
    }
}

/// `find` returns the first occurrence of `p`, and `None` exactly when `p` does not occur.
pub proof fn lemma_find(s: Seq<char>, p: Seq<char>)
    ensures
        match find(s, p) {
            Some(k) => occurs_at(s, p, k) && forall|j: int| 0 <= j < k ==> !#[trigger] occurs_at(s, p, j),
            None => !contains(s, p),
        },
{
    lemma_find_from(s, p, 0);
}

/// If `p` occurs at `k` and nowhere before, `find` returns `k`.
pub proof fn lemma_find_is(s: Seq<char>, p: Seq<char>, k: int)
    requires
        occurs_at(s, p, k),
        forall|j: int| 0 <= j < k ==> !#[trigger] occurs_at(s, p, j),
    ensures
        find(s, p) == Some(k),
{
    lemma_find_from(s, p, 0);
    match find(s, p) {
        Some(k2) => {
            if k2 < k {
                assert(!occurs_at(s, p, k2));
            } else if k < k2 {
                assert(!occurs_at(s, p, k));
            }
        },
        None => {
            assert(!occurs_at(s, p, k));
        },
    }
}

/// Whether the characters of `s` from `i` on begin with those of `p`.
fn matches_at(s: &str, p: &str, i: usize, n: usize, m: usize) -> (r: bool)
    requires
        n == s@.len(),
        m == p@.len(),
        i + m <= n,
    ensures
        r == (s@.subrange(i as int, i + m) == p@),
{
    let mut k: usize = 0;
    while k < m
        invariant
            n == s@.len(),
            m == p@.len(),
            i + m <= n,
            k <= m,
            forall|j: int| 0 <= j < k ==> s@[i + j] == p@[j],
        decreases m - k,
    {
        if s.get_char(i + k) != p.get_char(k) {
            assert(s@.subrange(i as int, i + m)[k as int] != p@[k as int]);
            return false;
        }
        k = k + 1;
    }
    assert(s@.subrange(i as int, i + m) =~= p@);
    true
}

/// Whether `a` and `b` hold the same characters.
pub fn str_eq(a: &str, b: &str) -> (r: bool)
    ensures
        r == (a@ == b@),
{
    let n = a.unicode_len();
    let m = b.unicode_len();
    if n != m {
        return false;
    }
    let r = matches_at(a, b, 0, n, m);
    assert(a@.subrange(0, n as int) =~= a@);
    r
}

/// Whether `s` begins with `p`.
pub fn str_starts_with(s: &str, p: &str) -> (r: bool)
    ensures
        r == starts_with(s@, p@),
{
    let n = s.unicode_len();
    let m = p.unicode_len();
    if m > n {
        return false;
    }
    matches_at(s, p, 0, n, m)
}

/// The index of the first occurrence of `p` in `s`.
pub fn str_find(s: &str, p: &str) -> (r: Option<usize>)
    ensures
        r matches Some(k) ==> find(s@, p@) == Some(k as int),
        r is None ==> find(s@, p@) is None,
{
    let n = s.unicode_len();
    let m = p.unicode_len();
    if m > n {
        return None;
    }
    if m == 0 {
        assert(s@.subrange(0, 0) =~= p@);
        return Some(0);
    }
    let mut i: usize = 0;
    while i <= n - m
        invariant
            n == s@.len(),
            m == p@.len(),
            1 <= m <= n,
            i <= n - m + 1,
            find_from(s@, p@, 0) == find_from(s@, p@, i as int),
        decreases n - m + 1 - i,
    {
        if matches_at(s, p, i, n, m) {
            return Some(i);
        }
        i = i + 1;
    }
    None
}

/// Whether `p` occurs in `s`.
pub fn str_contains(s: &str, p: &str) -> (r: bool)
    ensures
        r == contains(s@, p@),
{
    proof {
        lemma_find(s@, p@);
    }
    str_find(s, p).is_some()
}

/// The characters of `s` from index `a` up to `b`, as a `String`.
pub fn substring(s: &str, a: usize, b: usize) -> (r: String)
    requires
        a <= b <= s@.len(),
    ensures
        r@ == s@.subrange(a as int, b as int),
{
    String::from_str(s.substring_char(a, b))
}

/// `s` with every leading `c` removed.
pub open spec fn trim_start_char(s: Seq<char>, c: char) -> Seq<char>
    decreases s.len(),
{
    if s.len() > 0 && s[0] == c {
        trim_start_char(s.drop_first(), c)
    } else {
        s
    }
}

/// `s` with every trailing `c` removed.
pub open spec fn trim_end_char(s: Seq<char>, c: char) -> Seq<char>
    decreases s.len(),
{
    if s.len() > 0 && s.last() == c {
        trim_end_char(s.drop_last(), c)
    } else {
        s
    }
}

/// `s` with every leading and trailing `c` removed.
pub open spec fn trim_char(s: Seq<char>, c: char) -> Seq<char> {
    trim_end_char(trim_start_char(s, c), c)
}

/// The bounds of `s[a..b]` once every leading and trailing `c` is removed.
pub fn trim_char_bounds(s: &str, a: usize, b: usize, c: char) -> (r: (usize, usize))
    requires
        a <= b <= s@.len(),
    ensures
        a <= r.0 <= r.1 <= b,
        s@.subrange(r.0 as int, r.1 as int) == trim_char(s@.subrange(a as int, b as int), c),
{
    let mut i = a;
    while i < b && s.get_char(i) == c
        invariant
            a <= i <= b <= s@.len(),
            trim_start_char(s@.subrange(a as int, b as int), c) == trim_start_char(
                s@.subrange(i as int, b as int),
                c,
            ),
        decreases b - i,
    {
        assert(s@.subrange(i as int, b as int).drop_first() =~= s@.subrange(i + 1, b as int));
        i = i + 1;
    }
    let mut j = b;
    while j > i && s.get_char(j - 1) == c
        invariant
            a <= i <= j <= b <= s@.len(),
            trim_start_char(s@.subrange(a as int, b as int), c) == s@.subrange(i as int, b as int),
            trim_end_char(s@.subrange(i as int, b as int), c) == trim_end_char(
                s@.subrange(i as int, j as int),
                c,
            ),
        decreases j - i,
    {
        assert(s@.subrange(i as int, j as int).drop_last() =~= s@.subrange(i as int, j - 1));
        j = j - 1;
    }
    (i, j)
}

/// `s` with every leading and trailing `c` removed.
pub fn trim_char_str(s: &str, c: char) -> (r: String)
    ensures
        r@ == trim_char(s@, c),
{
    let n = s.unicode_len();
    let (i, j) = trim_char_bounds(s, 0, n, c);
    assert(s@.subrange(0, n as int) =~= s@);
    substring(s, i, j)
}

/// `s` with the prefix `p` removed as many times as it begins with it.
pub open spec fn strip_prefixes(s: Seq<char>, p: Seq<char>) -> Seq<char>
    decreases s.len(),
{
    if p.len() > 0 && starts_with(s, p) {
        strip_prefixes(s.skip(p.len() as int), p)
    } else {
        s
    }
}

/// `s` with the prefix `p` removed as many times as it begins with it.
pub fn strip_prefixes_str(s: &str, p: &str) -> (r: String)
    ensures
        r@ == strip_prefixes(s@, p@),
{
    let n = s.unicode_len();
    let m = p.unicode_len();
    let mut i: usize = 0;
    assert(s@.subrange(0, n as int) =~= s@);
    while m > 0 && m <= n - i && matches_at(s, p, i, n, m)
        invariant
            n == s@.len(),
            m == p@.len(),
            i <= n,
            strip_prefixes(s@, p@) == strip_prefixes(s@.subrange(i as int, n as int), p@),
        decreases n - i,
    {
        assert(s@.subrange(i as int, n as int).subrange(0, m as int) =~= s@.subrange(
            i as int,
            i + m,
        ));
        assert(s@.subrange(i as int, n as int).skip(m as int) =~= s@.subrange(
            i + m,
            n as int,
        ));
        i = i + m;
    }
    if m > 0 && m <= n - i {
        assert(s@.subrange(i as int, n as int).subrange(0, m as int) =~= s@.subrange(
            i as int,
            i + m,
        ));
    }
    substring(s, i, n)
}

/// `s` with every `c` replaced by `r`.
pub open spec fn replace_char(s: Seq<char>, c: char, r: Seq<char>) -> Seq<char>
    decreases s.len(),
{
    if s.len() == 0 {
        seq![]
    } else {
        replace_char(s.drop_last(), c, r) + if s.last() == c {
            r
        } else {
            seq![s.last()]
        }
    }
}

/// `s` with every `c` replaced by `r`.
pub fn replace_char_str(s: &str, c: char, r: &str) -> (out: String)
    ensures
        out@ == replace_char(s@, c, r@),
{
    let n = s.unicode_len();
    let mut out = String::new();
    let mut i: usize = 0;
    while i < n
        invariant
            n == s@.len(),
            i <= n,
            out@ == replace_char(s@.take(i as int), c, r@),
        decreases n - i,
    {
        assert(s@.take(i + 1).drop_last() =~= s@.take(i as int));
        let ch = s.get_char(i);
        if ch == c {
            out.append(r);
        } else {
            let one = s.substring_char(i, i + 1);
            assert(one@ =~= seq![ch]);
            out.append(one);
        }
        i = i + 1;
    }
    assert(s@.take(n as int) =~= s@);
    out
}

/// The characters that Unicode gives the `White_Space` property.
pub open spec fn is_whitespace(c: char) -> bool {
    ||| '\t' <= c <= '\r'
    ||| c == ' '
    ||| c == '\u{85}'
    ||| c == '\u{a0}'
    ||| c == '\u{1680}'
    ||| '\u{2000}' <= c <= '\u{200a}'
    ||| c == '\u{2028}'
    ||| c == '\u{2029}'
    ||| c == '\u{202f}'
    ||| c == '\u{205f}'
    ||| c == '\u{3000}'
}

/// Whether `c` is Unicode white space.
pub fn char_is_whitespace(c: char) -> (r: bool)
    ensures
        r == is_whitespace(c),
{
    ('\t' <= c && c <= '\r') || c == ' ' || c == '\u{85}' || c == '\u{a0}' || c == '\u{1680}' || (
    '\u{2000}' <= c && c <= '\u{200a}') || c == '\u{2028}' || c == '\u{2029}' || c == '\u{202f}'
        || c == '\u{205f}' || c == '\u{3000}'
}

/// After reading `s` from left to right: the words completed so far, and the
/// word under way (empty after white space).
pub open spec fn word_state(s: Seq<char>) -> (Seq<Seq<char>>, Seq<char>)
    decreases s.len(),
{
    if s.len() == 0 {
        (seq![], seq![])
    } else {
        let (words, cur) = word_state(s.drop_last());
        if is_whitespace(s.last()) {
            if cur.len() > 0 {
                (words.push(cur), seq![])
            } else {
                (words, seq![])
            }
        } else {
            (words, cur.push(s.last()))
        }
    }
}

/// The maximal runs of non-white-space characters of `s`, in order.
pub open spec fn words(s: Seq<char>) -> Seq<Seq<char>> {
    let (w, cur) = word_state(s);
    if cur.len() > 0 {
        w.push(cur)
    } else {
        w
    }
}

/// The maximal runs of non-white-space characters of `s`, in order.
pub fn split_whitespace(s: &str) -> (r: Vec<String>)
    ensures
        r.deep_view() == words(s@),
{
    let n = s.unicode_len();
    let mut out: Vec<String> = Vec::new();
    let mut start: usize = 0;
    let mut i: usize = 0;
    while i < n
        invariant
            n == s@.len(),
            start <= i <= n,
            word_state(s@.take(i as int)).0 == out.deep_view(),
            word_state(s@.take(i as int)).1 == s@.subrange(start as int, i as int),
        decreases n - i,
    {
        assert(s@.take(i + 1).drop_last() =~= s@.take(i as int));
        let ch = s.get_char(i);
        if char_is_whitespace(ch) {
            if start < i {
                let w = substring(s, start, i);
                let ghost before = out.deep_view();
                out.push(w);
                assert(out.deep_view() =~= before.push(w@));
            }
            start = i + 1;
            assert(s@.subrange(start as int, i + 1) =~= Seq::<char>::empty());
        } else {
            assert(s@.subrange(start as int, i + 1) =~= s@.subrange(start as int, i as int).push(
                ch,
            ));
        }
        i = i + 1;
    }
    assert(s@.take(n as int) =~= s@);
    if start < n {
        let w = substring(s, start, n);
        let ghost before = out.deep_view();
        out.push(w);
        assert(out.deep_view() =~= before.push(w@));
    }
    out
}

/// `s` without leading white space.
pub open spec fn trim_start_whitespace(s: Seq<char>) -> Seq<char>
    decreases s.len(),
{
    if s.len() > 0 && is_whitespace(s[0]) {
        trim_start_whitespace(s.drop_first())
    } else {
        s
    }
}

/// `s` without trailing white space.
pub open spec fn trim_end_whitespace(s: Seq<char>) -> Seq<char>
    decreases s.len(),
{
    if s.len() > 0 && is_whitespace(s.last()) {
        trim_end_whitespace(s.drop_last())
    } else {
        s
    }
}

/// `s` without leading and trailing white space.
pub open spec fn trim_whitespace(s: Seq<char>) -> Seq<char> {
    trim_end_whitespace(trim_start_whitespace(s))
}

/// `s` without leading and trailing white space.
pub fn trim_whitespace_str(s: &str) -> (r: String)
    ensures
        r@ == trim_whitespace(s@),
{
    let n = s.unicode_len();
    let mut i: usize = 0;
    assert(s@.subrange(0, n as int) =~= s@);
    while i < n && char_is_whitespace(s.get_char(i))
        invariant
            n == s@.len(),
            i <= n,
            trim_start_whitespace(s@) == trim_start_whitespace(s@.subrange(i as int, n as int)),
        decreases n - i,
    {
        assert(s@.subrange(i as int, n as int).drop_first() =~= s@.subrange(i + 1, n as int));
        i = i + 1;
    }
    let mut j = n;
    while j > i && char_is_whitespace(s.get_char(j - 1))
        invariant
            n == s@.len(),
            i <= j <= n,
            trim_start_whitespace(s@) == s@.subrange(i as int, n as int),
            trim_end_whitespace(s@.subrange(i as int, n as int)) == trim_end_whitespace(
                s@.subrange(i as int, j as int),
            ),
        decreases j - i,
    {
        assert(s@.subrange(i as int, j as int).drop_last() =~= s@.subrange(i as int, j - 1));
        j = j - 1;
    }
    substring(s, i, j)
}

/// Appends a copy of `s` to the list `v`.
pub fn push_str(v: &mut Vec<String>, s: &str)
    ensures
        final(v).deep_view() == old(v).deep_view().push(s@),
{
    let ghost before = v.deep_view();
    v.push(String::from_str(s));
    assert(v.deep_view() =~= before.push(s@));
}

/// Copies of `args[start..]`.
pub fn copy_from(args: &Vec<String>, start: usize) -> (r: Vec<String>)
    requires
        start <= args.len(),
    ensures
        r.deep_view() == args.deep_view().skip(start as int),
{
    let mut out: Vec<String> = Vec::new();
    let mut k = start;
    while k < args.len()
        invariant
            start <= k <= args.len(),
            out.deep_view() == args.deep_view().subrange(start as int, k as int),
        decreases args.len() - k,
    {
        push_str(&mut out, args[k].as_str());
        assert(args.deep_view().subrange(start as int, k + 1) =~= args.deep_view().subrange(
            start as int,
            k as int,
        ).push(args[k as int]@));
        k = k + 1;
    }
    assert(args.deep_view().subrange(start as int, args.len() as int) =~= args.deep_view().skip(
        start as int,
    ));
    out
}

/// Trimming `c` removes exactly the surrounding `c`s: text that neither starts
/// nor ends with `c` stays as it is, with or without one `c` on each side.
pub proof fn lemma_trim_char_surrounding(s: Seq<char>, c: char)
    requires
        s.len() == 0 || (s[0] != c && s.last() != c),
    ensures
        trim_char(s, c) == s,
        trim_char(seq![c] + s + seq![c], c) == s,
{
    let q = seq![c] + s + seq![c];
    assert(q.drop_first() =~= s + seq![c]);
    assert(q[0] == c);
    assert(trim_start_char(q, c) == trim_start_char(s + seq![c], c));
    if s.len() == 0 {
        assert(s + seq![c] =~= seq![c]);
        assert(seq![c].drop_first() =~= Seq::<char>::empty());
        assert(trim_start_char(seq![c], c) == trim_start_char(Seq::<char>::empty(), c));
        assert(trim_char(q, c) == trim_end_char(Seq::<char>::empty(), c));
    } else {
        assert((s + seq![c])[0] == s[0]);
        assert(trim_start_char(s + seq![c], c) == s + seq![c]);
        assert((s + seq![c]).drop_last() =~= s);
        assert((s + seq![c]).last() == c);
        assert(trim_end_char(s + seq![c], c) == trim_end_char(s, c));
        assert(trim_start_char(s, c) == s);
        assert(trim_end_char(s, c) == s);
    }
}

} // verus!
