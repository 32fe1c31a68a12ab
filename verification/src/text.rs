//! Protocol text as bytes: trimming, case folding, searching and splitting.
//!
//! The wire protocols handled here are ASCII. Text is therefore kept as bytes
//! and compared byte by byte; "whitespace" means ASCII whitespace and case
//! folding touches only `A`–`Z` and `a`–`z`.

use vstd::prelude::*;
use vstd::string::StringSliceAdditionalSpecFns;
use crate::octets::copy_range;

verus! {

/// The bytes of a string literal.
pub open spec fn lit(s: &str) -> Seq<u8> {
    s.spec_bytes()
}

/// ASCII whitespace: space, tab, line feed, vertical tab, form feed, carriage return.
pub open spec fn is_space(b: u8) -> bool {
    b == 32 || (9 <= b && b <= 13)
}

/// Number of whitespace bytes at the front of `s`.
pub open spec fn leading_spaces(s: Seq<u8>) -> nat
    decreases s.len(),
{
    if s.len() > 0 && is_space(s[0]) {
        1 + leading_spaces(s.skip(1))
    } else {
        0
    }
}

/// Number of whitespace bytes at the back of `s`.
pub open spec fn trailing_spaces(s: Seq<u8>) -> nat
    decreases s.len(),
{
    if s.len() > 0 && is_space(s.last()) {
        1 + trailing_spaces(s.drop_last())
    } else {
        0
    }
}

/// `s` without its leading whitespace.
pub open spec fn trimmed_start(s: Seq<u8>) -> Seq<u8> {
    s.skip(leading_spaces(s) as int)
}

/// `s` without its trailing whitespace.
pub open spec fn trimmed_end(s: Seq<u8>) -> Seq<u8> {
    s.take(s.len() - trailing_spaces(s))
}

/// `s` without leading and trailing whitespace.
pub open spec fn trimmed(s: Seq<u8>) -> Seq<u8> {
    trimmed_end(trimmed_start(s))
}

/// Whether `s` holds nothing but whitespace.
pub open spec fn is_blank(s: Seq<u8>) -> bool {
    trimmed(s).len() == 0
}

/// Tests one byte for ASCII whitespace.
pub fn byte_is_space(b: u8) -> (r: bool)
    ensures
        r == is_space(b),
{
    b == 32 || (9 <= b && b <= 13)
}

/// Index of the first byte of `s` that is not whitespace, or its length.
pub fn skip_spaces(s: &[u8]) -> (i: usize)
    ensures
        i == leading_spaces(s@),
        i <= s@.len(),
{
    let mut i: usize = 0;
    assert(s@.skip(0) =~= s@);
    while i < s.len() && byte_is_space(s[i])
        invariant
            i <= s@.len(),
            leading_spaces(s@) == i + leading_spaces(s@.skip(i as int)),
        decreases s@.len() - i,
    {
        assert(s@.skip(i as int).skip(1) =~= s@.skip(i + 1));
        i += 1;
    }
    i
}

/// Length of `s[from..]` without its trailing whitespace, counted from `from`.
pub fn trim_end_index(s: &[u8], from: usize) -> (j: usize)
    requires
        from <= s@.len(),
    ensures
        from <= j <= s@.len(),
        j - from == s@.skip(from as int).len() - trailing_spaces(s@.skip(from as int)),
{
    let ghost t = s@.skip(from as int);
    let mut j: usize = s.len();
    assert(t.take(t.len() as int) =~= t);
    while j > from && byte_is_space(s[j - 1])
        invariant
            from <= j <= s@.len(),
            t == s@.skip(from as int),
            trailing_spaces(t) == (s@.len() - j) + trailing_spaces(t.take(j - from)),
        decreases j,
    {
        assert(t.take(j - from).drop_last() =~= t.take(j - 1 - from));
        assert(t.take(j - from).last() == s@[j - 1]);
        j -= 1;
    }
    assert(t.take(j - from).len() > 0 ==> t.take(j - from).last() == s@[j - 1]);
    j
}

/// A copy of `s` without leading and trailing whitespace.
pub fn trim(s: &[u8]) -> (r: Vec<u8>)
    ensures
        r@ == trimmed(s@),
{
    let a: usize = skip_spaces(s);
    let b: usize = trim_end_index(s, a);
    let r = copy_range(s, a, b);
    assert(r@ =~= trimmed(s@));
    r
}

/// The lower-case form of an ASCII letter; any other byte unchanged.
pub open spec fn lower(b: u8) -> u8 {
    if 65 <= b && b <= 90 {
        (b + 32) as u8
    } else {
        b
    }
}

/// The upper-case form of an ASCII letter; any other byte unchanged.
pub open spec fn upper(b: u8) -> u8 {
    if 97 <= b && b <= 122 {
        (b - 32) as u8
    } else {
        b
    }
}

/// `s` with every ASCII letter in lower case.
pub open spec fn lowercase(s: Seq<u8>) -> Seq<u8> {
    Seq::new(s.len(), |i: int| lower(s[i]))
}

/// `s` with every ASCII letter in upper case.
pub open spec fn uppercase(s: Seq<u8>) -> Seq<u8> {
    Seq::new(s.len(), |i: int| upper(s[i]))
}

/// A copy of `s` in lower case.
pub fn to_lowercase(s: &[u8]) -> (r: Vec<u8>)
    ensures
        r@ == lowercase(s@),
{
    let mut r: Vec<u8> = Vec::new();
    let mut i: usize = 0;
    while i < s.len()
        invariant
            i <= s@.len(),
            r@ == lowercase(s@.take(i as int)),
        decreases s@.len() - i,
    {
        let b: u8 = s[i];
        r.push(if 65 <= b && b <= 90 { b + 32 } else { b });
        i += 1;
        assert(r@ =~= lowercase(s@.take(i as int)));
    }
    assert(s@.take(i as int) =~= s@);
    r
}

/// A copy of `s` in upper case.
pub fn to_uppercase(s: &[u8]) -> (r: Vec<u8>)
    ensures
        r@ == uppercase(s@),
{
    let mut r: Vec<u8> = Vec::new();
    let mut i: usize = 0;
    while i < s.len()
        invariant
            i <= s@.len(),
            r@ == uppercase(s@.take(i as int)),
        decreases s@.len() - i,
    {
        let b: u8 = s[i];
        r.push(if 97 <= b && b <= 122 { b - 32 } else { b });
        i += 1;
        assert(r@ =~= uppercase(s@.take(i as int)));
    }
    assert(s@.take(i as int) =~= s@);
    r
}

/// Whether `pat` occurs in `s` at offset `at`.
pub open spec fn occurs_at(s: Seq<u8>, pat: Seq<u8>, at: int) -> bool {
    0 <= at && at + pat.len() <= s.len() && s.subrange(at, at + pat.len()) == pat
}

/// Whether `s` begins with `pat`.
pub open spec fn has_prefix(s: Seq<u8>, pat: Seq<u8>) -> bool {
    occurs_at(s, pat, 0)
}

/// Whether `s` ends with `pat`.
pub open spec fn has_suffix(s: Seq<u8>, pat: Seq<u8>) -> bool {
    occurs_at(s, pat, s.len() - pat.len())
}

/// Tests whether `pat` occurs in `s` at offset `at`.
pub fn matches_at(s: &[u8], pat: &[u8], at: usize) -> (r: bool)
    ensures
        r == occurs_at(s@, pat@, at as int),
{
    if at > s.len() || pat.len() > s.len() - at {
        return false;
    }
    let mut k: usize = 0;
    while k < pat.len()
        invariant
            k <= pat@.len(),
            at + pat@.len() <= s@.len() <= usize::MAX,
            s@.subrange(at as int, at + k) == pat@.take(k as int),
        decreases pat@.len() - k,
    {
        if s[at + k] != pat[k] {
            assert(s@.subrange(at as int, at + pat@.len())[k as int] != pat@[k as int]);
            return false;
        }
        k += 1;
        assert(s@.subrange(at as int, at + k) =~= pat@.take(k as int));
    }
    assert(pat@.take(k as int) =~= pat@);
    true
}

/// Tests whether `s` begins with `pat`.
pub fn starts_with(s: &[u8], pat: &[u8]) -> (r: bool)
    ensures
        r == has_prefix(s@, pat@),
{
    matches_at(s, pat, 0)
}

/// Tests whether `s` ends with `pat`.
pub fn ends_with(s: &[u8], pat: &[u8]) -> (r: bool)
    ensures
        r == has_suffix(s@, pat@),
{
    if pat.len() > s.len() {
        return false;
    }
    matches_at(s, pat, s.len() - pat.len())
}

/// Tests two byte strings for equality.
pub fn bytes_eq(a: &[u8], b: &[u8]) -> (r: bool)
    ensures
        r == (a@ == b@),
{
    if a.len() != b.len() {
        return false;
    }
    let r = matches_at(a, b, 0);
    assert(a@.subrange(0, a@.len() as int) =~= a@);
    r
}

/// The rest of `s` after the prefix `pat`, when `s` begins with it.
pub open spec fn without_prefix(s: Seq<u8>, pat: Seq<u8>) -> Option<Seq<u8>> {
    if has_prefix(s, pat) {
        Some(s.skip(pat.len() as int))
    } else {
        None
    }
}

/// A copy of `s` after the prefix `pat`, when `s` begins with it.
pub fn strip_prefix(s: &[u8], pat: &[u8]) -> (r: Option<Vec<u8>>)
    ensures
        r.is_some() == has_prefix(s@, pat@),
        r matches Some(v) ==> without_prefix(s@, pat@) == Some(v@),
{
    if starts_with(s, pat) {
        let v = copy_range(s, pat.len(), s.len());
        assert(v@ =~= s@.skip(pat@.len() as int));
        Some(v)
    } else {
        None
    }
}

/// Offset of the first occurrence of `pat` in `s` at or after `from`.
pub open spec fn find_from(s: Seq<u8>, pat: Seq<u8>, from: int) -> Option<int>
    decreases s.len() - from + 1,
{
    if from < 0 || from + pat.len() > s.len() {
        None
    } else if occurs_at(s, pat, from) {
        Some(from)
    } else {
        find_from(s, pat, from + 1)
    }
}

/// Offset of the first occurrence of `pat` in `s`.
pub open spec fn find(s: Seq<u8>, pat: Seq<u8>) -> Option<int> {
    find_from(s, pat, 0)
}

/// What a search finds is the first occurrence at or after its start; what
/// it does not find does not occur there.
pub proof fn lemma_find_from(s: Seq<u8>, pat: Seq<u8>, from: int)
    requires
        from >= 0,
    ensures
        match find_from(s, pat, from) {
            Some(i) => from <= i && occurs_at(s, pat, i) && forall|j: int|
                from <= j < i ==> !occurs_at(s, pat, j),
            None => forall|j: int| from <= j ==> !occurs_at(s, pat, j),
        },
    decreases s.len() - from + 1,
{
    if from + pat.len() > s.len() {
    } else if occurs_at(s, pat, from) {
    } else {
        lemma_find_from(s, pat, from + 1);
    }
}

/// Searches `s` for `pat`, starting at `from`.
pub fn search_from(s: &[u8], pat: &[u8], from: usize) -> (r: Option<usize>)
    ensures
        match r {
            Some(i) => find_from(s@, pat@, from as int) == Some(i as int),
            None => find_from(s@, pat@, from as int).is_none(),
        },
{
    if from > s.len() || pat.len() > s.len() - from {
        return None;
    }
    let last: usize = s.len() - pat.len();
    let mut i: usize = from;
    loop
        invariant
            from <= i <= last,
            last == s@.len() - pat@.len(),
            find_from(s@, pat@, from as int) == find_from(s@, pat@, i as int),
        decreases last - i,
    {
        if matches_at(s, pat, i) {
            return Some(i);
        }
        if i == last {
            assert(find_from(s@, pat@, i + 1).is_none());
            return None;
        }
        i += 1;
    }
}

/// The views of a list of byte strings.
pub open spec fn views(v: Seq<Vec<u8>>) -> Seq<Seq<u8>> {
    Seq::new(v.len(), |i: int| v[i]@)
}

/// The views of a list with one more byte string are the views of the list
/// with the view of that string.
pub proof fn lemma_views_push(v: Seq<Vec<u8>>, x: Vec<u8>)
    ensures
        views(v.push(x)) == views(v).push(x@),
{
    assert(views(v.push(x)) =~= views(v).push(x@));
}

/// The pieces of `s` between occurrences of the separator `pat`, in order.
/// A string without the separator is its own single piece.
pub open spec fn split_on(s: Seq<u8>, pat: Seq<u8>) -> Seq<Seq<u8>>
    decreases s.len(),
{
    match find(s, pat) {
        Some(i) => if 0 <= i && i + pat.len() <= s.len() && pat.len() > 0 {
            seq![s.take(i)] + split_on(s.skip(i + pat.len()), pat)
        } else {
            seq![s]
        },
        None => seq![s],
    }
}

/// Splitting gives at least one piece.
pub proof fn lemma_split_on_nonempty(s: Seq<u8>, pat: Seq<u8>)
    ensures
        split_on(s, pat).len() >= 1,
{
}

/// The part of `s` before the first occurrence of `pat`, and the part after
/// it when there is one.
pub open spec fn split_first(s: Seq<u8>, pat: Seq<u8>) -> (Seq<u8>, Option<Seq<u8>>) {
    match find(s, pat) {
        Some(i) => (s.take(i), Some(s.skip(i + pat.len()))),
        None => (s, None),
    }
}

/// Relates a search inside a suffix of `s` to a search in `s` itself.
pub proof fn lemma_find_in_suffix(s: Seq<u8>, pat: Seq<u8>, start: int, from: int)
    requires
        0 <= start <= s.len(),
        0 <= from,
    ensures
        find_from(s.skip(start), pat, from) == match find_from(s, pat, start + from) {
            Some(i) => Some(i - start),
            None => None,
        },
    decreases s.len() - start - from + 1,
{
    let t = s.skip(start);
    if from + pat.len() > t.len() {
    } else {
        assert(t.subrange(from, from + pat.len()) =~= s.subrange(
            start + from,
            start + from + pat.len(),
        ));
        if occurs_at(t, pat, from) {
        } else {
            lemma_find_in_suffix(s, pat, start, from + 1);
        }
    }
}

/// Splits `s` at the first occurrence of `pat`.
pub fn split_once(s: &[u8], pat: &[u8]) -> (r: (Vec<u8>, Option<Vec<u8>>))
    ensures
        r.0@ == split_first(s@, pat@).0,
        match r.1 {
            Some(t) => split_first(s@, pat@).1 == Some(t@),
            None => split_first(s@, pat@).1.is_none(),
        },
{
    let n: usize = s.len();
    match search_from(s, pat, 0) {
        Some(i) => {
            proof {
                lemma_find_from(s@, pat@, 0);
            }
            let head = copy_range(s, 0, i);
            let tail = copy_range(s, i + pat.len(), s.len());
            assert(head@ =~= s@.take(i as int));
            assert(tail@ =~= s@.skip(i + pat@.len()));
            (head, Some(tail))
        },
        None => {
            let head = copy_range(s, 0, s.len());
            assert(head@ =~= s@);
            (head, None)
        },
    }
}

/// Splits `s` at every occurrence of the non-empty separator `pat`.
pub fn split(s: &[u8], pat: &[u8]) -> (r: Vec<Vec<u8>>)
    requires
        pat@.len() > 0,
    ensures
        views(r@) == split_on(s@, pat@),
{
    let mut r: Vec<Vec<u8>> = Vec::new();
    let mut start: usize = 0;
    let n: usize = s.len();
    assert(s@.skip(0) =~= s@);
    assert(views(r@) =~= Seq::<Seq<u8>>::empty());
    loop
        invariant
            start <= s@.len() <= usize::MAX,
            pat@.len() > 0,
            split_on(s@, pat@) == views(r@) + split_on(s@.skip(start as int), pat@),
        decreases s@.len() - start,
    {
        let ghost rest = s@.skip(start as int);
        proof {
            lemma_find_in_suffix(s@, pat@, start as int, 0);
            lemma_find_from(s@, pat@, start as int);
        }
        match search_from(s, pat, start) {
            Some(i) => {
                let piece = copy_range(s, start, i);
                proof {
                    assert(piece@ =~= rest.take(i - start));
                    assert(rest.skip(i - start + pat@.len()) =~= s@.skip(i + pat@.len()));
                    lemma_views_push(r@, piece);
                    assert(views(r@).push(piece@) + split_on(s@.skip(i + pat@.len()), pat@)
                        =~= views(r@) + (seq![piece@] + split_on(s@.skip(i + pat@.len()), pat@)));
                }
                r.push(piece);
                start = i + pat.len();
            },
            None => {
                let piece = copy_range(s, start, s.len());
                proof {
                    assert(piece@ =~= rest);
                    lemma_views_push(r@, piece);
                    assert(views(r@).push(piece@) =~= views(r@) + seq![rest]);
                }
                r.push(piece);
                return r;
            },
        }
    }
}

/// Length of the run of bytes at the front of `s` that are not whitespace.
pub open spec fn word_len(s: Seq<u8>) -> nat
    decreases s.len(),
{
    if s.len() > 0 && !is_space(s[0]) {
        1 + word_len(s.skip(1))
    } else {
        0
    }
}

/// The maximal runs of non-whitespace bytes in `s`, in order.
pub open spec fn words(s: Seq<u8>) -> Seq<Seq<u8>>
    decreases s.len(),
{
    let t = trimmed_start(s);
    let n = word_len(t);
    if 0 < n <= t.len() && t.len() <= s.len() {
        seq![t.take(n as int)] + words(t.skip(n as int))
    } else {
        Seq::empty()
    }
}

/// Splits `s` into its whitespace-separated words.
pub fn split_words(s: &[u8]) -> (r: Vec<Vec<u8>>)
    ensures
        views(r@) == words(s@),
{
    let mut r: Vec<Vec<u8>> = Vec::new();
    let mut pos: usize = 0;
    assert(s@.skip(0) =~= s@);
    assert(views(r@) =~= Seq::<Seq<u8>>::empty());
    loop
        invariant
            pos <= s@.len(),
            words(s@) == views(r@) + words(s@.skip(pos as int)),
        decreases s@.len() - pos,
    {
        let ghost rest = s@.skip(pos as int);
        let ghost t = trimmed_start(rest);
        let mut a: usize = pos;
        while a < s.len() && byte_is_space(s[a])
            invariant
                pos <= a <= s@.len(),
                rest == s@.skip(pos as int),
                leading_spaces(rest) == (a - pos) + leading_spaces(s@.skip(a as int)),
            decreases s@.len() - a,
        {
            assert(s@.skip(a as int).skip(1) =~= s@.skip(a + 1));
            a += 1;
        }
        assert(t =~= s@.skip(a as int));
        let mut b: usize = a;
        assert(t.skip(0) =~= t);
        while b < s.len() && !byte_is_space(s[b])
            invariant
                a <= b <= s@.len(),
                t == s@.skip(a as int),
                word_len(t) == (b - a) + word_len(s@.skip(b as int)),
            decreases s@.len() - b,
        {
            assert(s@.skip(b as int).skip(1) =~= s@.skip(b + 1));
            b += 1;
        }
        if b == a {
            assert(views(r@) + Seq::<Seq<u8>>::empty() =~= views(r@));
            return r;
        }
        let piece = copy_range(s, a, b);
        proof {
            assert(piece@ =~= t.take(b - a));
            assert(t.skip(b - a) =~= s@.skip(b as int));
            lemma_views_push(r@, piece);
            assert(views(r@).push(piece@) + words(s@.skip(b as int)) =~= views(r@) + (seq![
                piece@,
            ] + words(s@.skip(b as int))));
        }
        r.push(piece);
        pos = b;
    }
}

} // verus!
