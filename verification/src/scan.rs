//! Searching byte sequences for a byte or a fixed pattern.

use vstd::prelude::*;

verus! {

/// True when `pat` stands in `s` at index `i`.
pub open spec fn occurs_at(s: Seq<u8>, pat: Seq<u8>, i: int) -> bool {
    0 <= i && i + pat.len() <= s.len() && s.subrange(i, i + pat.len()) == pat
}

/// The first index at or after `from` where `pat` stands in `s`.
pub open spec fn find_from(s: Seq<u8>, pat: Seq<u8>, from: int) -> Option<int>
    decreases s.len() + 1 - from,
{
    if from < 0 || from + pat.len() > s.len() {
        None
    } else if occurs_at(s, pat, from) {
        Some(from)
    } else {
        find_from(s, pat, from + 1)
    }
}

/// The first index where `pat` stands in `s`.
pub open spec fn find(s: Seq<u8>, pat: Seq<u8>) -> Option<int> {
    find_from(s, pat, 0)
}

/// The first index of the byte `b` in `s`.
pub open spec fn find_byte(s: Seq<u8>, b: u8) -> Option<int> {
    find(s, seq![b])
}

/// The last index of the byte `b` in `s`.
pub open spec fn rfind_byte(s: Seq<u8>, b: u8) -> Option<int>
    decreases s.len(),
{
    if s.len() == 0 {
        None
    } else if s.last() == b {
        Some(s.len() - 1)
    } else {
        rfind_byte(s.drop_last(), b)
    }
}

/// `find_from` returns the least occurrence at or after `from`, and `None` only
/// where there is none.
pub proof fn lemma_find_from(s: Seq<u8>, pat: Seq<u8>, from: int)
    requires
        0 <= from,
    ensures
        match find_from(s, pat, from) {
            Some(i) => from <= i && occurs_at(s, pat, i) && forall|j: int|
                from <= j < i ==> !occurs_at(s, pat, j),
            None => forall|j: int| from <= j ==> !occurs_at(s, pat, j),
        },
    decreases s.len() + 1 - from,
{
    if from + pat.len() > s.len() {
    } else if occurs_at(s, pat, from) {
    } else {
        lemma_find_from(s, pat, from + 1);
    }
}

/// An occurrence with none before it is the one that `find` returns.
pub proof fn lemma_find_first(s: Seq<u8>, pat: Seq<u8>, i: int)
    requires
        occurs_at(s, pat, i),
        forall|j: int| 0 <= j < i ==> !occurs_at(s, pat, j),
    ensures
        find(s, pat) == Some(i),
{
    lemma_find_from(s, pat, 0);
}

/// A one-byte pattern stands exactly where that byte stands.
pub proof fn lemma_occurs_byte(s: Seq<u8>, b: u8, i: int)
    ensures
        occurs_at(s, seq![b], i) <==> (0 <= i < s.len() && s[i] == b),
{
    if 0 <= i < s.len() {
        if s[i] == b {
            assert(s.subrange(i, i + 1) =~= seq![b]);
        } else {
            assert(s.subrange(i, i + 1)[0] == s[i]);
        }
    }
}

/// `find_byte` returns the least index that holds `b`.
pub proof fn lemma_find_byte(s: Seq<u8>, b: u8)
    ensures
        match find_byte(s, b) {
            Some(i) => 0 <= i < s.len() && s[i] == b && forall|j: int|
                0 <= j < i ==> s[j] != b,
            None => forall|j: int| 0 <= j < s.len() ==> s[j] != b,
        },
{
    lemma_find_from(s, seq![b], 0);
    assert forall|j: int| occurs_at(s, seq![b], j) <==> (0 <= j < s.len() && s[j] == b) by {
        lemma_occurs_byte(s, b, j);
    }
}

/// `rfind_byte` returns the greatest index that holds `b`.
pub proof fn lemma_rfind_byte(s: Seq<u8>, b: u8)
    ensures
        match rfind_byte(s, b) {
            Some(i) => 0 <= i < s.len() && s[i] == b && forall|j: int|
                i < j < s.len() ==> s[j] != b,
            None => forall|j: int| 0 <= j < s.len() ==> s[j] != b,
        },
    decreases s.len(),
{
    if s.len() > 0 && s.last() != b {
        let t = s.drop_last();
        lemma_rfind_byte(t, b);
        assert forall|j: int| 0 <= j < t.len() implies t[j] == s[j] by {}
    }
}

/// True when the byte `b` stands nowhere in `s`.
pub open spec fn free_of(s: Seq<u8>, b: u8) -> bool {
    forall|i: int| 0 <= i < s.len() ==> #[trigger] s[i] != b
}

/// An index that holds `b`, with no `b` before it, is the one that `find_byte`
/// returns.
pub proof fn lemma_find_byte_first(s: Seq<u8>, b: u8, i: int)
    requires
        0 <= i < s.len(),
        s[i] == b,
        free_of(s.take(i), b),
    ensures
        find_byte(s, b) == Some(i),
{
    lemma_find_byte(s, b);
    if find_byte(s, b) != Some(i) {
        let k = find_byte(s, b).unwrap();
        assert(s.take(i)[k] == s[k]);
    }
}

/// An index that holds `b`, with no `b` after it, is the one that `rfind_byte`
/// returns.
pub proof fn lemma_rfind_byte_last(s: Seq<u8>, b: u8, i: int)
    requires
        0 <= i < s.len(),
        s[i] == b,
        free_of(s.skip(i + 1), b),
    ensures
        rfind_byte(s, b) == Some(i),
{
    lemma_rfind_byte(s, b);
    if rfind_byte(s, b) != Some(i) {
        let k = rfind_byte(s, b).unwrap();
        assert(s.skip(i + 1)[k - (i + 1)] == s[k]);
    }
}

/// Where `b` stands nowhere, `rfind_byte` returns `None`.
pub proof fn lemma_rfind_byte_none(s: Seq<u8>, b: u8)
    requires
        free_of(s, b),
    ensures
        rfind_byte(s, b) is None,
{
    lemma_rfind_byte(s, b);
}

/// Tells whether `needle` stands in `haystack` at index `i`.
pub fn matches_at(haystack: &[u8], needle: &[u8], i: usize) -> (r: bool)
    ensures
        r == occurs_at(haystack@, needle@, i as int),
{
    if needle.len() > haystack.len() || i > haystack.len() - needle.len() {
        return false;
    }
    let mut k: usize = 0;
    while k < needle.len()
        invariant
            k <= needle.len(),
            i + needle.len() <= haystack.len(),
            forall|j: int| 0 <= j < k ==> haystack@[i + j] == needle@[j],
        decreases needle.len() - k,
    {
        if haystack[i + k] != needle[k] {
            assert(haystack@.subrange(i as int, i + needle@.len())[k as int] != needle@[k as int]);
            return false;
        }
        k = k + 1;
    }
    assert(haystack@.subrange(i as int, i + needle@.len()) =~= needle@);
    true
}

/// Tells whether two byte slices hold the same bytes.
pub fn bytes_eq(a: &[u8], b: &[u8]) -> (r: bool)
    ensures
        r == (a@ == b@),
{
    if a.len() != b.len() {
        return false;
    }
    let r = matches_at(a, b, 0);
    assert(a@.subrange(0, a@.len() as int) =~= a@);
    r
}

/// Finds the first index where `needle` stands in `haystack`.
pub fn locate(haystack: &[u8], needle: &[u8]) -> (r: Option<usize>)
    ensures
        match r {
            Some(i) => find(haystack@, needle@) == Some(i as int),
            None => find(haystack@, needle@) is None,
        },
{
    if needle.len() > haystack.len() {
        return None;
    }
    let last: usize = haystack.len() - needle.len();
    let mut i: usize = 0;
    loop
        invariant
            last == haystack.len() - needle.len(),
            i <= last,
            find(haystack@, needle@) == find_from(haystack@, needle@, i as int),
        decreases last - i,
    {
        if matches_at(haystack, needle, i) {
            return Some(i);
        }
        if i == last {
            assert(find_from(haystack@, needle@, i + 1) is None);
            return None;
        }
        i = i + 1;
    }
}

/// Finds the first index of the byte `b` in `s`.
pub fn locate_byte(s: &[u8], b: u8) -> (r: Option<usize>)
    ensures
        match r {
            Some(i) => find_byte(s@, b) == Some(i as int),
            None => find_byte(s@, b) is None,
        },
{
    let mut i: usize = 0;
    while i < s.len()
        invariant
            i <= s.len(),
            find_byte(s@, b) == find_from(s@, seq![b], i as int),
        decreases s.len() - i,
    {
        proof {
            lemma_occurs_byte(s@, b, i as int);
        }
        if s[i] == b {
            return Some(i);
        }
        i = i + 1;
    }
    None
}

/// Finds the last index of the byte `b` in `s`.
pub fn locate_last_byte(s: &[u8], b: u8) -> (r: Option<usize>)
    ensures
        match r {
            Some(i) => rfind_byte(s@, b) == Some(i as int),
            None => rfind_byte(s@, b) is None,
        },
{
    let mut i: usize = s.len();
    assert(s@.take(i as int) =~= s@);
    while i > 0
        invariant
            i <= s.len(),
            rfind_byte(s@, b) == rfind_byte(s@.take(i as int), b),
        decreases i,
    {
        i = i - 1;
        if s[i] == b {
            return Some(i);
        }
        assert(s@.take(i + 1).drop_last() =~= s@.take(i as int));
    }
    None
}

} // verus!
