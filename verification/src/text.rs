//! Byte-level text utilities: ASCII whitespace trimming, suffix tests and
//! concatenation, shared by identity resolution and installation.

use vstd::prelude::*;

verus! {

/// An ASCII whitespace byte: space, tab, line feed, vertical tab, form feed
/// or carriage return.
///
/// Whitespace is deliberately ASCII-only throughout this crate: key material
/// is handled as bytes, and the trimming here does not strip the rarer
/// Unicode whitespace characters (such as a no-break space) at the edges of
/// the content. Key lines are ASCII in practice, and the remote procedure's
/// shell tools draw the same line.
pub open spec fn is_space_byte(b: u8) -> bool {
    b == 32 || b == 9 || b == 10 || b == 11 || b == 12 || b == 13
}

/// `s` with its leading whitespace bytes removed.
pub open spec fn trim_start(s: Seq<u8>) -> Seq<u8>
    decreases s.len(),
{
    if s.len() > 0 && is_space_byte(s[0]) {
        trim_start(s.skip(1))
    } else {
        s
    }
}

/// `s` with its trailing whitespace bytes removed.
pub open spec fn trim_end(s: Seq<u8>) -> Seq<u8>
    decreases s.len(),
{
    if s.len() > 0 && is_space_byte(s.last()) {
        trim_end(s.drop_last())
    } else {
        s
    }
}

/// `s` with surrounding ASCII whitespace bytes removed (see
/// [`is_space_byte`] for why the notion is ASCII-only).
pub open spec fn trim(s: Seq<u8>) -> Seq<u8> {
    trim_end(trim_start(s))
}

/// Whether `s` ends with `suffix`.
pub open spec fn ends_with(s: Seq<u8>, suffix: Seq<u8>) -> bool {
    s.len() >= suffix.len() && s.skip(s.len() - suffix.len()) == suffix
}

/// Whether `pat` occurs as a contiguous run inside `s`.
pub open spec fn contains_seq(s: Seq<u8>, pat: Seq<u8>) -> bool {
    exists|k: int|
        0 <= k && k + pat.len() <= s.len() && #[trigger] s.subrange(k, k + pat.len()) == pat
}

pub fn is_space(b: u8) -> (r: bool)
    ensures
        r == is_space_byte(b),
{
    b == 32 || b == 9 || b == 10 || b == 11 || b == 12 || b == 13
}

/// Dropping a prefix of whitespace bytes is what `trim_start` does.
proof fn lemma_trim_start_skip(s: Seq<u8>, i: int)
    requires
        0 <= i <= s.len(),
        forall|k: int| 0 <= k < i ==> is_space_byte(s[k]),
        i < s.len() ==> !is_space_byte(s[i]),
    ensures
        trim_start(s) == s.skip(i),
    decreases i,
{
    if i == 0 {
        assert(s.skip(0) =~= s);
    } else {
        lemma_trim_start_skip(s.skip(1), i - 1);
        assert(s.skip(1).skip(i - 1) =~= s.skip(i));
    }
}

/// Dropping a suffix of whitespace bytes is what `trim_end` does.
proof fn lemma_trim_end_take(s: Seq<u8>, j: int)
    requires
        0 <= j <= s.len(),
        forall|k: int| j <= k < s.len() ==> is_space_byte(s[k]),
        j > 0 ==> !is_space_byte(s[j - 1]),
    ensures
        trim_end(s) == s.take(j),
    decreases s.len() - j,
{
    if j == s.len() {
        assert(s.take(j) =~= s);
    } else {
        lemma_trim_end_take(s.drop_last(), j);
        assert(s.drop_last().take(j) =~= s.take(j));
    }
}

/// `trim_end` keeps a prefix of its argument.
proof fn lemma_trim_end_is_prefix(s: Seq<u8>)
    ensures
        trim_end(s).len() <= s.len(),
        forall|i: int| 0 <= i < trim_end(s).len() ==> trim_end(s)[i] == s[i],
    decreases s.len(),
{
    if s.len() > 0 && is_space_byte(s.last()) {
        lemma_trim_end_is_prefix(s.drop_last());
        assert(forall|i: int|
            0 <= i < trim_end(s).len() ==> #[trigger] trim_end(s)[i] == s.drop_last()[i]);
        assert(forall|i: int|
            0 <= i < s.drop_last().len() ==> #[trigger] s.drop_last()[i] == s[i]);
    }
}

/// A non-empty `trim_end` result ends with a non-whitespace byte.
proof fn lemma_trim_end_last_not_space(s: Seq<u8>)
    ensures
        trim_end(s).len() > 0 ==> !is_space_byte(trim_end(s).last()),
    decreases s.len(),
{
    if s.len() > 0 && is_space_byte(s.last()) {
        lemma_trim_end_last_not_space(s.drop_last());
    }
}

/// A non-empty `trim_start` result begins with a non-whitespace byte.
proof fn lemma_trim_start_first_not_space(s: Seq<u8>)
    ensures
        trim_start(s).len() > 0 ==> !is_space_byte(trim_start(s)[0]),
    decreases s.len(),
{
    if s.len() > 0 && is_space_byte(s[0]) {
        lemma_trim_start_first_not_space(s.skip(1));
    }
}

/// A non-empty trimmed text neither begins nor ends with whitespace.
pub proof fn lemma_trim_ends_not_space(s: Seq<u8>)
    ensures
        trim(s).len() > 0 ==> !is_space_byte(trim(s)[0]),
        trim(s).len() > 0 ==> !is_space_byte(trim(s).last()),
{
    lemma_trim_start_first_not_space(s);
    lemma_trim_end_last_not_space(trim_start(s));
    lemma_trim_end_is_prefix(trim_start(s));
}

/// Trimming an already trimmed, non-empty text changes nothing.
pub proof fn lemma_trim_of_trimmed(t: Seq<u8>)
    requires
        t.len() > 0,
        !is_space_byte(t[0]),
        !is_space_byte(t.last()),
    ensures
        trim(t) == t,
{
    assert(trim_start(t) == t);
    assert(trim_end(t) == t);
}

/// Copy of `s[i..j]`.
fn subrange_vec(s: &Vec<u8>, i: usize, j: usize) -> (r: Vec<u8>)
    requires
        i <= j <= s.len(),
    ensures
        r@ == s@.subrange(i as int, j as int),
{
    let mut r: Vec<u8> = Vec::new();
    let mut k: usize = i;
    while k < j
        invariant
            i <= k <= j <= s.len(),
            r@ == s@.subrange(i as int, k as int),
        decreases j - k,
    {
        r.push(s[k]);
        assert(s@.subrange(i as int, k + 1 as int) =~= s@.subrange(i as int, k as int).push(
            s@[k as int],
        ));
        k = k + 1;
    }
    r
}

/// `s` with surrounding ASCII whitespace removed.
pub fn trim_bytes(s: &Vec<u8>) -> (r: Vec<u8>)
    ensures
        r@ == trim(s@),
{
    let mut i: usize = 0;
    while i < s.len() && is_space(s[i])
        invariant
            i <= s.len(),
            forall|k: int| 0 <= k < i ==> is_space_byte(s@[k]),
        decreases s.len() - i,
    {
        i = i + 1;
    }
    proof {
        lemma_trim_start_skip(s@, i as int);
    }
    let ghost t = s@.skip(i as int);
    let mut j: usize = s.len();
    while j > i && is_space(s[j - 1])
        invariant
            i <= j <= s.len(),
            forall|k: int| j <= k < s.len() ==> is_space_byte(s@[k]),
        decreases j,
    {
        j = j - 1;
    }
    proof {
        assert(forall|k: int| #![auto] j - i <= k < t.len() ==> t[k] == s@[k + i]);
        lemma_trim_end_take(t, j - i);
        assert(t.take(j - i) =~= s@.subrange(i as int, j as int));
    }
    subrange_vec(s, i, j)
}

/// Whether `s` ends with `suffix`, compared byte for byte.
pub fn ends_with_bytes(s: &Vec<u8>, suffix: &Vec<u8>) -> (r: bool)
    ensures
        r == ends_with(s@, suffix@),
{
    if s.len() < suffix.len() {
        return false;
    }
    let start: usize = s.len() - suffix.len();
    let mut k: usize = 0;
    while k < suffix.len()
        invariant
            k <= suffix.len() <= s.len(),
            start == s.len() - suffix.len(),
            forall|m: int| 0 <= m < k ==> s@[start + m] == suffix@[m],
        decreases suffix.len() - k,
    {
        if s[start + k] != suffix[k] {
            assert(s@.skip(start as int)[k as int] != suffix@[k as int]);
            return false;
        }
        k = k + 1;
    }
    assert(s@.skip(start as int) =~= suffix@);
    true
}

/// Whether `pat` occurs as a contiguous run inside `s`, by direct search.
pub fn contains_bytes(s: &Vec<u8>, pat: &Vec<u8>) -> (r: bool)
    ensures
        r == contains_seq(s@, pat@),
{
    if pat.len() > s.len() {
        return false;
    }
    if pat.len() == 0 {
        assert(contains_seq(s@, pat@)) by {
            assert(s@.subrange(0, 0 + pat@.len() as int) =~= pat@);
        }
        return true;
    }
    let last_start: usize = s.len() - pat.len();
    let mut k: usize = 0;
    loop
        invariant
            k <= last_start + 1,
            last_start == s.len() - pat.len(),
            1 <= pat.len() <= s.len(),
            forall|k2: int|
                0 <= k2 < k ==> #[trigger] s@.subrange(k2, k2 + pat@.len() as int) != pat@,
        decreases last_start + 1 - k,
    {
        if k > last_start {
            return false;
        }
        let mut m: usize = 0;
        let mut hit = true;
        while m < pat.len()
            invariant
                k <= last_start,
                last_start == s.len() - pat.len(),
                m <= pat.len(),
                hit ==> forall|m2: int| 0 <= m2 < m ==> s@[k + m2] == pat@[m2],
                !hit ==> s@.subrange(k as int, k + pat@.len() as int) != pat@,
            decreases pat.len() - m,
        {
            if s[k + m] != pat[m] {
                assert(s@.subrange(k as int, k + pat@.len() as int)[m as int] != pat@[m as int]);
                hit = false;
            }
            m = m + 1;
        }
        if hit {
            assert(s@.subrange(k as int, k + pat@.len() as int) =~= pat@);
            return true;
        }
        k = k + 1;
    }
}

/// Whether the two byte strings are equal, compared byte for byte.
pub fn bytes_eq(a: &Vec<u8>, b: &Vec<u8>) -> (r: bool)
    ensures
        r == (a@ == b@),
{
    if a.len() != b.len() {
        return false;
    }
    let mut k: usize = 0;
    while k < a.len()
        invariant
            k <= a.len(),
            a.len() == b.len(),
            forall|m: int| 0 <= m < k ==> a@[m] == b@[m],
        decreases a.len() - k,
    {
        if a[k] != b[k] {
            return false;
        }
        k = k + 1;
    }
    assert(a@ =~= b@);
    true
}

/// A fresh copy of the byte string.
pub fn clone_bytes(v: &Vec<u8>) -> (r: Vec<u8>)
    ensures
        r@ == v@,
{
    let mut r: Vec<u8> = Vec::new();
    let mut k: usize = 0;
    while k < v.len()
        invariant
            k <= v.len(),
            r@ == v@.subrange(0, k as int),
        decreases v.len() - k,
    {
        r.push(v[k]);
        assert(v@.subrange(0, k + 1 as int) =~= v@.subrange(0, k as int).push(v@[k as int]));
        k = k + 1;
    }
    assert(v@.subrange(0, v@.len() as int) =~= v@);
    r
}

/// The two byte strings joined, `a` before `b`.
pub fn concat_bytes(a: &Vec<u8>, b: &Vec<u8>) -> (r: Vec<u8>)
    ensures
        r@ == a@ + b@,
{
    let mut r: Vec<u8> = Vec::new();
    let mut k: usize = 0;
    while k < a.len()
        invariant
            k <= a.len(),
            r@ == a@.subrange(0, k as int),
        decreases a.len() - k,
    {
        r.push(a[k]);
        assert(a@.subrange(0, k + 1 as int) =~= a@.subrange(0, k as int).push(a@[k as int]));
        k = k + 1;
    }
    assert(a@.subrange(0, a@.len() as int) =~= a@);
    let mut k: usize = 0;
    while k < b.len()
        invariant
            k <= b.len(),
            r@ == a@ + b@.subrange(0, k as int),
        decreases b.len() - k,
    {
        r.push(b[k]);
        assert(a@ + b@.subrange(0, k + 1 as int) =~= (a@ + b@.subrange(0, k as int)).push(
            b@[k as int],
        ));
        k = k + 1;
    }
    assert(a@ + b@.subrange(0, b@.len() as int) =~= a@ + b@);
    r
}

} // verus!
