//! Byte-sequence scanning primitives: substring search, splitting on a
//! delimiter, suffix stripping.  Everything here is total and proved against
//! the spec-level functions `find_at`, `split_on` and `strip_suffix`.
use vstd::prelude::*;

verus! {

/// The pattern `pat` occurs in `s` starting at index `i`.
pub open spec fn occurs_at(s: Seq<u8>, pat: Seq<u8>, i: int) -> bool {
    &&& 0 <= i
    &&& i + pat.len() <= s.len()
    &&& forall|k: int| 0 <= k < pat.len() ==> #[trigger] pat[k] == s[i + k]
}

/// Index of the first occurrence of `pat` in `s` at or after `i`, if any.
pub open spec fn find_at(s: Seq<u8>, pat: Seq<u8>, i: int) -> Option<int>
    decreases s.len() - i,
{
    if i < 0 || i + pat.len() > s.len() {
        None
    } else if occurs_at(s, pat, i) {
        Some(i)
    } else {
        find_at(s, pat, i + 1)
    }
}

/// What `find_at` returns really is the first occurrence.
pub proof fn lemma_find_at_props(s: Seq<u8>, pat: Seq<u8>, i: int)
    requires
        0 <= i,
    ensures
        match find_at(s, pat, i) {
            Some(j) => i <= j && occurs_at(s, pat, j) && (forall|k: int|
                i <= k < j ==> !occurs_at(s, pat, k)),
            None => forall|k: int| k >= i ==> !occurs_at(s, pat, k),
        },
    decreases s.len() - i,
{
    if i < 0 || i + pat.len() > s.len() {
    } else if occurs_at(s, pat, i) {
    } else {
        lemma_find_at_props(s, pat, i + 1);
    }
}

/// An occurrence at `j` with none before it pins `find_at` down to `j`.
pub proof fn lemma_find_at_exact(s: Seq<u8>, pat: Seq<u8>, i: int, j: int)
    requires
        0 <= i <= j,
        occurs_at(s, pat, j),
        forall|k: int| i <= k < j ==> !occurs_at(s, pat, k),
    ensures
        find_at(s, pat, i) == Some(j),
    decreases j - i,
{
    if i < j {
        lemma_find_at_exact(s, pat, i + 1, j);
    }
}

/// No occurrence at or after `i` means `find_at` finds nothing.
pub proof fn lemma_find_at_none(s: Seq<u8>, pat: Seq<u8>, i: int)
    requires
        0 <= i,
        forall|k: int| k >= i ==> !occurs_at(s, pat, k),
    ensures
        find_at(s, pat, i) is None,
{
    lemma_find_at_props(s, pat, i);
}

/// `s` split on every occurrence of `delim`, scanning left to right; the
/// delimiter itself is dropped.  Splitting never fails: with no occurrence
/// the result is the single piece `s`.
pub open spec fn split_on(s: Seq<u8>, delim: Seq<u8>) -> Seq<Seq<u8>>
    decreases s.len(),
    via split_on_decreases
{
    if delim.len() == 0 {
        seq![s]
    } else {
        match find_at(s, delim, 0) {
            None => seq![s],
            Some(i) => seq![s.subrange(0, i)] + split_on(
                s.subrange(i + delim.len(), s.len() as int),
                delim,
            ),
        }
    }
}

#[via_fn]
proof fn split_on_decreases(s: Seq<u8>, delim: Seq<u8>) {
    if delim.len() > 0 {
        lemma_find_at_props(s, delim, 0);
    }
}

/// `s` with one trailing copy of `t` removed, if `s` ends with `t`.
pub open spec fn strip_suffix(s: Seq<u8>, t: Seq<u8>) -> Seq<u8> {
    if t.len() <= s.len() && occurs_at(s, t, s.len() - t.len()) {
        s.subrange(0, s.len() - t.len())
    } else {
        s
    }
}

/// Does `pat` occur in `s` at exactly position `i`?
pub(crate) fn match_at(s: &Vec<u8>, pat: &Vec<u8>, i: usize) -> (r: bool)
    requires
        i + pat@.len() <= s@.len(),
    ensures
        r == occurs_at(s@, pat@, i as int),
{
    let n = s.len();
    let mut k: usize = 0;
    while k < pat.len()
        invariant
            n == s@.len(),
            i + pat@.len() <= s@.len(),
            k <= pat@.len(),
            forall|m: int| 0 <= m < k ==> #[trigger] pat@[m] == s@[i + m],
        decreases pat@.len() - k,
    {
        if pat[k] != s[i + k] {
            assert(!occurs_at(s@, pat@, i as int));
            return false;
        }
        k = k + 1;
    }
    true
}

/// First occurrence of `pat` in `s` at or after `from`.
pub(crate) fn find_sub(s: &Vec<u8>, pat: &Vec<u8>, from: usize) -> (r: Option<usize>)
    requires
        from <= s@.len(),
    ensures
        (match r {
            Some(j) => find_at(s@, pat@, from as int) == Some(j as int),
            None => find_at(s@, pat@, from as int) is None,
        }),
{
    if pat.len() > s.len() {
        return None;
    }
    let n = s.len();
    let mut i: usize = from;
    while i <= n - pat.len()
        invariant
            n == s@.len(),
            pat@.len() <= s@.len(),
            from <= i,
            i <= s@.len(),
            find_at(s@, pat@, from as int) == find_at(s@, pat@, i as int),
        decreases s@.len() - i,
    {
        if match_at(s, pat, i) {
            return Some(i);
        }
        i = i + 1;
    }
    None
}

/// Bytes of `s` from `a` (inclusive) to `b` (exclusive), as a fresh vector.
pub(crate) fn subvec(s: &Vec<u8>, a: usize, b: usize) -> (r: Vec<u8>)
    requires
        a <= b,
        b <= s@.len(),
    ensures
        r@ == s@.subrange(a as int, b as int),
{
    let mut r: Vec<u8> = Vec::new();
    let mut j: usize = a;
    while j < b
        invariant
            a <= j <= b,
            b <= s@.len(),
            r@ == s@.subrange(a as int, j as int),
        decreases b - j,
    {
        r.push(s[j]);
        assert(s@.subrange(a as int, j + 1 as int) =~= s@.subrange(a as int, j as int).push(
            s@[j as int],
        ));
        j = j + 1;
    }
    r
}

/// Appends every byte of `src` to `dst`.
pub(crate) fn append_bytes(dst: &mut Vec<u8>, src: &Vec<u8>)
    ensures
        final(dst)@ == old(dst)@ + src@,
{
    let mut j: usize = 0;
    while j < src.len()
        invariant
            j <= src@.len(),
            dst@ == old(dst)@ + src@.subrange(0, j as int),
        decreases src@.len() - j,
    {
        dst.push(src[j]);
        assert(old(dst)@ + src@.subrange(0, j + 1 as int) =~= (old(dst)@ + src@.subrange(
            0,
            j as int,
        )).push(src@[j as int]));
        j = j + 1;
    }
    assert(src@.subrange(0, src@.len() as int) =~= src@);
}

/// Splits `s` on every occurrence of `delim`, left to right.
pub(crate) fn split_on_exec(s: &Vec<u8>, delim: &Vec<u8>) -> (r: Vec<Vec<u8>>)
    requires
        delim@.len() > 0,
    ensures
        r@.map_values(|p: Vec<u8>| p@) == split_on(s@, delim@),
{
    let n = s.len();
    let mut r: Vec<Vec<u8>> = Vec::new();
    let mut pos: usize = 0;
    proof {
        assert(s@.subrange(0, s@.len() as int) =~= s@);
        assert(r@.map_values(|p: Vec<u8>| p@) + split_on(s@, delim@) =~= split_on(s@, delim@));
    }
    loop
        invariant
            n == s@.len(),
            delim@.len() > 0,
            pos <= s@.len(),
            split_on(s@, delim@) == r@.map_values(|p: Vec<u8>| p@) + split_on(
                s@.subrange(pos as int, s@.len() as int),
                delim@,
            ),
        decreases s@.len() - pos,
    {
        let ghost rest = s@.subrange(pos as int, s@.len() as int);
        let ghost prevmap = r@.map_values(|p: Vec<u8>| p@);
        match find_sub(s, delim, pos) {
            Some(j) => {
                proof {
                    lemma_find_at_props(s@, delim@, pos as int);
                    lemma_shift_find(s@, delim@, pos as int);
                    assert(rest.subrange(0, j - pos) =~= s@.subrange(pos as int, j as int));
                    assert(rest.subrange(j - pos + delim@.len(), rest.len() as int) =~= s@.subrange(
                        j + delim@.len(),
                        s@.len() as int,
                    ));
                }
                let piece = subvec(s, pos, j);
                r.push(piece);
                proof {
                    let sub = s@.subrange(pos as int, j as int);
                    let tail = split_on(s@.subrange(j + delim@.len(), s@.len() as int), delim@);
                    assert(r@.map_values(|p: Vec<u8>| p@) =~= prevmap.push(sub));
                    assert(split_on(rest, delim@) == seq![sub] + tail);
                    assert(prevmap + (seq![sub] + tail) =~= prevmap.push(sub) + tail);
                }
                pos = j + delim.len();
            },
            None => {
                proof {
                    lemma_shift_find(s@, delim@, pos as int);
                    assert(split_on(rest, delim@) == seq![rest]);
                }
                let piece = subvec(s, pos, n);
                r.push(piece);
                proof {
                    assert(r@.map_values(|p: Vec<u8>| p@) =~= prevmap.push(rest));
                    assert(prevmap + seq![rest] =~= prevmap.push(rest));
                }
                return r;
            },
        }
    }
}

/// Searching `s` from `i` is searching the suffix `s[i..]` from its start.
pub proof fn lemma_shift_find(s: Seq<u8>, pat: Seq<u8>, i: int)
    requires
        0 <= i <= s.len(),
    ensures
        match find_at(s, pat, i) {
            Some(j) => find_at(s.subrange(i, s.len() as int), pat, 0) == Some(j - i),
            None => find_at(s.subrange(i, s.len() as int), pat, 0) is None,
        },
{
    let suf = s.subrange(i, s.len() as int);
    assert forall|p: int| 0 <= p implies occurs_at(suf, pat, p) == occurs_at(s, pat, i + p) by {
        if occurs_at(suf, pat, p) {
            assert forall|k: int| 0 <= k < pat.len() implies #[trigger] pat[k] == s[i + p + k] by {
                assert(pat[k] == suf[p + k]);
            }
        }
        if occurs_at(s, pat, i + p) {
            assert forall|k: int| 0 <= k < pat.len() implies #[trigger] pat[k] == suf[p + k] by {
                assert(pat[k] == s[i + p + k]);
            }
        }
    }
    lemma_find_at_props(s, pat, i);
    lemma_find_at_props(suf, pat, 0);
    match find_at(s, pat, i) {
        Some(j) => {
            assert(occurs_at(suf, pat, j - i));
            assert(forall|k: int| 0 <= k < j - i ==> !occurs_at(suf, pat, k));
            lemma_find_at_exact(suf, pat, 0, j - i);
        },
        None => {
            assert(forall|k: int| k >= 0 ==> !occurs_at(suf, pat, k));
            lemma_find_at_none(suf, pat, 0);
        },
    }
}

/// Strips one trailing copy of `t` from `s`, if present.
pub(crate) fn strip_suffix_exec(s: &Vec<u8>, t: &Vec<u8>) -> (r: Vec<u8>)
    ensures
        r@ == strip_suffix(s@, t@),
{
    if t.len() <= s.len() && match_at(s, t, s.len() - t.len()) {
        subvec(s, 0, s.len() - t.len())
    } else {
        let mut r: Vec<u8> = Vec::new();
        append_bytes(&mut r, s);
        assert(r@ =~= s@);
        r
    }
}

} // verus!
