//! Case-insensitive substring search (for highlighting matches in names) and
//! subsequence matching (for command completion).
use crate::text::{chars_of, occurs_at};
use vstd::prelude::*;

verus! {

/// Lower-case form of `c` for ASCII letters; other characters unchanged.
pub open spec fn ascii_lower(c: char) -> char {
    if 'A' <= c && c <= 'Z' {
        ((c as u32) + 32) as char
    } else {
        c
    }
}

/// All characters of `s` are ASCII.
pub open spec fn all_ascii(s: Seq<char>) -> bool {
    forall|i: int| 0 <= i < s.len() ==> (#[trigger] s[i] as u32) < 128
}

/// `needle` occurs in `hay` at `i`, ignoring ASCII case.
pub open spec fn occurs_at_ci(hay: Seq<char>, needle: Seq<char>, i: int) -> bool {
    0 <= i && i + needle.len() <= hay.len() && forall|j: int| 0 <= j < needle.len() ==> ascii_lower(#[trigger] hay[i + j]) == ascii_lower(needle[j])
}

/// First position at or after `i` where `needle` occurs in `hay` (ignoring
/// ASCII case when `ci`).
pub open spec fn first_from(hay: Seq<char>, needle: Seq<char>, i: int, ci: bool) -> Option<int>
    decreases hay.len() + 1 - i,
{
    if i < 0 || i + needle.len() > hay.len() {
        None
    } else if (if ci {
        occurs_at_ci(hay, needle, i)
    } else {
        occurs_at(hay, needle, i)
    }) {
        Some(i)
    } else {
        first_from(hay, needle, i + 1, ci)
    }
}

/// Name for what `str::to_lowercase` gives for a text (Unicode lower-case
/// mapping, which may change the number of characters).
pub uninterp spec fn unicode_lowercase(s: Seq<char>) -> Seq<char>;

/// Wraps `str::to_lowercase`.
#[verifier::external_body]
pub(crate) fn to_lowercase(s: &str) -> (r: String)
    ensures
        r@ == unicode_lowercase(s@),
{
    s.to_lowercase()
}

/// Character positions `start .. start + len`.
pub open spec fn index_range(start: int, len: int) -> Seq<usize> {
    Seq::new(len as nat, |k: int| (start + k) as usize)
}

/// Positions of the first match of `query` in `target`: ignoring ASCII case
/// when both are ASCII, otherwise in the Unicode lower-case forms of both
/// (positions counted in the lower-case target). No match for an empty query.
pub open spec fn match_positions(query: Seq<char>, target: Seq<char>) -> Option<Seq<usize>> {
    if query.len() == 0 {
        None
    } else if all_ascii(query) && all_ascii(target) {
        match first_from(target, query, 0, true) {
            Some(s) => Some(index_range(s, query.len() as int)),
            None => None,
        }
    } else {
        let t = unicode_lowercase(target);
        let q = unicode_lowercase(query);
        match first_from(t, q, 0, false) {
            Some(s) => Some(index_range(s, q.len() as int)),
            None => None,
        }
    }
}

pub(crate) fn lower_exec(c: char) -> (r: char)
    ensures
        r == ascii_lower(c),
{
    if 'A' <= c && c <= 'Z' {
        ((c as u8) + 32) as char
    } else {
        c
    }
}

fn is_ascii_chars(s: &[char]) -> (b: bool)
    ensures
        b == all_ascii(s@),
{
    let mut i: usize = 0;
    while i < s.len()
        invariant
            i <= s@.len(),
            forall|j: int| 0 <= j < i ==> (#[trigger] s@[j] as u32) < 128,
        decreases s@.len() - i,
    {
        if (s[i] as u32) >= 128 {
            return false;
        }
        i = i + 1;
    }
    true
}

fn occurs_here(hay: &[char], needle: &[char], i: usize, ci: bool) -> (b: bool)
    requires
        i + needle@.len() <= hay@.len(),
    ensures
        b == (if ci {
            occurs_at_ci(hay@, needle@, i as int)
        } else {
            occurs_at(hay@, needle@, i as int)
        }),
{
    if !ci {
        return crate::text::occurs_at_exec(hay, needle, i);
    }
    let n = needle.len();
    let h = hay.len();
    let mut j: usize = 0;
    while j < n
        invariant
            n == needle@.len(),
            h == hay@.len(),
            i + n <= h,
            j <= n,
            forall|k: int| 0 <= k < j ==> ascii_lower(#[trigger] hay@[i + k]) == ascii_lower(needle@[k]),
        decreases n - j,
    {
        if lower_exec(hay[i + j]) != lower_exec(needle[j]) {
            return false;
        }
        j = j + 1;
    }
    true
}

fn first_match(hay: &[char], needle: &[char], ci: bool) -> (r: Option<usize>)
    ensures
        r matches Some(s) ==> first_from(hay@, needle@, 0, ci) == Some(s as int),
        r is None ==> first_from(hay@, needle@, 0, ci) is None,
{
    if needle.len() > hay.len() {
        return None;
    }
    let last = hay.len() - needle.len();
    let mut i: usize = 0;
    loop
        invariant
            last == hay@.len() - needle@.len(),
            i <= last,
            first_from(hay@, needle@, 0, ci) == first_from(hay@, needle@, i as int, ci),
        decreases last - i,
    {
        if occurs_here(hay, needle, i, ci) {
            return Some(i);
        }
        if i == last {
            return None;
        }
        i = i + 1;
    }
}

fn positions(start: usize, len: usize) -> (v: Vec<usize>)
    requires
        start + len <= usize::MAX,
    ensures
        v@ == index_range(start as int, len as int),
{
    let mut v: Vec<usize> = Vec::new();
    let mut k: usize = 0;
    while k < len
        invariant
            k <= len,
            start + len <= usize::MAX,
            v@ == index_range(start as int, k as int),
        decreases len - k,
    {
        v.push(start + k);
        proof {
            assert(v@ =~= index_range(start as int, (k + 1) as int));
        }
        k = k + 1;
    }
    v
}

/// Case-insensitive substring match returning the character positions of
/// the first match, for highlighting.
pub fn fuzzy_match_indices(query: &str, target: &str) -> (r: Option<Vec<usize>>)
    ensures
        match r {
            Some(v) => match_positions(query@, target@) == Some(v@),
            None => match_positions(query@, target@) is None,
        },
{
    let q = chars_of(query);
    if q.len() == 0 {
        return None;
    }
    let t = chars_of(target);
    let _tn = t.len();
    if is_ascii_chars(q.as_slice()) && is_ascii_chars(t.as_slice()) {
        match first_match(t.as_slice(), q.as_slice(), true) {
            Some(s) => {
                proof {
                    lemma_first_from_fits(t@, q@, 0, true);
                }
                Some(positions(s, q.len()))
            },
            None => None,
        }
    } else {
        let tl = to_lowercase(target);
        let ql = to_lowercase(query);
        let tc = chars_of(tl.as_str());
        let qc = chars_of(ql.as_str());
        let _tcn = tc.len();
        match first_match(tc.as_slice(), qc.as_slice(), false) {
            Some(s) => {
                proof {
                    lemma_first_from_fits(tc@, qc@, 0, false);
                }
                Some(positions(s, qc.len()))
            },
            None => None,
        }
    }
}

proof fn lemma_first_from_fits(hay: Seq<char>, needle: Seq<char>, i: int, ci: bool)
    ensures
        first_from(hay, needle, i, ci) matches Some(s) ==> i <= s && s + needle.len() <= hay.len(),
    decreases hay.len() + 1 - i,
{
    if !(i < 0 || i + needle.len() > hay.len()) {
        lemma_first_from_fits(hay, needle, i + 1, ci);
    }
}

/// `query` is a subsequence of `target`.
pub open spec fn is_subsequence(query: Seq<char>, target: Seq<char>) -> bool
    decreases target.len(),
{
    if query.len() == 0 {
        true
    } else if target.len() == 0 {
        false
    } else if query[0] == target[0] {
        is_subsequence(query.drop_first(), target.drop_first())
    } else {
        is_subsequence(query, target.drop_first())
    }
}

/// `idx` picks, in increasing order, positions of `target` that hold the
/// characters of `query` one by one.
pub open spec fn picks_in_order(query: Seq<char>, target: Seq<char>, idx: Seq<int>) -> bool {
    &&& idx.len() == query.len()
    &&& forall|i: int| 0 <= i < idx.len() ==> 0 <= #[trigger] idx[i] < target.len() && target[idx[i]] == query[i]
    &&& forall|i: int, j: int| 0 <= i < j < idx.len() ==> #[trigger] idx[i] < #[trigger] idx[j]
}

proof fn lemma_subsequence_picks(query: Seq<char>, target: Seq<char>)
    requires
        is_subsequence(query, target),
    ensures
        exists|idx: Seq<int>| picks_in_order(query, target, idx),
    decreases target.len(),
{
    if query.len() == 0 {
        assert(picks_in_order(query, target, Seq::<int>::empty()));
    } else if query[0] == target[0] {
        lemma_subsequence_picks(query.drop_first(), target.drop_first());
        let rest = choose|idx: Seq<int>| picks_in_order(query.drop_first(), target.drop_first(), idx);
        let idx = seq![0int] + Seq::new(rest.len(), |i: int| rest[i] + 1);
        assert forall|i: int| 0 <= i < idx.len() implies 0 <= #[trigger] idx[i] < target.len() && target[idx[i]] == query[i] by {
            if i > 0 {
                assert(idx[i] == rest[i - 1] + 1);
                assert(target.drop_first()[rest[i - 1]] == query.drop_first()[i - 1]);
            }
        }
        assert forall|i: int, j: int| 0 <= i < j < idx.len() implies #[trigger] idx[i] < #[trigger] idx[j] by {
            if i > 0 {
                assert(rest[i - 1] < rest[j - 1]);
            } else {
                assert(rest[j - 1] >= 0);
            }
        }
        assert(picks_in_order(query, target, idx));
    } else {
        lemma_subsequence_picks(query, target.drop_first());
        let rest = choose|idx: Seq<int>| picks_in_order(query, target.drop_first(), idx);
        let idx = Seq::new(rest.len(), |i: int| rest[i] + 1);
        assert forall|i: int| 0 <= i < idx.len() implies 0 <= #[trigger] idx[i] < target.len() && target[idx[i]] == query[i] by {
            assert(target.drop_first()[rest[i]] == query[i]);
        }
        assert forall|i: int, j: int| 0 <= i < j < idx.len() implies #[trigger] idx[i] < #[trigger] idx[j] by {
            assert(rest[i] < rest[j]);
        }
        assert(picks_in_order(query, target, idx));
    }
}

proof fn lemma_picks_subsequence(query: Seq<char>, target: Seq<char>, idx: Seq<int>)
    requires
        picks_in_order(query, target, idx),
    ensures
        is_subsequence(query, target),
    decreases target.len(),
{
    if query.len() == 0 {
    } else if target.len() == 0 {
        assert(0 <= idx[0] < target.len());
    } else {
        assert forall|i: int| 0 <= i < idx.len() implies #[trigger] idx[i] >= idx[0] by {
            if i > 0 {
                assert(idx[0] < idx[i]);
            }
        }
        if query[0] == target[0] {
            let rest = Seq::new((idx.len() - 1) as nat, |i: int| idx[i + 1] - 1);
            assert forall|i: int| 0 <= i < rest.len() implies 0 <= #[trigger] rest[i] < target.drop_first().len()
                && target.drop_first()[rest[i]] == query.drop_first()[i] by {
                assert(idx[0] < idx[i + 1]);
                assert(idx[0] >= 0);
            }
            assert forall|i: int, j: int| 0 <= i < j < rest.len() implies #[trigger] rest[i] < #[trigger] rest[j] by {
                assert(idx[i + 1] < idx[j + 1]);
            }
            lemma_picks_subsequence(query.drop_first(), target.drop_first(), rest);
        } else {
            assert(idx[0] != 0);
            let rest = Seq::new(idx.len(), |i: int| idx[i] - 1);
            assert forall|i: int| 0 <= i < rest.len() implies 0 <= #[trigger] rest[i] < target.drop_first().len()
                && target.drop_first()[rest[i]] == query[i] by {
                assert(idx[i] >= idx[0]);
            }
            assert forall|i: int, j: int| 0 <= i < j < rest.len() implies #[trigger] rest[i] < #[trigger] rest[j] by {
                assert(idx[i] < idx[j]);
            }
            lemma_picks_subsequence(query, target.drop_first(), rest);
        }
    }
}

/// Fuzzy matching: `query` matches `target` exactly when the characters
/// of `query` occur in `target` in the same order, not necessarily next to
/// each other (so a query made by deleting characters of the target
/// matches, and "sn" matches "scan"). `fuzzy_match` returns exactly this.
pub proof fn law_fuzzy_match_in_order(query: Seq<char>, target: Seq<char>)
    ensures
        is_subsequence(query, target) <==> exists|idx: Seq<int>| picks_in_order(query, target, idx),
{
    if is_subsequence(query, target) {
        lemma_subsequence_picks(query, target);
    }
    if exists|idx: Seq<int>| picks_in_order(query, target, idx) {
        let idx = choose|idx: Seq<int>| picks_in_order(query, target, idx);
        lemma_picks_subsequence(query, target, idx);
    }
}

/// Deleting characters of a text leaves a query that fuzzy-matches it:
/// keeping the characters at increasing positions `kept`.
pub proof fn law_fuzzy_match_deletions(target: Seq<char>, kept: Seq<int>)
    requires
        forall|i: int| 0 <= i < kept.len() ==> 0 <= #[trigger] kept[i] < target.len(),
        forall|i: int, j: int| 0 <= i < j < kept.len() ==> #[trigger] kept[i] < #[trigger] kept[j],
    ensures
        is_subsequence(Seq::new(kept.len(), |i: int| target[kept[i]]), target),
{
    let q = Seq::new(kept.len(), |i: int| target[kept[i]]);
    assert(picks_in_order(q, target, kept));
    lemma_picks_subsequence(q, target, kept);
}

/// Whether the characters of `query` appear in `target` in order (not
/// necessarily adjacent), for filtering completions.
pub fn fuzzy_match(query: &str, target: &str) -> (b: bool)
    ensures
        b == is_subsequence(query@, target@),
{
    let q = chars_of(query);
    let t = chars_of(target);
    let mut qi: usize = 0;
    let mut ti: usize = 0;
    proof {
        assert(q@.subrange(0, q@.len() as int) =~= q@);
        assert(t@.subrange(0, t@.len() as int) =~= t@);
    }
    while qi < q.len()
        invariant
            qi <= q@.len(),
            ti <= t@.len(),
            is_subsequence(query@, target@) == is_subsequence(q@.subrange(qi as int, q@.len() as int), t@.subrange(ti as int, t@.len() as int)),
        decreases q@.len() - qi, t@.len() - ti,
    {
        let ghost qs = q@.subrange(qi as int, q@.len() as int);
        let ghost ts = t@.subrange(ti as int, t@.len() as int);
        if ti == t.len() {
            return false;
        }
        proof {
            assert(qs[0] == q@[qi as int]);
            assert(ts[0] == t@[ti as int]);
            assert(ts.drop_first() =~= t@.subrange(ti + 1, t@.len() as int));
            assert(qs.drop_first() =~= q@.subrange(qi + 1, q@.len() as int));
        }
        if q[qi] == t[ti] {
            qi = qi + 1;
        }
        ti = ti + 1;
    }
    proof {
        assert(q@.subrange(qi as int, q@.len() as int).len() == 0);
    }
    true
}

} // verus!
