//! The change-detail popup of a directory: one row per change of a direct
//! child, and one row per child summing the changes deeper below it,
//! newest first.
use crate::browse::lex_lt;
use crate::delta_cache::{key_view, magnitude_total, relative_components, relative_to};
use crate::format::{delta_text, format_delta};
use crate::ui::{DeltaDetailRow, DeltaDetailState, DeltaEntry};
use vstd::prelude::*;

verus! {

/// Components of a change's path below `path` (none when it is not below).
pub open spec fn below(e: DeltaEntry, path: Seq<char>) -> Seq<Seq<char>> {
    match relative_to(e.path@, path) {
        Some(r) => r,
        None => Seq::empty(),
    }
}

/// The change is for a direct child of `path`.
pub open spec fn is_direct(e: DeltaEntry, path: Seq<char>) -> bool {
    below(e, path).len() == 1
}

/// The change is deeper below a child of `path`.
pub open spec fn is_deeper(e: DeltaEntry, path: Seq<char>) -> bool {
    below(e, path).len() >= 2
}

/// The child of `path` a change belongs to.
pub open spec fn child_of(e: DeltaEntry, path: Seq<char>) -> Seq<char> {
    below(e, path)[0]
}

/// Changes of direct children, in order: child, change, time.
pub open spec fn direct_items(es: Seq<DeltaEntry>, path: Seq<char>) -> Seq<(Seq<char>, i64, u64)>
    decreases es.len(),
{
    if es.len() == 0 {
        Seq::empty()
    } else {
        direct_items(es.drop_last(), path) + if is_direct(es.last(), path) {
            seq![(child_of(es.last(), path), es.last().delta_size, es.last().timestamp)]
        } else {
            Seq::<(Seq<char>, i64, u64)>::empty()
        }
    }
}

/// Children with deeper changes, in order of their first change.
pub open spec fn deeper_children(es: Seq<DeltaEntry>, path: Seq<char>) -> Seq<Seq<char>>
    decreases es.len(),
{
    if es.len() == 0 {
        Seq::empty()
    } else {
        let prev = deeper_children(es.drop_last(), path);
        if is_deeper(es.last(), path) && !prev.contains(child_of(es.last(), path)) {
            prev.push(child_of(es.last(), path))
        } else {
            prev
        }
    }
}

/// Sum of the deeper changes below child `c`.
pub open spec fn deeper_sum(es: Seq<DeltaEntry>, path: Seq<char>, c: Seq<char>) -> int
    decreases es.len(),
{
    if es.len() == 0 {
        0
    } else {
        deeper_sum(es.drop_last(), path, c) + if is_deeper(es.last(), path) && child_of(es.last(), path) == c {
            es.last().delta_size as int
        } else {
            0
        }
    }
}

/// Time of the latest deeper change below child `c` (0 when none).
pub open spec fn deeper_latest(es: Seq<DeltaEntry>, path: Seq<char>, c: Seq<char>) -> u64
    decreases es.len(),
{
    if es.len() == 0 {
        0
    } else {
        let prev = deeper_latest(es.drop_last(), path, c);
        if is_deeper(es.last(), path) && child_of(es.last(), path) == c && es.last().timestamp > prev {
            es.last().timestamp
        } else {
            prev
        }
    }
}

/// What a row shows besides its time: child, change, formatted change,
/// and whether it sums deeper changes.
pub open spec fn row_view(r: DeltaDetailRow) -> (Seq<char>, i64, Seq<char>, bool) {
    (r.child_name@, r.delta_size, r.delta_display@, r.is_aggregated)
}

/// The rows a detail view holds (times aside): the direct changes, then
/// one row per child with deeper changes.
pub open spec fn detail_rows(es: Seq<DeltaEntry>, path: Seq<char>) -> Seq<(Seq<char>, i64, Seq<char>, bool)> {
    direct_items(es, path).map_values(|t: (Seq<char>, i64, u64)| (t.0, t.1, delta_text(t.1), false)) + deeper_children(
        es,
        path,
    ).map_values(
        |c: Seq<char>|
            (c, deeper_sum(es, path, c) as i64, delta_text(deeper_sum(es, path, c) as i64), true),
    )
}

/// Row `a` is listed strictly before row `b`: later time first, then by
/// child name.
pub open spec fn row_lt(a: DeltaDetailRow, b: DeltaDetailRow) -> bool {
    lex_lt(b.timestamp@, a.timestamp@) || (a.timestamp@ == b.timestamp@ && lex_lt(a.child_name@, b.child_name@))
}

/// The rows are newest first, then by child name.
pub open spec fn rows_in_order(rows: Seq<DeltaDetailRow>) -> bool {
    forall|i: int, j: int| 0 <= i < j < rows.len() ==> !row_lt(#[trigger] rows[j], #[trigger] rows[i])
}

/// A text shaped like "2024-05-01 13:45:09": four digits, '-', two
/// digits, '-', two digits, ' ', two digits, ':', two digits, ':', two
/// digits.
pub open spec fn timestamp_shape(s: Seq<char>) -> bool {
    &&& s.len() == 19
    &&& s[4] == '-' && s[7] == '-' && s[10] == ' ' && s[13] == ':' && s[16] == ':'
    &&& forall|i: int|
        0 <= i < 19 && i != 4 && i != 7 && i != 10 && i != 13 && i != 16 ==> '0' <= #[trigger] s[i] <= '9'
}

/// Wraps `chrono::DateTime::from_timestamp`, then `with_timezone(&chrono::Local)`
/// and `format("%Y-%m-%d %H:%M:%S")`: the local date and time of an instant
/// (seconds and nanoseconds since the Unix epoch), or `None` when chrono
/// cannot represent the instant. Stated: `None` past chrono's last
/// representable day (year 262142, well before 10^13 seconds); for an
/// instant from the epoch up to the last day of year 9999 (so that the
/// local year, shifted by less than a day, has four digits) a text with the
/// shape of `timestamp_shape`, each field zero-padded as chrono documents.
/// Which date and time it shows depends on the machine's time zone and is
/// not stated; chrono panics when it cannot read the time-zone data, which
/// no argument can rule out.
#[verifier::external_body]
fn local_time_text(secs: i64, nanos: u32) -> (r: Option<String>)
    ensures
        secs > 10_000_000_000_000 ==> r is None,
        0 <= secs < 253_402_214_400 && nanos < 1_000_000_000 ==> r is Some,
        r matches Some(t) ==> (0 <= secs < 253_402_214_400 && nanos < 1_000_000_000 ==> timestamp_shape(t@)),
{
    match chrono::DateTime::from_timestamp(secs, nanos) {
        Some(dt) => Some(dt.with_timezone(&chrono::Local).format("%Y-%m-%d %H:%M:%S").to_string()),
        None => None,
    }
}

/// Local date and time of an instant given in milliseconds: shaped like
/// "2024-05-01 13:45:09" up to the end of year 9999, empty past the
/// instants chrono can represent.
fn format_timestamp(ts_ms: u64) -> (r: String)
    ensures
        ts_ms / 1000 > 10_000_000_000_000 ==> r@.len() == 0,
        ts_ms < 253_402_214_400_000 ==> timestamp_shape(r@),
{
    match local_time_text((ts_ms / 1000) as i64, ((ts_ms % 1000) * 1_000_000) as u32) {
        Some(t) => t,
        None => String::new(),
    }
}

proof fn lemma_deeper_children_distinct(es: Seq<DeltaEntry>, path: Seq<char>)
    ensures
        deeper_children(es, path).no_duplicates(),
    decreases es.len(),
{
    if es.len() > 0 {
        lemma_deeper_children_distinct(es.drop_last(), path);
    }
}

proof fn lemma_deeper_absent(es: Seq<DeltaEntry>, path: Seq<char>, c: Seq<char>)
    requires
        !deeper_children(es, path).contains(c),
    ensures
        deeper_sum(es, path, c) == 0,
        deeper_latest(es, path, c) == 0,
    decreases es.len(),
{
    if es.len() > 0 {
        let prev = deeper_children(es.drop_last(), path);
        if is_deeper(es.last(), path) && !prev.contains(child_of(es.last(), path)) {
            assert(deeper_children(es, path).last() == child_of(es.last(), path));
            assert(deeper_children(es, path).contains(child_of(es.last(), path)));
        }
        if prev.contains(c) {
            let w = choose|w: int| 0 <= w < prev.len() && prev[w] == c;
            assert(deeper_children(es, path)[w] == c);
        }
        lemma_deeper_absent(es.drop_last(), path, c);
    }
}

proof fn lemma_deeper_sum_bound(es: Seq<DeltaEntry>, path: Seq<char>, c: Seq<char>)
    ensures
        -magnitude_total(es) <= deeper_sum(es, path, c) <= magnitude_total(es),
    decreases es.len(),
{
    if es.len() > 0 {
        lemma_deeper_sum_bound(es.drop_last(), path, c);
    }
}

/// Row `a` may be listed before row `b`.
pub open spec fn row_le(a: DeltaDetailRow, b: DeltaDetailRow) -> bool {
    !row_lt(b, a)
}

proof fn lemma_lex_three(x: Seq<char>, y: Seq<char>, z: Seq<char>)
    ensures
        lex_lt(x, y) && lex_lt(y, z) ==> lex_lt(x, z),
        lex_lt(x, z) && lex_lt(z, y) ==> lex_lt(x, y),
        lex_lt(y, x) && lex_lt(x, z) ==> lex_lt(y, z),
        lex_lt(y, z) && lex_lt(z, x) ==> lex_lt(y, x),
        lex_lt(z, x) && lex_lt(x, y) ==> lex_lt(z, y),
        lex_lt(z, y) && lex_lt(y, x) ==> lex_lt(z, x),
        !(lex_lt(x, y) && lex_lt(y, x)),
        x == y || lex_lt(x, y) || lex_lt(y, x),
        !(lex_lt(y, z) && lex_lt(z, y)),
        y == z || lex_lt(y, z) || lex_lt(z, y),
        !(lex_lt(x, z) && lex_lt(z, x)),
        x == z || lex_lt(x, z) || lex_lt(z, x),
{
    crate::browse::lemma_lex_total(x, y);
    crate::browse::lemma_lex_total(y, z);
    crate::browse::lemma_lex_total(x, z);
    if lex_lt(x, y) && lex_lt(y, z) {
        crate::browse::lemma_lex_trans(x, y, z);
    }
    if lex_lt(x, z) && lex_lt(z, y) {
        crate::browse::lemma_lex_trans(x, z, y);
    }
    if lex_lt(y, x) && lex_lt(x, z) {
        crate::browse::lemma_lex_trans(y, x, z);
    }
    if lex_lt(y, z) && lex_lt(z, x) {
        crate::browse::lemma_lex_trans(y, z, x);
    }
    if lex_lt(z, x) && lex_lt(x, y) {
        crate::browse::lemma_lex_trans(z, x, y);
    }
    if lex_lt(z, y) && lex_lt(y, x) {
        crate::browse::lemma_lex_trans(z, y, x);
    }
}

proof fn lemma_row_order(a: DeltaDetailRow, b: DeltaDetailRow, c: DeltaDetailRow)
    ensures
        row_lt(a, b) ==> row_le(a, b),
        !row_lt(a, b) ==> row_le(b, a),
        row_le(a, b) && row_le(b, c) ==> row_le(a, c),
{
    lemma_lex_three(a.timestamp@, b.timestamp@, c.timestamp@);
    lemma_lex_three(a.child_name@, b.child_name@, c.child_name@);
}

/// Row `a` is listed strictly before row `b`.
fn row_before(a: &DeltaDetailRow, b: &DeltaDetailRow) -> (r: bool)
    ensures
        r == row_lt(*a, *b),
{
    let ta = crate::text::chars_of(a.timestamp.as_str());
    let tb = crate::text::chars_of(b.timestamp.as_str());
    if crate::browse::chars_lt(tb.as_slice(), ta.as_slice()) {
        return true;
    }
    if !crate::text::chars_eq(ta.as_slice(), tb.as_slice()) {
        return false;
    }
    let na = crate::text::chars_of(a.child_name.as_str());
    let nb = crate::text::chars_of(b.child_name.as_str());
    crate::browse::chars_lt(na.as_slice(), nb.as_slice())
}

/// Orders rows newest first, then by child name.
fn sort_rows(rows: &mut Vec<DeltaDetailRow>)
    ensures
        rows_in_order(final(rows)@),
        final(rows)@.map_values(|r: DeltaDetailRow| row_view(r)).to_multiset() == old(rows)@.map_values(
            |r: DeltaDetailRow| row_view(r),
        ).to_multiset(),
{
    let ghost orig = rows@;
    let ghost f = |r: DeltaDetailRow| row_view(r);
    let mut rest: Vec<DeltaDetailRow> = Vec::new();
    std::mem::swap(&mut rest, rows);
    let mut out: Vec<DeltaDetailRow> = Vec::new();
    let ghost mut k: int = 0;
    proof {
        assert(orig.subrange(0, orig.len() as int) =~= orig);
        assert(orig.take(0).map_values(f) =~= Seq::<(Seq<char>, i64, Seq<char>, bool)>::empty());
        assert(out@.map_values(f) =~= Seq::<(Seq<char>, i64, Seq<char>, bool)>::empty());
    }
    while rest.len() > 0
        invariant
            0 <= k <= orig.len(),
            f == (|r: DeltaDetailRow| row_view(r)),
            rest@ == orig.subrange(k, orig.len() as int),
            out@.map_values(f).to_multiset() == orig.take(k).map_values(f).to_multiset(),
            rows_in_order(out@),
        decreases rest@.len(),
    {
        proof {
            assert(rest@.remove(0) =~= orig.subrange(k + 1, orig.len() as int));
        }
        let e = rest.remove(0);
        let mut p: usize = 0;
        while p < out.len() && !row_before(&e, &out[p])
            invariant
                p <= out@.len(),
                forall|i: int| 0 <= i < p ==> row_le(#[trigger] out@[i], e),
            decreases out@.len() - p,
        {
            proof {
                lemma_row_order(e, out@[p as int], e);
            }
            p = p + 1;
        }
        let ghost before = out@;
        proof {
            if p < out@.len() {
                assert(row_lt(e, out@[p as int]));
            }
        }
        out.insert(p, e);
        proof {
            assert(out@ == before.insert(p as int, e));
            before.insert_ensures(p as int, e);
            assert forall|i: int, j: int| 0 <= i < j < out@.len() implies !row_lt(#[trigger] out@[j], #[trigger] out@[i]) by {
                if j < p {
                    assert(out@[i] == before[i] && out@[j] == before[j]);
                } else if i < p && j == p {
                } else if i < p && j > p {
                    assert(out@[j] == before[j - 1]);
                    assert(row_le(before[i], before[j - 1]));
                } else if i == p {
                    assert(out@[j] == before[j - 1]);
                    lemma_row_order(e, before[p as int], before[j - 1]);
                    if j - 1 > p {
                        assert(row_le(before[p as int], before[j - 1]));
                    }
                } else {
                    assert(out@[i] == before[i - 1]);
                    assert(out@[j] == before[j - 1]);
                }
            }
            assert(out@.map_values(f) =~= before.map_values(f).insert(p as int, f(e)));
            vstd::seq_lib::to_multiset_insert(before.map_values(f), p as int, f(e));
            let t = orig.take(k + 1);
            assert(t.map_values(f) =~= orig.take(k).map_values(f).push(f(orig[k])));
            vstd::seq_lib::to_multiset_build(orig.take(k).map_values(f), f(orig[k]));
            k = k + 1;
        }
    }
    proof {
        assert(orig.take(orig.len() as int) =~= orig);
    }
    *rows = out;
}

/// The detail view of the changes below `path`: a row per change of a
/// direct child, and a row per child summing the changes deeper below it
/// (at the time of the latest of them); rows newest first, then by child.
pub fn build_detail_state(path: &str, entries: &[DeltaEntry]) -> (state: DeltaDetailState)
    requires
        magnitude_total(entries@) <= i64::MAX,
    ensures
        state.path@ == path@,
        state.scroll == 0,
        rows_in_order(state.entries@),
        state.entries@.map_values(|r: DeltaDetailRow| row_view(r)).to_multiset() == detail_rows(entries@, path@).to_multiset(),
{
    let ghost es = entries@;
    let ghost pv = path@;
    let mut direct: Vec<DeltaDetailRow> = Vec::new();
    let mut groups: Vec<(String, i64, u64)> = Vec::new();
    let mut k: usize = 0;
    proof {
        assert(es.take(0) =~= Seq::<DeltaEntry>::empty());
    }
    while k < entries.len()
        invariant
            k <= es.len(),
            es == entries@,
            pv == path@,
            magnitude_total(es) <= i64::MAX,
            direct@.len() == direct_items(es.take(k as int), pv).len(),
            forall|i: int|
                0 <= i < direct@.len() ==> {
                    let it = #[trigger] direct_items(es.take(k as int), pv)[i];
                    row_view(direct@[i]) == (it.0, it.1, delta_text(it.1), false)
                },
            groups@.len() == deeper_children(es.take(k as int), pv).len(),
            forall|i: int|
                0 <= i < groups@.len() ==> {
                    let c = #[trigger] deeper_children(es.take(k as int), pv)[i];
                    &&& groups@[i].0@ == c
                    &&& groups@[i].1 as int == deeper_sum(es.take(k as int), pv, c)
                    &&& groups@[i].2 == deeper_latest(es.take(k as int), pv, c)
                },
        decreases es.len() - k,
    {
        let ghost pre = es.take(k as int);
        let ghost post = es.take(k + 1);
        proof {
            assert(post.drop_last() =~= pre);
            assert(post.last() == es[k as int]);
            lemma_deeper_children_distinct(pre, pv);
            crate::delta_cache::lemma_magnitude_prefix(es, k + 1);
        }
        let e = &entries[k];
        match relative_components(path, e.path.as_str()) {
            None => {
                proof {
                    assert(below(*e, pv).len() == 0);
                    assert(direct_items(post, pv) == direct_items(pre, pv) + Seq::<(Seq<char>, i64, u64)>::empty());
                    assert(direct_items(post, pv) =~= direct_items(pre, pv));
                }
            },
            Some(rel) => {
                proof {
                    assert(below(*e, pv) == key_view(rel));
                }
                if rel.len() == 1 {
                    let child = rel[0].clone();
                    let row = DeltaDetailRow {
                        timestamp: format_timestamp(e.timestamp),
                        child_name: child,
                        delta_size: e.delta_size,
                        delta_display: format_delta(e.delta_size),
                        is_aggregated: false,
                    };
                    direct.push(row);
                    proof {
                        assert forall|i: int| 0 <= i < direct@.len() implies {
                            let it = #[trigger] direct_items(post, pv)[i];
                            row_view(direct@[i]) == (it.0, it.1, delta_text(it.1), false)
                        } by {
                            if i < direct@.len() - 1 {
                                assert(direct_items(post, pv)[i] == direct_items(pre, pv)[i]);
                            }
                        }
                    }
                } else if rel.len() >= 2 {
                    let child = rel[0].clone();
                    let ghost c = child@;
                    proof {
                        lemma_deeper_sum_bound(post, pv, c);
                        assert(direct_items(post, pv) =~= direct_items(pre, pv));
                    }
                    let mut j: usize = 0;
                    let mut found = false;
                    while j < groups.len() && !found
                        invariant
                            j <= groups@.len(),
                            c == child@,
                            !found ==> forall|t: int| 0 <= t < j ==> (#[trigger] groups@[t]).0@ != c,
                            found ==> j < groups@.len() && groups@[j as int].0@ == c,
                        decreases groups@.len() - j + if found { 0int } else { 1int },
                    {
                        if crate::model::str_eq(groups[j].0.as_str(), child.as_str()) {
                            found = true;
                        } else {
                            j = j + 1;
                        }
                    }
                    if found {
                        let ghost dc = deeper_children(pre, pv);
                        proof {
                            assert(dc[j as int] == c);
                            assert(dc.contains(c));
                            assert(deeper_children(post, pv) == dc);
                            lemma_deeper_sum_bound(pre, pv, c);
                        }
                        let name = groups[j].0.clone();
                        let sum = groups[j].1 + e.delta_size;
                        let latest = if e.timestamp > groups[j].2 {
                            e.timestamp
                        } else {
                            groups[j].2
                        };
                        groups.set(j, (name, sum, latest));
                        proof {
                            assert forall|i: int| 0 <= i < groups@.len() implies {
                                let cc = #[trigger] deeper_children(post, pv)[i];
                                &&& groups@[i].0@ == cc
                                &&& groups@[i].1 as int == deeper_sum(post, pv, cc)
                                &&& groups@[i].2 == deeper_latest(post, pv, cc)
                            } by {
                                if i != j {
                                    assert(dc[i] != dc[j as int]);
                                }
                            }
                        }
                    } else {
                        let ghost dc = deeper_children(pre, pv);
                        proof {
                            assert(!dc.contains(c)) by {
                                if dc.contains(c) {
                                    let w = choose|w: int| 0 <= w < dc.len() && dc[w] == c;
                                    assert(groups@[w].0@ == c);
                                }
                            }
                            lemma_deeper_absent(pre, pv, c);
                            assert(deeper_children(post, pv) == dc.push(c));
                        }
                        groups.push((child, e.delta_size, e.timestamp));
                        proof {
                            assert forall|i: int| 0 <= i < groups@.len() implies {
                                let cc = #[trigger] deeper_children(post, pv)[i];
                                &&& groups@[i].0@ == cc
                                &&& groups@[i].1 as int == deeper_sum(post, pv, cc)
                                &&& groups@[i].2 == deeper_latest(post, pv, cc)
                            } by {
                                if i < dc.len() {
                                    assert(dc[i] != c);
                                }
                            }
                        }
                    }
                } else {
                    proof {
                        assert(direct_items(post, pv) =~= direct_items(pre, pv));
                    }
                }
            },
        }
        k = k + 1;
    }
    proof {
        assert(es.take(es.len() as int) =~= es);
    }
    let ghost nd = direct@.len();
    let mut rows = direct;
    let mut g: usize = 0;
    while g < groups.len()
        invariant
            g <= groups@.len(),
            rows@.len() == nd + g,
            groups@.len() == deeper_children(es, pv).len(),
            forall|i: int|
                0 <= i < groups@.len() ==> {
                    let c = #[trigger] deeper_children(es, pv)[i];
                    &&& groups@[i].0@ == c
                    &&& groups@[i].1 as int == deeper_sum(es, pv, c)
                    &&& groups@[i].2 == deeper_latest(es, pv, c)
                },
            nd == direct_items(es, pv).len(),
            forall|i: int|
                0 <= i < rows@.len() ==> #[trigger] row_view(rows@[i]) == detail_rows(es, pv)[i],
        decreases groups@.len() - g,
    {
        let name = groups[g].0.clone();
        let row = DeltaDetailRow {
            timestamp: format_timestamp(groups[g].2),
            child_name: name,
            delta_size: groups[g].1,
            delta_display: format_delta(groups[g].1),
            is_aggregated: true,
        };
        rows.push(row);
        g = g + 1;
    }
    proof {
        assert(rows@.map_values(|r: DeltaDetailRow| row_view(r)) =~= detail_rows(es, pv));
    }
    sort_rows(&mut rows);
    DeltaDetailState { path: crate::text::string_from(path), entries: rows, scroll: 0 }
}

} // verus!
