//! Counts and texts of the command-line reports: files in a scanned tree
//! and durations such as "1d 2h 5s".
use crate::model::{flags_dir, NodeIndex, Snapshot};
use crate::text::{decimal, push_char, push_decimal};
use crate::tree_ops::{dirs_fn, kids_fn, lemma_children_in_range};
use vstd::prelude::*;

verus! {

/// `acc` followed by `part`, with a space between them when `acc` is not
/// empty.
pub open spec fn add_part(acc: Seq<char>, part: Seq<char>) -> Seq<char> {
    if acc.len() == 0 {
        part
    } else {
        acc + seq![' '] + part
    }
}

/// A duration in seconds as days, hours, minutes and seconds ("1d 2h 5s"):
/// zero parts are left out, but seconds are shown when nothing else is.
pub open spec fn duration_text(secs: nat) -> Seq<char> {
    let d = secs / 86400;
    let h = (secs % 86400) / 3600;
    let m = (secs % 3600) / 60;
    let s = secs % 60;
    let a1 = if d > 0 {
        add_part(Seq::empty(), decimal(d).push('d'))
    } else {
        Seq::empty()
    };
    let a2 = if h > 0 {
        add_part(a1, decimal(h).push('h'))
    } else {
        a1
    };
    let a3 = if m > 0 {
        add_part(a2, decimal(m).push('m'))
    } else {
        a2
    };
    if s > 0 || a3.len() == 0 {
        add_part(a3, decimal(s).push('s'))
    } else {
        a3
    }
}

/// Appends `n` and its unit to `out`, after a space when `out` is not
/// empty.
fn push_part(out: &mut String, n: u64, unit: char)
    ensures
        final(out)@ == add_part(old(out)@, decimal(n as nat).push(unit)),
        final(out)@.len() > 0,
{
    let cs = crate::text::chars_of(out.as_str());
    if cs.len() > 0 {
        push_char(out, ' ');
    }
    push_decimal(out, n);
    push_char(out, unit);
    proof {
        assert(final(out)@ =~= add_part(old(out)@, decimal(n as nat).push(unit)));
    }
}

/// Text of a duration given in seconds, such as "3h 12m" or "45s".
pub fn format_duration(secs: u64) -> (s: String)
    ensures
        s@ == duration_text(secs as nat),
{
    let days = secs / 86400;
    let hours = (secs % 86400) / 3600;
    let minutes = (secs % 3600) / 60;
    let rest = secs % 60;
    let mut out = String::new();
    if days > 0 {
        push_part(&mut out, days, 'd');
    }
    if hours > 0 {
        push_part(&mut out, hours, 'h');
    }
    if minutes > 0 {
        push_part(&mut out, minutes, 'm');
    }
    let empty = crate::text::chars_of(out.as_str()).len() == 0;
    if rest > 0 || empty {
        push_part(&mut out, rest, 's');
    }
    out
}

/// Number of non-directories in the subtree at `idx`, counting a node once
/// for each way it is reached (given each node's children and directory
/// bit; only children after their parent are followed).
pub open spec fn files_below(kids: spec_fn(int) -> Seq<NodeIndex>, dirs: spec_fn(int) -> bool, n: int, idx: int) -> nat
    decreases n - idx, 1int, 0int,
{
    if idx < 0 || idx >= n {
        0
    } else {
        (if dirs(idx) {
            0nat
        } else {
            1nat
        }) + files_in_kids(kids, dirs, n, idx, kids(idx).len() as int)
    }
}

/// Number of non-directories below the first `j` children of `idx`.
pub open spec fn files_in_kids(kids: spec_fn(int) -> Seq<NodeIndex>, dirs: spec_fn(int) -> bool, n: int, idx: int, j: int) -> nat
    decreases n - idx, 0int, j,
{
    if j <= 0 || idx < 0 || idx >= n {
        0
    } else {
        let c = kids(idx)[j - 1] as int;
        files_in_kids(kids, dirs, n, idx, j - 1) + if idx < c < n {
            files_below(kids, dirs, n, c)
        } else {
            0
        }
    }
}

/// Number of non-directories in the subtree at `idx` of `snap`.
pub open spec fn file_count(snap: Snapshot, idx: int) -> nat {
    files_below(kids_fn(snap), dirs_fn(snap), snap.nodes@.len() as int, idx)
}

proof fn lemma_files_in_kids_mono(kids: spec_fn(int) -> Seq<NodeIndex>, dirs: spec_fn(int) -> bool, n: int, idx: int, j: int, k: int)
    requires
        j <= k,
    ensures
        files_in_kids(kids, dirs, n, idx, j) <= files_in_kids(kids, dirs, n, idx, k),
    decreases k - j,
{
    if j < k {
        lemma_files_in_kids_mono(kids, dirs, n, idx, j, k - 1);
    }
}

/// Counts the non-directories in the subtree at `idx`.
pub fn count_files(snap: &Snapshot, idx: NodeIndex) -> (count: u64)
    requires
        snap.wf(),
        snap.ordered(),
        idx < snap.nodes@.len(),
        file_count(*snap, idx as int) <= u64::MAX,
    ensures
        count == file_count(*snap, idx as int),
    decreases snap.nodes@.len() - idx,
{
    let ghost n = snap.nodes@.len() as int;
    let ghost kf = kids_fn(*snap);
    let ghost df = dirs_fn(*snap);
    let mut count: u64 = 0;
    if !snap.node(idx).is_dir() {
        count = 1;
    }
    let kids = snap.children(idx);
    proof {
        lemma_children_in_range(*snap, idx as int);
        assert(kf(idx as int) == kids@);
    }
    let mut j: usize = 0;
    while j < kids.len()
        invariant
            snap.wf(),
            snap.ordered(),
            n == snap.nodes@.len(),
            (idx as int) < n,
            kf == kids_fn(*snap),
            df == dirs_fn(*snap),
            kids@ == snap.children_of(idx as int),
            forall|i: int| 0 <= i < kids@.len() ==> (#[trigger] kids@[i] as int) < n,
            j <= kids@.len(),
            file_count(*snap, idx as int) <= u64::MAX,
            count == (if df(idx as int) {
                0nat
            } else {
                1nat
            }) + files_in_kids(kf, df, n, idx as int, j as int),
        decreases kids@.len() - j,
    {
        let c = kids[j];
        proof {
            assert(idx < c);
            lemma_files_in_kids_mono(kf, df, n, idx as int, j + 1, kids@.len() as int);
        }
        let sub = count_files(snap, c);
        count = count + sub;
        j = j + 1;
    }
    count
}

/// The texts joined with `sep` between them.
pub open spec fn joined_with(ws: Seq<Seq<char>>, sep: Seq<char>) -> Seq<char>
    decreases ws.len(),
{
    if ws.len() == 0 {
        Seq::empty()
    } else if ws.len() == 1 {
        ws[0]
    } else {
        joined_with(ws.drop_last(), sep) + sep + ws.last()
    }
}

/// The status message after deleting: how many deletions failed and
/// their messages (an error), or how many items were deleted.
pub fn deletion_message(errors: &[String], deleted: usize) -> (r: (String, bool))
    ensures
        errors@.len() > 0 ==> r.1 && r.0@ == decimal(errors@.len()) + " delete(s) failed: "@ + joined_with(
            errors@.map_values(|e: String| e@),
            "; "@,
        ),
        errors@.len() == 0 ==> !r.1 && r.0@ == "deleted "@ + decimal(deleted as nat) + " item(s)"@,
{
    let mut m = String::new();
    if errors.len() > 0 {
        push_decimal(&mut m, errors.len() as u64);
        crate::text::push_str(&mut m, " delete(s) failed: ");
        let ghost head = m@;
        let mut i: usize = 0;
        while i < errors.len()
            invariant
                i <= errors@.len(),
                m@ == head + joined_with(errors@.map_values(|e: String| e@).take(i as int), "; "@),
            decreases errors@.len() - i,
        {
            proof {
                let w = errors@.map_values(|e: String| e@);
                assert(w.take(i + 1).drop_last() =~= w.take(i as int));
                assert(w.take(i + 1).last() == errors@[i as int]@);
            }
            if i > 0 {
                crate::text::push_str(&mut m, "; ");
            }
            crate::text::push_str(&mut m, errors[i].as_str());
            proof {
                let w = errors@.map_values(|e: String| e@);
                if i == 0 {
                    assert(w.take(1) =~= seq![errors@[0]@]);
                }
                assert(m@ =~= head + joined_with(w.take(i + 1), "; "@));
            }
            i = i + 1;
        }
        proof {
            let w = errors@.map_values(|e: String| e@);
            assert(w.take(errors@.len() as int) =~= w);
        }
        (m, true)
    } else {
        crate::text::push_str(&mut m, "deleted ");
        push_decimal(&mut m, deleted as u64);
        crate::text::push_str(&mut m, " item(s)");
        proof {
            assert(m@ =~= "deleted "@ + decimal(deleted as nat) + " item(s)"@);
        }
        (m, false)
    }
}

} // verus!
