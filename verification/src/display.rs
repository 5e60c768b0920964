//! Small text layouts of the browser's views: display widths and line
//! counts of wrapped text, permission strings, tree indentation and
//! markers, shortened names, and the focus order of the filter pane.
use crate::text::{chars_of, push_str, string_of, string_from};
use vstd::prelude::*;

verus! {

/// Display width of a character: 2 for the CJK and full-width ranges, 1
/// otherwise.
pub open spec fn char_width(c: char) -> nat {
    if ('\u{2E80}' <= c && c <= '\u{9FFF}') || ('\u{F900}' <= c && c <= '\u{FAFF}') || ('\u{FE30}' <= c && c <= '\u{FE6F}')
        || ('\u{FF00}' <= c && c <= '\u{FFEF}') {
        2
    } else {
        1
    }
}

/// Display width of a character.
pub fn cjk_width(c: char) -> (w: u16)
    ensures
        w as nat == char_width(c),
{
    if c >= '\u{2E80}' && c <= '\u{9FFF}' {
        2
    } else if c >= '\u{F900}' && c <= '\u{FAFF}' {
        2
    } else if c >= '\u{FE30}' && c <= '\u{FE6F}' {
        2
    } else if c >= '\u{FF00}' && c <= '\u{FFEF}' {
        2
    } else {
        1
    }
}

/// Lines and column after laying out `cs` in lines of `max_width` columns,
/// wrapping before a character that would not fit.
pub open spec fn layout(cs: Seq<char>, max_width: nat) -> (nat, nat)
    decreases cs.len(),
{
    if cs.len() == 0 {
        (1, 0)
    } else {
        let (lines, col) = layout(cs.drop_last(), max_width);
        let w = char_width(cs.last());
        if col + w > max_width {
            (lines + 1, w)
        } else {
            (lines, col + w)
        }
    }
}

proof fn lemma_layout_bounds(cs: Seq<char>, max_width: nat)
    requires
        max_width >= 2,
    ensures
        layout(cs, max_width).0 <= cs.len() + 1,
        layout(cs, max_width).1 <= max_width,
    decreases cs.len(),
{
    if cs.len() > 0 {
        lemma_layout_bounds(cs.drop_last(), max_width);
    }
}

/// Number of screen lines `text` takes when wrapped at `max_width`
/// columns; for widths below 2, its length in bytes (at least 1).
pub fn text_lines(text: &str, max_width: u16) -> (n: u16)
    requires
        max_width <= u16::MAX - 2,
        text@.len() < u16::MAX,
    ensures
        max_width < 2 ==> n == #[verifier::truncate] ((if text.len() > 1 { text.len() } else { 1 }) as u16),
        max_width >= 2 ==> n as nat == layout(text@, max_width as nat).0,
{
    if max_width < 2 {
        let b = text.len();
        return #[verifier::truncate] ((if b > 1 { b } else { 1 }) as u16);
    }
    let cs = chars_of(text);
    let mut col: u16 = 0;
    let mut lines: u16 = 1;
    let mut i: usize = 0;
    proof {
        assert(cs@.take(0) =~= Seq::<char>::empty());
    }
    while i < cs.len()
        invariant
            i <= cs@.len(),
            cs@ == text@,
            2 <= max_width <= u16::MAX - 2,
            text@.len() < u16::MAX,
            (lines as nat, col as nat) == layout(cs@.take(i as int), max_width as nat),
        decreases cs@.len() - i,
    {
        proof {
            let t = cs@.take(i + 1);
            assert(t.drop_last() =~= cs@.take(i as int));
            assert(t.last() == cs@[i as int]);
            lemma_layout_bounds(cs@.take(i as int), max_width as nat);
        }
        let w = cjk_width(cs[i]);
        if col + w > max_width {
            lines = lines + 1;
            col = w;
        } else {
            col = col + w;
        }
        i = i + 1;
    }
    proof {
        assert(cs@.take(cs@.len() as int) =~= cs@);
    }
    lines
}

/// Permission characters of a mode, in the order the metadata view shows
/// them; each character tests the mask listed for it.
pub open spec fn mode_chars(mode: u32) -> Seq<char> {
    seq![
        if mode & 0o400 != 0 { 'r' } else { '-' },
        if mode & 0o200 != 0 { 'w' } else { '-' },
        if mode & 0o100 != 0 { 'x' } else { '-' },
        if mode & 0o040 != 0 { 'r' } else { '-' },
        if mode & 0x020 != 0 { 'w' } else { '-' },
        if mode & 0o010 != 0 { 'x' } else { '-' },
        if mode & 0o004 != 0 { 'r' } else { '-' },
        if mode & 0x002 != 0 { 'w' } else { '-' },
        if mode & 0x001 != 0 { 'x' } else { '-' },
    ]
}

/// Permission string of a file mode, such as "rwxr-xr-x".
pub fn unix_mode_string(mode: u32) -> (s: String)
    ensures
        s@ == mode_chars(mode),
{
    let chars: [char; 9] = [
        if mode & 0o400 != 0 { 'r' } else { '-' },
        if mode & 0o200 != 0 { 'w' } else { '-' },
        if mode & 0o100 != 0 { 'x' } else { '-' },
        if mode & 0o040 != 0 { 'r' } else { '-' },
        if mode & 0x020 != 0 { 'w' } else { '-' },
        if mode & 0o010 != 0 { 'x' } else { '-' },
        if mode & 0o004 != 0 { 'r' } else { '-' },
        if mode & 0x002 != 0 { 'w' } else { '-' },
        if mode & 0x001 != 0 { 'x' } else { '-' },
    ];
    proof {
        assert(chars@ =~= mode_chars(mode));
    }
    string_of(&chars)
}

/// Indentation of a tree line at `depth`: two spaces per level.
pub open spec fn indent(depth: nat) -> Seq<char> {
    Seq::new(2 * depth, |i: int| ' ')
}

/// Indentation of a tree line at `depth`.
pub fn line_indent(depth: usize) -> (s: String)
    requires
        depth < usize::MAX / 2,
    ensures
        s@ == indent(depth as nat),
{
    let mut s = String::new();
    let mut k: usize = 0;
    while k < depth
        invariant
            k <= depth,
            depth < usize::MAX / 2,
            s@ == indent(k as nat),
        decreases depth - k,
    {
        push_str(&mut s, "  ");
        proof {
            reveal_strlit("  ");
            assert(s@ =~= indent((k + 1) as nat));
        }
        k = k + 1;
    }
    s
}

/// Marker of a tree line: "- " for an open directory, "+ " for a closed
/// one, blanks for other entries.
pub fn branch_marker(is_dir: bool, expanded: bool) -> (s: &'static str)
    ensures
        s@ == (if is_dir {
            if expanded {
                "- "@
            } else {
                "+ "@
            }
        } else {
            "  "@
        }),
{
    if is_dir {
        if expanded {
            "- "
        } else {
            "+ "
        }
    } else {
        "  "
    }
}

/// `s` shortened to about `max` bytes by keeping its start and end around
/// "..." (counted in characters); unchanged when short enough or `max < 5`.
pub open spec fn shortened_path(s: Seq<char>, bytes: nat, max: nat) -> Seq<char> {
    if max < 5 || bytes <= max {
        s
    } else {
        let tail_len = ((max - 3) / 2) as nat;
        let head_len = (max - 3 - tail_len) as nat;
        let head = if head_len <= s.len() { s.take(head_len as int) } else { s };
        let tail = if tail_len <= s.len() { s.skip(s.len() - tail_len) } else { s };
        head + "..."@ + tail
    }
}

/// Shortens a path for a column of `max` bytes.
pub fn truncate_path(s: &str, max: usize) -> (r: String)
    ensures
        r@ == shortened_path(s@, s.len() as nat, max as nat),
{
    if max < 5 || s.len() <= max {
        return string_from(s);
    }
    let cs = chars_of(s);
    let tail_len = (max - 3) / 2;
    let head_len = max - 3 - tail_len;
    let n = cs.len();
    let head_end = if head_len <= n { head_len } else { n };
    let tail_start = if tail_len <= n { n - tail_len } else { 0 };
    let mut r = string_of(vstd::slice::slice_subrange(cs.as_slice(), 0, head_end));
    push_str(&mut r, "...");
    let tail = string_of(vstd::slice::slice_subrange(cs.as_slice(), tail_start, n));
    push_str(&mut r, tail.as_str());
    proof {
        assert(cs@.take(head_end as int) =~= cs@.subrange(0, head_end as int));
        assert(cs@.subrange(tail_start as int, n as int) =~= if tail_len <= n {
            cs@.skip(n - tail_len)
        } else {
            cs@
        });
        if head_len > n {
            assert(cs@.subrange(0, head_end as int) =~= cs@);
        }
        assert(r@ =~= shortened_path(s@, s.len() as nat, max as nat));
    }
    r
}

/// `s` cut to `max` characters when `max < 4`; otherwise unchanged when it
/// has at most `max` bytes, else its first `max - 3` characters and "...".
pub open spec fn shortened_text(s: Seq<char>, bytes: nat, max: nat) -> Seq<char> {
    if max < 4 {
        if max <= s.len() {
            s.take(max as int)
        } else {
            s
        }
    } else if bytes <= max {
        s
    } else {
        (if max - 3 <= s.len() {
            s.take(max - 3)
        } else {
            s
        }) + "..."@
    }
}

/// Shortens a text for a column of `max` bytes.
pub fn truncate_str(s: &str, max: usize) -> (r: String)
    ensures
        r@ == shortened_text(s@, s.len() as nat, max as nat),
{
    let cs = chars_of(s);
    let n = cs.len();
    if max < 4 {
        let end = if max <= n { max } else { n };
        proof {
            if max > n {
                assert(cs@.subrange(0, end as int) =~= cs@);
            }
        }
        return string_of(vstd::slice::slice_subrange(cs.as_slice(), 0, end));
    }
    if s.len() <= max {
        return string_from(s);
    }
    let keep = max - 3;
    let end = if keep <= n { keep } else { n };
    let mut r = string_of(vstd::slice::slice_subrange(cs.as_slice(), 0, end));
    push_str(&mut r, "...");
    proof {
        if keep > n {
            assert(cs@.subrange(0, end as int) =~= cs@);
        }
        assert(r@ =~= shortened_text(s@, s.len() as nat, max as nat));
    }
    r
}

/// Field of the filter pane that has the focus.
#[derive(Debug, Clone, Copy, PartialEq, Eq, Structural)]
pub enum FilterFocus {
    TimePreset,
    DeltaValue,
    DeltaUnit,
}

/// The next focus: the value and the unit alternate when the time field is
/// skipped; otherwise time, value, unit in a cycle, either way round.
pub open spec fn next_focus(current: FilterFocus, skip_time: bool, forward: bool) -> FilterFocus {
    if skip_time {
        match current {
            FilterFocus::DeltaValue => FilterFocus::DeltaUnit,
            _ => FilterFocus::DeltaValue,
        }
    } else {
        match (current, forward) {
            (FilterFocus::TimePreset, true) => FilterFocus::DeltaValue,
            (FilterFocus::DeltaValue, true) => FilterFocus::DeltaUnit,
            (FilterFocus::DeltaUnit, true) => FilterFocus::TimePreset,
            (FilterFocus::TimePreset, false) => FilterFocus::DeltaUnit,
            (FilterFocus::DeltaValue, false) => FilterFocus::TimePreset,
            (FilterFocus::DeltaUnit, false) => FilterFocus::DeltaValue,
        }
    }
}

/// Moves the focus of the filter pane.
pub fn cycle_filter_focus(current: FilterFocus, skip_time: bool, forward: bool) -> (f: FilterFocus)
    ensures
        f == next_focus(current, skip_time, forward),
{
    if skip_time {
        match current {
            FilterFocus::DeltaValue => FilterFocus::DeltaUnit,
            _ => FilterFocus::DeltaValue,
        }
    } else {
        let order: [FilterFocus; 3] = [FilterFocus::TimePreset, FilterFocus::DeltaValue, FilterFocus::DeltaUnit];
        let pos: usize = match current {
            FilterFocus::TimePreset => 0,
            FilterFocus::DeltaValue => 1,
            FilterFocus::DeltaUnit => 2,
        };
        let next = if forward {
            (pos + 1) % 3
        } else {
            (pos + 2) % 3
        };
        order[next]
    }
}

/// Moving the focus forward and then back returns to where it was.
pub proof fn law_focus_round_trip(current: FilterFocus, skip_time: bool)
    requires
        !skip_time || current != FilterFocus::TimePreset,
    ensures
        next_focus(next_focus(current, skip_time, true), skip_time, false) == current,
{
}

} // verus!
