//! The browser's command line: "help", "delta", "time", "sort" and the
//! other commands, as changes of the browser state and a message.
use crate::human_size::parse_uint_spec;
use crate::search::unicode_lowercase;
use crate::text::{decimal, decimal_padded, split_on, trim, words};
use crate::time_args::{duration_fits, time_arg_spec, time_only, TimeArgKind};
use crate::ui::{AppMode, SortMode};
use vstd::prelude::*;

verus! {

/// What the browser does after a command.
#[derive(Debug, Clone, Copy, PartialEq, Eq, Structural)]
pub enum Followup {
    Nothing,
    /// Re-apply the change filter to the listing.
    RefreshFiltered,
    /// Reload the listing (its order changed).
    ReloadChildren,
    /// Fetch the changes of the new time window.
    RefreshDeltas,
    /// Open the path finder.
    OpenFinder,
}

/// The part of the browser state that commands read and change.
pub struct CommandState {
    pub server_mode: bool,
    pub scanning: bool,
    pub mode: AppMode,
    pub sort_mode: SortMode,
    pub delta_filter_active: bool,
    pub delta_filter_value: u64,
    /// 0 for KB, 1 for MB, 2 for GB.
    pub delta_filter_unit: usize,
    pub time_from: u64,
    pub time_to: u64,
    pub time_custom: bool,
    pub time_custom_label: String,
    pub followup: Followup,
}

impl CommandState {
    /// The state of a freshly opened browser.
    pub fn new() -> (s: CommandState)
        ensures
            !s.server_mode,
            !s.scanning,
            s.mode == AppMode::Browsing,
            s.sort_mode == SortMode::Size,
            !s.delta_filter_active,
            s.delta_filter_value == 100,
            s.delta_filter_unit == 1,
            s.time_from == 0,
            s.time_to == 0,
            !s.time_custom,
            s.time_custom_label@.len() == 0,
            s.followup == Followup::Nothing,
    {
        CommandState {
            server_mode: false,
            scanning: false,
            mode: AppMode::Browsing,
            sort_mode: SortMode::Size,
            delta_filter_active: false,
            delta_filter_value: 100,
            delta_filter_unit: 1,
            time_from: 0,
            time_to: 0,
            time_custom: false,
            time_custom_label: String::new(),
            followup: Followup::Nothing,
        }
    }
}

/// Name of a change-filter unit.
pub open spec fn filter_unit_name(unit: usize) -> Seq<char> {
    if unit == 0 {
        "KB"@
    } else if unit == 1 {
        "MB"@
    } else {
        "GB"@
    }
}

/// The number text and unit of a "delta" argument: a trailing k, m or g
/// (either case) picks KB, MB or GB, none picks MB; no argument is 0 KB.
pub open spec fn delta_arg(parts: Seq<Seq<char>>) -> (Seq<char>, usize) {
    if parts.len() < 2 {
        (seq!['0'], 0)
    } else {
        let a = parts[1];
        let l = a.last();
        if l == 'k' || l == 'K' {
            (a.drop_last(), 0)
        } else if l == 'm' || l == 'M' {
            (a.drop_last(), 1)
        } else if l == 'g' || l == 'G' {
            (a.drop_last(), 2)
        } else {
            (a, 1)
        }
    }
}

/// `s` names the same command as `word` once lowercased.
pub open spec fn named(word: Seq<char>, s: Seq<char>) -> bool {
    unicode_lowercase(word) == s
}

/// The result of "delta" on `old`: outside server mode an error; a number
/// that does not parse is an error; else the filter is set and on.
pub open spec fn delta_outcome(old: CommandState, new: CommandState, parts: Seq<Seq<char>>, r: Result<String, String>) -> bool {
    let (num, unit) = delta_arg(parts);
    if !old.server_mode {
        r matches Err(m) && m@ == "not in server mode"@ && new == old
    } else {
        match parse_uint_spec(num, u64::MAX as nat) {
            None => r matches Err(m) && m@ == "invalid number: "@ + num && new == old,
            Some(v) => {
                &&& r matches Ok(m) && m@ == "delta filter set to "@ + decimal(v) + filter_unit_name(unit)
                &&& new == (CommandState {
                    delta_filter_active: true,
                    delta_filter_value: v as u64,
                    delta_filter_unit: unit,
                    followup: Followup::RefreshFiltered,
                    ..old
                })
            },
        }
    }
}

/// The sort mode a "sort" argument picks: d/delta, s/size, n/name (any
/// case), or the next mode when there is none.
pub open spec fn sort_pick(parts: Seq<Seq<char>>, current: SortMode) -> Option<SortMode> {
    if parts.len() < 2 || named(parts[1], Seq::empty()) {
        Some(crate::ui::next_sort(current))
    } else if named(parts[1], "d"@) || named(parts[1], "delta"@) {
        Some(SortMode::Delta)
    } else if named(parts[1], "s"@) || named(parts[1], "size"@) {
        Some(SortMode::Size)
    } else if named(parts[1], "n"@) || named(parts[1], "name"@) {
        Some(SortMode::Name)
    } else {
        None
    }
}

/// The result of "sort" on `old`.
pub open spec fn sort_outcome(old: CommandState, new: CommandState, parts: Seq<Seq<char>>, r: Result<String, String>) -> bool {
    match sort_pick(parts, old.sort_mode) {
        None => r matches Err(m) && m@ == "unknown sort mode: "@ + parts[1] && new == old,
        Some(mode) => {
            &&& r matches Ok(m) && m@ == "Sort: "@ + crate::ui::sort_label(mode)
            &&& new == (CommandState { sort_mode: mode, followup: Followup::ReloadChildren, ..old })
        },
    }
}

/// Position of the first " to " (either case) in `s`.
pub open spec fn range_separator(s: Seq<char>) -> Option<int>
    decreases s.len(),
{
    if s.len() < 4 {
        None
    } else if s[0] == ' ' && (s[1] == 't' || s[1] == 'T') && (s[2] == 'o' || s[2] == 'O') && s[3] == ' ' {
        Some(0)
    } else {
        match range_separator(s.drop_first()) {
            Some(i) => Some(i + 1),
            None => None,
        }
    }
}

/// The words joined with single spaces.
pub open spec fn joined_words(ws: Seq<Seq<char>>) -> Seq<char>
    decreases ws.len(),
{
    if ws.len() == 0 {
        Seq::empty()
    } else if ws.len() == 1 {
        ws[0]
    } else {
        joined_words(ws.drop_last()) + seq![' '] + ws.last()
    }
}

/// Hours and minutes of a time-only text ("14:30"); a part that does not
/// parse counts as 0.
pub open spec fn clock_parts(right: Seq<char>) -> (u32, u32) {
    let p = split_on(right, ':');
    (
        match parse_uint_spec(p[0], u32::MAX as nat) {
            Some(v) => v as u32,
            None => 0,
        },
        match parse_uint_spec(p[1], u32::MAX as nat) {
            Some(v) => v as u32,
            None => 0,
        },
    )
}

/// The texts handed to the time parser by a "time" command fit in 64 bits
/// when read as durations.
pub open spec fn time_args_fit(parts: Seq<Seq<char>>) -> bool {
    parts.len() >= 2 ==> {
        let rest = joined_words(parts.drop_first());
        match range_separator(rest) {
            None => duration_fits(parts[1]),
            Some(i) => duration_fits(trim(rest.take(i))) && (time_only(trim(rest.skip(i + 4))) || duration_fits(
                trim(rest.skip(i + 4)),
            )),
        }
    }
}

/// `new` is `old` with a custom time window labelled `label` (its
/// instants aside), and the message is `msg`.
pub open spec fn window_set(old: CommandState, new: CommandState, label: Seq<char>, msg: Seq<char>, r: Result<String, String>) -> bool {
    &&& r matches Ok(m) && m@ == msg
    &&& new.time_custom_label@ == label
    &&& new == (CommandState {
        time_from: new.time_from,
        time_to: new.time_to,
        time_custom: true,
        time_custom_label: new.time_custom_label,
        followup: Followup::RefreshDeltas,
        ..old
    })
}

/// "time ARG" with a single argument: a window up to now.
pub open spec fn single_outcome(old: CommandState, new: CommandState, arg: Seq<char>, r: Result<String, String>) -> bool {
    match time_arg_spec(arg) {
        Err(e) => r matches Err(m) && m@ == e && new == old,
        Ok((kind, label)) => if kind is Ago {
            window_set(old, new, label, "time range: in "@ + label, r)
        } else {
            window_set(old, new, label + " ~ now"@, "time range: "@ + label + " ~ now"@, r)
        },
    }
}

/// "time FROM to TO", the sides being the trimmed texts around the
/// separator at `i` in `rest`.
pub open spec fn range_outcome(old: CommandState, new: CommandState, rest: Seq<char>, i: int, r: Result<String, String>) -> bool {
    let left = trim(rest.take(i));
    let right = trim(rest.skip(i + 4));
    if left.len() == 0 || right.len() == 0 {
        r matches Err(m) && m@ == "invalid time range: empty side"@ && new == old
    } else {
        match time_arg_spec(left) {
            Err(e) => r matches Err(m) && m@ == e && new == old,
            Ok((lkind, llabel)) => if time_only(right) {
                if lkind is Ago {
                    r matches Err(m) && m@ == "cannot inherit date for time-only right side"@ && new == old
                } else {
                    let (h, mi) = clock_parts(right);
                    let label = llabel + " ~ "@ + decimal_padded(h as nat, 2) + ":"@ + decimal_padded(mi as nat, 2);
                    window_set(old, new, label, "time range: "@ + label, r)
                }
            } else {
                match time_arg_spec(right) {
                    Err(e) => r matches Err(m) && m@ == e && new == old,
                    Ok((rkind, rlabel)) => {
                        let label = llabel + " ~ "@ + rlabel;
                        window_set(old, new, label, "time range: "@ + label, r)
                    },
                }
            },
        }
    }
}

/// The result of "time" on `old`, but for the instants (which depend on the
/// clock and the time zone): outside server mode an error; no argument
/// opens the time help; "<from> to <to>" sets a range labelled
/// "<from> ~ <to>" (a time-only right side takes the left side's date);
/// a single argument sets a range up to now.
pub open spec fn time_outcome(old: CommandState, new: CommandState, parts: Seq<Seq<char>>, r: Result<String, String>) -> bool {
    if !old.server_mode {
        r matches Err(m) && m@ == "not in server mode"@ && new == old
    } else if parts.len() < 2 {
        r matches Ok(m) && m@.len() == 0 && new == (CommandState { mode: AppMode::TimeHelp, ..old })
    } else {
        let rest = joined_words(parts.drop_first());
        match range_separator(rest) {
            None => single_outcome(old, new, parts[1], r),
            Some(i) => range_outcome(old, new, rest, i, r),
        }
    }
}

/// The result of running the command line `cmd` on `old`.
pub open spec fn command_outcome(old: CommandState, new: CommandState, cmd: Seq<char>, r: Result<String, String>) -> bool {
    let parts = words(trim(cmd));
    if trim(cmd).len() == 0 {
        r matches Err(m) && m@ == "empty command"@ && new == old
    } else {
        let name = parts[0];
        if named(name, "help"@) {
            r matches Ok(m) && m@ == "help opened"@ && new == (CommandState { mode: AppMode::Help, ..old })
        } else if named(name, "delta"@) {
            delta_outcome(old, new, parts, r)
        } else if named(name, "time"@) {
            time_outcome(old, new, parts, r)
        } else if named(name, "sort"@) || named(name, "s"@) {
            sort_outcome(old, new, parts, r)
        } else if named(name, "sd"@) {
            r matches Ok(m) && m@ == "Sort: "@ + crate::ui::sort_label(SortMode::Delta) && new == (CommandState {
                sort_mode: SortMode::Delta,
                followup: Followup::ReloadChildren,
                ..old
            })
        } else if named(name, "ss"@) {
            r matches Ok(m) && m@ == "Sort: "@ + crate::ui::sort_label(SortMode::Size) && new == (CommandState {
                sort_mode: SortMode::Size,
                followup: Followup::ReloadChildren,
                ..old
            })
        } else if named(name, "sn"@) {
            r matches Ok(m) && m@ == "Sort: "@ + crate::ui::sort_label(SortMode::Name) && new == (CommandState {
                sort_mode: SortMode::Name,
                followup: Followup::ReloadChildren,
                ..old
            })
        } else if named(name, "finder"@) {
            r matches Ok(m) && m@ == "finder opened"@ && new == (CommandState {
                mode: AppMode::Finder,
                followup: Followup::OpenFinder,
                ..old
            })
        } else if named(name, "scan"@) {
            if old.scanning {
                r matches Err(m) && m@ == "already scanning"@ && new == old
            } else {
                r matches Ok(m) && m@ == "scan started"@ && new == old
            }
        } else if named(name, "consolidate"@) {
            if !old.server_mode {
                r matches Err(m) && m@ == "not in server mode"@ && new == old
            } else {
                r matches Ok(m) && m@ == "consolidation requested"@ && new == old
            }
        } else {
            r matches Err(m) && m@ == "unknown command: "@ + name && new == old
        }
    }
}

} // verus!

verus! {

/// Text of a word.
fn word_text(w: &Vec<char>) -> (s: String)
    ensures
        s@ == w@,
{
    crate::text::string_of(w.as_slice())
}

/// `a` followed by `b`.
fn concat(a: &str, b: &str) -> (s: String)
    ensures
        s@ == a@ + b@,
{
    let mut s = crate::text::string_from(a);
    crate::text::push_str(&mut s, b);
    s
}

/// Position of the first " to " (either case) in `s`.
fn find_range_separator(s: &[char]) -> (r: Option<usize>)
    ensures
        match r {
            Some(i) => range_separator(s@) == Some(i as int),
            None => range_separator(s@) is None,
        },
{
    let n = s.len();
    let mut i: usize = 0;
    proof {
        assert(s@.skip(0) =~= s@);
    }
    while n >= 4 && i <= n - 4
        invariant
            n == s@.len(),
            i <= n,
            range_separator(s@) == match range_separator(s@.skip(i as int)) {
                Some(q) => Some(q + i),
                None => None,
            },
        decreases n - i,
    {
        proof {
            let t = s@.skip(i as int);
            assert(t[0] == s@[i as int] && t[1] == s@[i + 1] && t[2] == s@[i + 2] && t[3] == s@[i + 3]);
            assert(t.drop_first() =~= s@.skip(i + 1));
        }
        if s[i] == ' ' && (s[i + 1] == 't' || s[i + 1] == 'T') && (s[i + 2] == 'o' || s[i + 2] == 'O') && s[i + 3] == ' ' {
            return Some(i);
        }
        i = i + 1;
    }
    proof {
        assert(s@.skip(i as int).len() < 4);
    }
    None
}

/// The words from the second on, joined with single spaces.
fn join_rest(parts: &Vec<Vec<char>>) -> (v: Vec<char>)
    requires
        parts@.len() >= 2,
    ensures
        v@ == joined_words(crate::text::texts(parts@).drop_first()),
{
    let ghost ws = crate::text::texts(parts@).drop_first();
    let mut v: Vec<char> = parts[1].clone();
    let mut i: usize = 2;
    proof {
        assert(ws.take(1) =~= seq![ws[0]]);
        assert(joined_words(ws.take(1)) == ws[0]);
    }
    while i < parts.len()
        invariant
            2 <= i <= parts@.len(),
            ws == crate::text::texts(parts@).drop_first(),
            v@ == joined_words(ws.take(i - 1)),
        decreases parts@.len() - i,
    {
        v.push(' ');
        let w = &parts[i];
        let mut k: usize = 0;
        let ghost start = v@;
        while k < w.len()
            invariant
                k <= w@.len(),
                v@ == start + w@.take(k as int),
            decreases w@.len() - k,
        {
            v.push(w[k]);
            proof {
                assert(w@.take(k + 1) =~= w@.take(k as int).push(w@[k as int]));
            }
            k = k + 1;
        }
        proof {
            let t = ws.take(i as int);
            assert(t.drop_last() =~= ws.take(i - 1));
            assert(t.last() == w@);
            assert(w@.take(w@.len() as int) =~= w@);
            assert(v@ =~= joined_words(ws.take(i - 1)) + seq![' '] + w@);
        }
        i = i + 1;
    }
    proof {
        assert(ws.take(parts@.len() - 1) =~= ws);
    }
    v
}

/// Parses an unsigned number of 32 bits, 0 when it does not parse.
fn u32_or_zero(s: &[char]) -> (v: u32)
    ensures
        v == match parse_uint_spec(s@, u32::MAX as nat) {
            Some(x) => x as u32,
            None => 0,
        },
{
    match crate::human_size::parse_uint(s, u32::MAX as u64) {
        Some(x) => x as u32,
        None => 0,
    }
}

impl CommandState {
    /// "delta [N[k|m|g]]": sets the change filter.
    fn cmd_delta(&mut self, parts: &Vec<Vec<char>>) -> (r: Result<String, String>)
        requires
            forall|i: int| 0 <= i < parts@.len() ==> (#[trigger] parts@[i])@.len() > 0,
        ensures
            delta_outcome(*old(self), *final(self), crate::text::texts(parts@), r),
    {
        let ghost ps = crate::text::texts(parts@);
        if !self.server_mode {
            return Err(crate::text::string_from("not in server mode"));
        }
        let (num, unit): (Vec<char>, usize) = if parts.len() < 2 {
            (vec!['0'], 0)
        } else {
            let a = &parts[1];
            let l = a[a.len() - 1];
            let cut = vstd::slice::slice_to_vec(vstd::slice::slice_subrange(a.as_slice(), 0, a.len() - 1));
            proof {
                assert(ps[1] == a@);
                assert(cut@ =~= a@.drop_last());
            }
            if l == 'k' || l == 'K' {
                (cut, 0)
            } else if l == 'm' || l == 'M' {
                (cut, 1)
            } else if l == 'g' || l == 'G' {
                (cut, 2)
            } else {
                (a.clone(), 1)
            }
        };
        proof {
            assert(delta_arg(ps) == (num@, unit)) by {
                if ps.len() < 2 {
                    assert(num@ =~= seq!['0']);
                }
            }
        }
        match crate::human_size::parse_uint(num.as_slice(), u64::MAX) {
            None => {
                let t = crate::text::string_of(num.as_slice());
                Err(concat("invalid number: ", t.as_str()))
            },
            Some(v) => {
                self.delta_filter_active = true;
                self.delta_filter_value = v;
                self.delta_filter_unit = unit;
                self.followup = Followup::RefreshFiltered;
                let mut m = crate::text::string_from("delta filter set to ");
                crate::text::push_decimal(&mut m, v);
                let u = if unit == 0 {
                    "KB"
                } else if unit == 1 {
                    "MB"
                } else {
                    "GB"
                };
                crate::text::push_str(&mut m, u);
                Ok(m)
            },
        }
    }

    /// "sort [d|s|n]": picks the listing order, or the next one.
    fn cmd_sort(&mut self, parts: &Vec<Vec<char>>) -> (r: Result<String, String>)
        ensures
            sort_outcome(*old(self), *final(self), crate::text::texts(parts@), r),
    {
        let ghost ps = crate::text::texts(parts@);
        proof {
            reveal_strlit("");
        }
        let mode = if parts.len() < 2 {
            self.sort_mode.toggle()
        } else {
            let sub = word_text(&parts[1]);
            proof {
                assert(ps[1] == parts@[1]@);
            }
            let lower = crate::search::to_lowercase(sub.as_str());
            proof {
                assert(lower@ == unicode_lowercase(ps[1]));
                assert(""@ =~= Seq::<char>::empty());
            }
            if crate::model::str_eq(lower.as_str(), "") {
                self.sort_mode.toggle()
            } else if crate::model::str_eq(lower.as_str(), "d") || crate::model::str_eq(lower.as_str(), "delta") {
                SortMode::Delta
            } else if crate::model::str_eq(lower.as_str(), "s") || crate::model::str_eq(lower.as_str(), "size") {
                SortMode::Size
            } else if crate::model::str_eq(lower.as_str(), "n") || crate::model::str_eq(lower.as_str(), "name") {
                SortMode::Name
            } else {
                return Err(concat("unknown sort mode: ", sub.as_str()));
            }
        };
        proof {
            assert(sort_pick(ps, old(self).sort_mode) == Some(mode));
        }
        self.sort_mode = mode;
        self.followup = Followup::ReloadChildren;
        Ok(concat("Sort: ", mode.label()))
    }
}

proof fn lemma_range_separator_bound(s: Seq<char>)
    ensures
        range_separator(s) matches Some(i) ==> 0 <= i && i + 4 <= s.len(),
    decreases s.len(),
{
    if s.len() >= 4 && !(s[0] == ' ' && (s[1] == 't' || s[1] == 'T') && (s[2] == 'o' || s[2] == 'O') && s[3] == ' ') {
        lemma_range_separator_bound(s.drop_first());
    }
}

/// Two-digit clock label "HH:MM".
fn clock_label(h: u32, m: u32) -> (s: String)
    ensures
        s@ == decimal_padded(h as nat, 2) + ":"@ + decimal_padded(m as nat, 2),
{
    let mut s = String::new();
    crate::text::push_decimal_padded(&mut s, h as u64, 2);
    crate::text::push_str(&mut s, ":");
    crate::text::push_decimal_padded(&mut s, m as u64, 2);
    proof {
        assert(s@ =~= decimal_padded(h as nat, 2) + ":"@ + decimal_padded(m as nat, 2));
    }
    s
}

impl CommandState {
    /// "time ARG": a window from ARG up to now.
    fn time_single(&mut self, arg: &Vec<char>) -> (r: Result<String, String>)
        requires
            duration_fits(arg@),
        ensures
            single_outcome(*old(self), *final(self), arg@, r),
    {
        let arg_s = crate::text::string_of(arg.as_slice());
        let parsed = match crate::time_args::parse_single_time_arg(arg_s.as_str()) {
            Err(e) => {
                return Err(e);
            },
            Ok(p) => p,
        };
        let now = crate::time_args::now_in_millis();
        let has_date = parsed.date.is_some();
        let label = if has_date {
            concat(parsed.label.as_str(), " ~ now")
        } else {
            crate::text::string_from(parsed.label.as_str())
        };
        let msg = if has_date {
            concat("time range: ", label.as_str())
        } else {
            concat("time range: in ", label.as_str())
        };
        proof {
            if has_date {
                assert(msg@ =~= "time range: "@ + parsed.label@ + " ~ now"@);
            }
        }
        self.time_from = parsed.ms;
        self.time_to = now;
        self.time_custom = true;
        self.time_custom_label = label;
        self.followup = Followup::RefreshDeltas;
        Ok(msg)
    }

    /// "time FROM to TO", split at `pos` in `rest`.
    fn time_range(&mut self, rest: &Vec<char>, pos: usize) -> (r: Result<String, String>)
        requires
            pos + 4 <= rest@.len(),
            duration_fits(trim(rest@.take(pos as int))),
            time_only(trim(rest@.skip(pos + 4))) || duration_fits(trim(rest@.skip(pos + 4))),
        ensures
            range_outcome(*old(self), *final(self), rest@, pos as int, r),
    {
        let ghost rv = rest@;
        let n = rest.len();
        let left = crate::text::trim_chars(vstd::slice::slice_subrange(rest.as_slice(), 0, pos));
        let right = crate::text::trim_chars(vstd::slice::slice_subrange(rest.as_slice(), pos + 4, n));
        proof {
            assert(rv.subrange(0, pos as int) =~= rv.take(pos as int));
            assert(rv.subrange(pos + 4, rv.len() as int) =~= rv.skip(pos + 4));
        }
        if left.len() == 0 || right.len() == 0 {
            return Err(crate::text::string_from("invalid time range: empty side"));
        }
        let left_s = crate::text::string_of(left.as_slice());
        let right_s = crate::text::string_of(right.as_slice());
        let lp = match crate::time_args::parse_single_time_arg(left_s.as_str()) {
            Err(e) => {
                return Err(e);
            },
            Ok(p) => p,
        };
        let (to_ms, right_label): (u64, String) = if crate::time_args::is_time_only(right_s.as_str()) {
            let (m, d) = match lp.date {
                Some(x) => x,
                None => {
                    return Err(crate::text::string_from("cannot inherit date for time-only right side"));
                },
            };
            let pieces = crate::text::split_chars(right.as_slice(), ':');
            proof {
                assert(crate::text::texts(pieces@)[0] == pieces@[0]@);
                assert(crate::text::texts(pieces@)[1] == pieces@[1]@);
            }
            let h = u32_or_zero(pieces[0].as_slice());
            let mi = u32_or_zero(pieces[1].as_slice());
            proof {
                assert(clock_parts(right@) == (h, mi));
            }
            (crate::time_args::datetime_to_millis(m, d, h, mi), clock_label(h, mi))
        } else {
            match crate::time_args::parse_single_time_arg(right_s.as_str()) {
                Err(e) => {
                    return Err(e);
                },
                Ok(p) => (p.ms, p.label),
            }
        };
        let label = crate::time_args::format_time_label(lp.label.as_str(), right_label.as_str());
        let msg = concat("time range: ", label.as_str());
        proof {
            let lft = trim(rv.take(pos as int));
            let rgt = trim(rv.skip(pos + 4));
            assert(left@ == lft);
            assert(right@ == rgt);
            assert(time_arg_spec(lft) matches Ok(x) && x.1 == lp.label@);
            if time_only(rgt) {
                let (h, mi) = clock_parts(rgt);
                assert(right_label@ == decimal_padded(h as nat, 2) + ":"@ + decimal_padded(mi as nat, 2));
                assert(label@ =~= lp.label@ + " ~ "@ + decimal_padded(h as nat, 2) + ":"@ + decimal_padded(mi as nat, 2));
            }
        }
        self.time_from = lp.ms;
        self.time_to = to_ms;
        self.time_custom = true;
        self.time_custom_label = label;
        self.followup = Followup::RefreshDeltas;
        Ok(msg)
    }

    /// "time [FROM [to TO]]": sets the time window of the changes shown.
    fn cmd_time(&mut self, parts: &Vec<Vec<char>>) -> (r: Result<String, String>)
        requires
            time_args_fit(crate::text::texts(parts@)),
        ensures
            time_outcome(*old(self), *final(self), crate::text::texts(parts@), r),
    {
        let ghost ps = crate::text::texts(parts@);
        if !self.server_mode {
            return Err(crate::text::string_from("not in server mode"));
        }
        if parts.len() < 2 {
            self.mode = AppMode::TimeHelp;
            return Ok(String::new());
        }
        let rest = join_rest(parts);
        proof {
            lemma_range_separator_bound(rest@);
        }
        match find_range_separator(rest.as_slice()) {
            None => {
                proof {
                    assert(ps[1] == parts@[1]@);
                }
                self.time_single(&parts[1])
            },
            Some(pos) => self.time_range(&rest, pos),
        }
    }

    /// "help": opens the help.
    pub fn cmd_help(&mut self) -> (r: Result<String, String>)
        ensures
            r matches Ok(m) && m@ == "help opened"@,
            *final(self) == (CommandState { mode: AppMode::Help, ..*old(self) }),
    {
        self.mode = AppMode::Help;
        Ok(crate::text::string_from("help opened"))
    }

    /// Sets the listing order directly ("sd", "ss", "sn").
    pub fn cmd_sort_quick(&mut self, mode: SortMode, label: &str) -> (r: Result<String, String>)
        ensures
            r matches Ok(m) && m@ == "Sort: "@ + label@,
            *final(self) == (CommandState { sort_mode: mode, followup: Followup::ReloadChildren, ..*old(self) }),
    {
        self.sort_mode = mode;
        self.followup = Followup::ReloadChildren;
        Ok(concat("Sort: ", label))
    }

    /// "scan": refused while a scan runs.
    pub fn cmd_scan(&mut self) -> (r: Result<String, String>)
        ensures
            *final(self) == *old(self),
            old(self).scanning ==> (r matches Err(m) && m@ == "already scanning"@),
            !old(self).scanning ==> (r matches Ok(m) && m@ == "scan started"@),
    {
        if self.scanning {
            return Err(crate::text::string_from("already scanning"));
        }
        Ok(crate::text::string_from("scan started"))
    }

    /// "finder": opens the path finder.
    pub fn cmd_finder(&mut self) -> (r: Result<String, String>)
        ensures
            r matches Ok(m) && m@ == "finder opened"@,
            *final(self) == (CommandState { mode: AppMode::Finder, followup: Followup::OpenFinder, ..*old(self) }),
    {
        self.mode = AppMode::Finder;
        self.followup = Followup::OpenFinder;
        Ok(crate::text::string_from("finder opened"))
    }

    /// "consolidate": asks the daemon to consolidate its records.
    pub fn cmd_consolidate(&mut self) -> (r: Result<String, String>)
        ensures
            *final(self) == *old(self),
            !old(self).server_mode ==> (r matches Err(m) && m@ == "not in server mode"@),
            old(self).server_mode ==> (r matches Ok(m) && m@ == "consolidation requested"@),
    {
        if !self.server_mode {
            return Err(crate::text::string_from("not in server mode"));
        }
        Ok(crate::text::string_from("consolidation requested"))
    }
}

/// The time arguments of a "time" command line fit in 64 bits.
pub open spec fn command_fits(cmd: Seq<char>) -> bool {
    let parts = words(trim(cmd));
    trim(cmd).len() > 0 && named(parts[0], "time"@) ==> time_args_fit(parts)
}

impl CommandState {
    /// Runs a command line: the first word names the command (in any
    /// case), the others are its arguments. Returns the message to show,
    /// or the error.
    pub fn execute_command(&mut self, cmd: &str) -> (r: Result<String, String>)
        requires
            command_fits(cmd@),
        ensures
            command_outcome(*old(self), *final(self), cmd@, r),
    {
        let cs = crate::text::chars_of(cmd);
        let t = crate::text::trim_chars(cs.as_slice());
        if t.len() == 0 {
            return Err(crate::text::string_from("empty command"));
        }
        let parts = crate::text::words_of(t.as_slice());
        proof {
            crate::text::lemma_words_shape(t@);
            crate::text::lemma_trim_end_last(crate::text::trim_start(cmd@));
            assert(crate::text::texts(parts@)[0] == parts@[0]@);
            assert forall|i: int| 0 <= i < parts@.len() implies (#[trigger] parts@[i])@.len() > 0 by {
                assert(crate::text::texts(parts@)[i] == parts@[i]@);
            }
        }
        let name = word_text(&parts[0]);
        let lname = crate::search::to_lowercase(name.as_str());
        let l = lname.as_str();
        if crate::model::str_eq(l, "help") {
            self.cmd_help()
        } else if crate::model::str_eq(l, "delta") {
            self.cmd_delta(&parts)
        } else if crate::model::str_eq(l, "time") {
            self.cmd_time(&parts)
        } else if crate::model::str_eq(l, "sort") || crate::model::str_eq(l, "s") {
            self.cmd_sort(&parts)
        } else if crate::model::str_eq(l, "sd") {
            self.cmd_sort_quick(SortMode::Delta, "Delta")
        } else if crate::model::str_eq(l, "ss") {
            self.cmd_sort_quick(SortMode::Size, "Size")
        } else if crate::model::str_eq(l, "sn") {
            self.cmd_sort_quick(SortMode::Name, "Name")
        } else if crate::model::str_eq(l, "finder") {
            self.cmd_finder()
        } else if crate::model::str_eq(l, "scan") {
            self.cmd_scan()
        } else if crate::model::str_eq(l, "consolidate") {
            self.cmd_consolidate()
        } else {
            Err(concat("unknown command: ", name.as_str()))
        }
    }
}

/// Two texts are equal up to the case of ASCII letters.
pub open spec fn same_ignoring_ascii_case(a: Seq<char>, b: Seq<char>) -> bool {
    a.len() == b.len() && forall|i: int| 0 <= i < a.len() ==> crate::search::ascii_lower(#[trigger] a[i]) == crate::search::ascii_lower(b[i])
}

fn eq_ignore_ascii_case(a: &[char], b: &[char]) -> (r: bool)
    ensures
        r == same_ignoring_ascii_case(a@, b@),
{
    if a.len() != b.len() {
        return false;
    }
    let mut i: usize = 0;
    while i < a.len()
        invariant
            a@.len() == b@.len(),
            i <= a@.len(),
            forall|j: int| 0 <= j < i ==> crate::search::ascii_lower(#[trigger] a@[j]) == crate::search::ascii_lower(b@[j]),
        decreases a@.len() - i,
    {
        if crate::search::lower_exec(a[i]) != crate::search::lower_exec(b[i]) {
            return false;
        }
        i = i + 1;
    }
    true
}

/// What the browser does with an entered command line.
#[derive(Debug, Clone)]
pub enum CommandRun {
    /// Nothing was entered.
    Nothing,
    /// Start a scan.
    StartScan,
    /// Ask the daemon to consolidate its records.
    Consolidate,
    /// Show the message for the given number of seconds.
    Show(String, u64),
}

/// Runs an entered command line: an empty one only clears the command
/// line; any other is recorded in the history; "scan" and "consolidate"
/// (in any ASCII case) are handed to the browser, the latter only in
/// server mode; anything else is run and its message or error shown (for
/// 3 and 4 seconds). The command line is cleared.
pub fn run_command_line(line: &mut crate::browser_state::CommandLine, state: &mut CommandState, cmd: &str) -> (r: CommandRun)
    requires
        old(line).history@.len() <= crate::browser_state::HISTORY_CAP,
        command_fits(trim(cmd@)),
    ensures
        final(line).input@.len() == 0,
        final(line).matches@.len() == 0,
        final(line).selected == 0,
        trim(cmd@).len() == 0 ==> r is Nothing && *final(state) == *old(state) && final(line).history@ == old(line).history@,
        trim(cmd@).len() > 0 ==> {
            &&& crate::browser_state::history_view(final(line).history@) == crate::browser_state::pushed_history(
                crate::browser_state::history_view(old(line).history@),
                cmd@,
            )
            &&& if same_ignoring_ascii_case(trim(cmd@), "Scan"@) {
                r is StartScan && *final(state) == *old(state)
            } else if same_ignoring_ascii_case(trim(cmd@), "Consolidate"@) {
                *final(state) == *old(state) && if old(state).server_mode {
                    r is Consolidate
                } else {
                    r matches CommandRun::Show(m, secs) && m@ == "not in server mode"@ && secs == 3
                }
            } else {
                exists|res: Result<String, String>|
                    command_outcome(*old(state), *final(state), trim(cmd@), res) && match res {
                        Ok(m) => r matches CommandRun::Show(t, secs) && t == m && secs == 3,
                        Err(e) => r matches CommandRun::Show(t, secs) && t == e && secs == 4,
                    }
            }
        },
{
    let cs = crate::text::chars_of(cmd);
    let t = crate::text::trim_chars(cs.as_slice());
    if t.len() == 0 {
        line.clear_command_state();
        return CommandRun::Nothing;
    }
    line.push_command_history(cmd);
    let scan: [char; 4] = ['S', 'c', 'a', 'n'];
    let consolidate: [char; 11] = ['C', 'o', 'n', 's', 'o', 'l', 'i', 'd', 'a', 't', 'e'];
    proof {
        reveal_strlit("Scan");
        reveal_strlit("Consolidate");
        assert(scan@ =~= "Scan"@);
        assert(consolidate@ =~= "Consolidate"@);
    }
    if eq_ignore_ascii_case(t.as_slice(), &scan) {
        line.clear_command_state();
        return CommandRun::StartScan;
    }
    if eq_ignore_ascii_case(t.as_slice(), &consolidate) {
        line.clear_command_state();
        if state.server_mode {
            return CommandRun::Consolidate;
        }
        return CommandRun::Show(crate::text::string_from("not in server mode"), 3);
    }
    let trimmed = crate::text::string_of(t.as_slice());
    let res = state.execute_command(trimmed.as_str());
    line.clear_command_state();
    match res {
        Ok(m) => CommandRun::Show(m, 3),
        Err(e) => CommandRun::Show(e, 4),
    }
}

} // verus!
