//! Parts of the browser's state that change by themselves: the delta
//! filter (a value and a unit), the time window and its presets, and the
//! command line with its completions and history.
use crate::search::{is_subsequence, unicode_lowercase};
use crate::text::{trim, string_of, chars_of, trim_chars};
use vstd::prelude::*;

verus! {

/// Filter on the size of changes: shown when active, at `value` units.
#[derive(Debug, Clone)]
pub struct DeltaFilter {
    pub active: bool,
    pub value: u64,
    /// 0 = KB, 1 = MB, 2 = GB.
    pub unit: usize,
}

impl DeltaFilter {
    /// The filter at start: inactive, 100 MB.
    pub fn new() -> (f: Self)
        ensures
            !f.active && f.value == 100 && f.unit == 1,
    {
        DeltaFilter { active: false, value: 100, unit: 1 }
    }

    /// One step up; past 1024 the value restarts at 1 in the next unit,
    /// except in the largest unit.
    pub fn inc(&mut self)
        requires
            old(self).value < u64::MAX,
        ensures
            final(self).active == old(self).active,
            if old(self).value + 1 > 1024 && old(self).unit < 2 {
                final(self).value == 1 && final(self).unit == old(self).unit + 1
            } else {
                final(self).value == old(self).value + 1 && final(self).unit == old(self).unit
            },
    {
        self.value = self.value + 1;
        if self.value > 1024 && self.unit < 2 {
            self.value = 1;
            self.unit = self.unit + 1;
        }
    }

    /// One step down, not below 0.
    pub fn dec(&mut self)
        ensures
            final(self).active == old(self).active,
            final(self).unit == old(self).unit,
            final(self).value == if old(self).value > 0 {
                (old(self).value - 1) as u64
            } else {
                0
            },
    {
        if self.value > 0 {
            self.value = self.value - 1;
        }
    }

    /// Next unit: KB, MB, GB, then KB again.
    pub fn cycle_unit(&mut self)
        requires
            old(self).unit < usize::MAX,
        ensures
            final(self).active == old(self).active,
            final(self).value == old(self).value,
            final(self).unit == (old(self).unit + 1) % 3,
    {
        self.unit = (self.unit + 1) % 3;
    }

    /// Back to the filter at start.
    pub fn clear(&mut self)
        ensures
            !final(self).active && final(self).value == 100 && final(self).unit == 1,
    {
        self.active = false;
        self.value = 100;
        self.unit = 1;
    }
}

/// Number of time presets.
pub const TIME_PRESETS: usize = 6;

/// Span of a time preset in milliseconds (1h, 6h, 12h, 1d, 3d, 7d; 1h for
/// any other index).
pub open spec fn preset_span(preset: usize) -> u64 {
    if preset == 0 {
        3_600_000
    } else if preset == 1 {
        21_600_000
    } else if preset == 2 {
        43_200_000
    } else if preset == 3 {
        86_400_000
    } else if preset == 4 {
        259_200_000
    } else if preset == 5 {
        604_800_000
    } else {
        3_600_000
    }
}

/// Label of a time preset.
pub open spec fn preset_label(preset: usize) -> Seq<char> {
    if preset == 0 {
        "1h"@
    } else if preset == 1 {
        "6h"@
    } else if preset == 2 {
        "12h"@
    } else if preset == 3 {
        "1d"@
    } else if preset == 4 {
        "3d"@
    } else if preset == 5 {
        "7d"@
    } else {
        "1h"@
    }
}

fn preset_span_exec(preset: usize) -> (s: u64)
    ensures
        s == preset_span(preset),
{
    if preset == 0 {
        3_600_000
    } else if preset == 1 {
        21_600_000
    } else if preset == 2 {
        43_200_000
    } else if preset == 3 {
        86_400_000
    } else if preset == 4 {
        259_200_000
    } else if preset == 5 {
        604_800_000
    } else {
        3_600_000
    }
}

/// Label of a time preset.
pub fn time_preset_label(preset: usize) -> (s: &'static str)
    ensures
        s@ == preset_label(preset),
{
    if preset == 0 {
        "1h"
    } else if preset == 1 {
        "6h"
    } else if preset == 2 {
        "12h"
    } else if preset == 3 {
        "1d"
    } else if preset == 4 {
        "3d"
    } else if preset == 5 {
        "7d"
    } else {
        "1h"
    }
}

/// The time window of the changes shown.
#[derive(Debug, Clone)]
pub struct TimeWindow {
    pub from: u64,
    pub to: u64,
    pub preset: usize,
    pub custom: bool,
    pub custom_label: String,
}

impl TimeWindow {
    /// An empty window on preset 0.
    pub fn new() -> (w: Self)
        ensures
            w.from == 0 && w.to == 0 && w.preset == 0 && !w.custom && w.custom_label@.len() == 0,
    {
        TimeWindow { from: 0, to: 0, preset: 0, custom: false, custom_label: String::new() }
    }

    /// The window of a preset ending at `now` (milliseconds since the
    /// epoch): it starts the preset's span earlier, at the epoch at most.
    pub fn set_preset_at(&mut self, preset: usize, now: u64)
        ensures
            !final(self).custom,
            final(self).custom_label@.len() == 0,
            final(self).to == now,
            final(self).preset == preset,
            final(self).from == if preset_span(preset) <= now {
                (now - preset_span(preset)) as u64
            } else {
                0
            },
    {
        self.custom = false;
        self.custom_label = String::new();
        self.to = now;
        self.preset = preset;
        self.from = now.saturating_sub(preset_span_exec(preset));
    }

    /// The window of a preset ending now.
    pub fn set_time_preset(&mut self, preset: usize)
        ensures
            !final(self).custom,
            final(self).custom_label@.len() == 0,
            final(self).preset == preset,
            final(self).from == if preset_span(preset) <= final(self).to {
                (final(self).to - preset_span(preset)) as u64
            } else {
                0
            },
    {
        let now = crate::time_args::now_in_millis();
        self.set_preset_at(preset, now);
    }

    /// The default window: the first preset ending now.
    pub fn default_time_range(&mut self)
        ensures
            !final(self).custom,
            final(self).custom_label@.len() == 0,
            final(self).preset == 0,
            final(self).from == if preset_span(0) <= final(self).to {
                (final(self).to - preset_span(0)) as u64
            } else {
                0
            },
    {
        self.set_time_preset(0);
    }
}

/// Names of the commands of the command line.
pub open spec fn command_names() -> Seq<Seq<char>> {
    seq![
        "Clean"@,
        "Consolidate"@,
        "Delta"@,
        "Finder"@,
        "Help"@,
        "Purge"@,
        "Scan"@,
        "Sort"@,
        "Time"@,
        "Uninstall"@,
    ]
}

/// The commands of the command line.
pub fn commands() -> (v: Vec<&'static str>)
    ensures
        v@.map_values(|s: &str| s@) == command_names(),
{
    let v = vec!["Clean", "Consolidate", "Delta", "Finder", "Help", "Purge", "Scan", "Sort", "Time", "Uninstall"];
    assert(v@.map_values(|s: &str| s@) =~= command_names());
    v
}

/// Most commands kept in the history.
pub const HISTORY_CAP: usize = 50;

/// The command line: what is typed, the matching commands, the selection,
/// and the history of commands run (oldest first).
#[derive(Debug, Clone)]
pub struct CommandLine {
    pub input: String,
    pub matches: Vec<&'static str>,
    pub selected: usize,
    pub scroll: usize,
    pub history: Vec<String>,
    pub history_idx: Option<usize>,
}

/// The commands whose lower-case name contains the lower-case input as a
/// subsequence, in order; all commands for an empty input.
pub open spec fn matching(input: Seq<char>, names: Seq<Seq<char>>) -> Seq<Seq<char>>
    decreases names.len(),
{
    if names.len() == 0 {
        Seq::empty()
    } else {
        matching(input, names.drop_last()) + if input.len() == 0 || is_subsequence(
            unicode_lowercase(input),
            unicode_lowercase(names.last()),
        ) {
            seq![names.last()]
        } else {
            Seq::empty()
        }
    }
}

/// History of texts, as texts.
pub open spec fn history_view(h: Seq<String>) -> Seq<Seq<char>> {
    h.map_values(|s: String| s@)
}

/// The history after running `cmd`: its trimmed text is appended unless it
/// is empty or repeats the last entry; the oldest entry goes when there are
/// more than the cap.
pub open spec fn pushed_history(h: Seq<Seq<char>>, cmd: Seq<char>) -> Seq<Seq<char>> {
    let c = trim(cmd);
    if c.len() == 0 || (h.len() > 0 && h.last() == c) {
        h
    } else if h.len() + 1 > HISTORY_CAP {
        h.push(c).drop_first()
    } else {
        h.push(c)
    }
}

impl CommandLine {
    /// An empty command line.
    pub fn new() -> (c: Self)
        ensures
            c.input@.len() == 0,
            c.matches@.len() == 0,
            c.selected == 0 && c.scroll == 0,
            c.history@.len() == 0,
            c.history_idx is None,
    {
        CommandLine { input: String::new(), matches: Vec::new(), selected: 0, scroll: 0, history: Vec::new(), history_idx: None }
    }

    /// Recomputes the matching commands; the selection goes back to the
    /// first when it falls outside them.
    pub fn update_command_matches(&mut self)
        ensures
            final(self).matches@.map_values(|s: &str| s@) == matching(old(self).input@, command_names()),
            final(self).selected == if old(self).selected >= final(self).matches@.len() {
                0
            } else {
                old(self).selected
            },
            final(self).input@ == old(self).input@,
            history_view(final(self).history@) == history_view(old(self).history@),
    {
        let all = commands();
        let empty = self.input.as_str().is_empty();
        proof {
            if !empty {
                assert(self.input@.len() > 0);
            }
        }
        let lower_input = crate::search::to_lowercase(self.input.as_str());
        let mut out: Vec<&'static str> = Vec::new();
        let mut i: usize = 0;
        proof {
            assert(command_names().take(0) =~= Seq::<Seq<char>>::empty());
            assert(out@.map_values(|s: &str| s@) =~= Seq::<Seq<char>>::empty());
        }
        while i < all.len()
            invariant
                i <= all@.len(),
                all@.map_values(|s: &str| s@) == command_names(),
                empty == (self.input@.len() == 0),
                lower_input@ == unicode_lowercase(self.input@),
                out@.map_values(|s: &str| s@) == matching(self.input@, command_names().take(i as int)),
            decreases all@.len() - i,
        {
            let name = all[i];
            let keep = if empty {
                true
            } else {
                let lower_name = crate::search::to_lowercase(name);
                crate::search::fuzzy_match(lower_input.as_str(), lower_name.as_str())
            };
            proof {
                let t = command_names().take(i + 1);
                assert(t.drop_last() =~= command_names().take(i as int));
                assert(t.last() == all@[i as int]@);
            }
            if keep {
                proof {
                    crate::text::lemma_map_values_push(out@, name, |s: &str| s@);
                }
                out.push(name);
            }
            i = i + 1;
        }
        proof {
            assert(command_names().take(all@.len() as int) =~= command_names());
        }
        self.matches = out;
        if self.selected >= self.matches.len() {
            self.selected = 0;
        }
    }

    /// Empties the input and the matches and resets the selection.
    pub fn clear_command_state(&mut self)
        ensures
            final(self).input@.len() == 0,
            final(self).matches@.len() == 0,
            final(self).selected == 0,
            final(self).scroll == 0,
            history_view(final(self).history@) == history_view(old(self).history@),
            final(self).history@ == old(self).history@,
            final(self).history_idx == old(self).history_idx,
    {
        self.input = String::new();
        self.matches = Vec::new();
        self.selected = 0;
        self.scroll = 0;
    }

    /// Records a command that was run in the history (see
    /// `pushed_history`); the history position is reset when it is added.
    pub fn push_command_history(&mut self, cmd: &str)
        requires
            old(self).history@.len() <= HISTORY_CAP,
        ensures
            history_view(final(self).history@) == pushed_history(history_view(old(self).history@), cmd@),
            final(self).history@.len() <= HISTORY_CAP,
            history_view(final(self).history@) != history_view(old(self).history@) ==> final(self).history_idx is None,
    {
        let cs = chars_of(cmd);
        let t = trim_chars(cs.as_slice());
        let c = string_of(t.as_slice());
        let ghost h = history_view(self.history@);
        if c.as_str().is_empty() {
            return;
        }
        proof {
            assert(c@.len() > 0);
        }
        let n = self.history.len();
        if n > 0 && crate::model::str_eq(self.history[n - 1].as_str(), c.as_str()) {
            proof {
                assert(h.last() == self.history@[n - 1]@);
            }
            return;
        }
        proof {
            if n > 0 {
                assert(h.last() == self.history@[n - 1]@);
            }
            crate::text::lemma_map_values_push(self.history@, c, |s: String| s@);
        }
        self.history.push(c);
        if self.history.len() > HISTORY_CAP {
            let ghost before = self.history@;
            self.history.remove(0);
            proof {
                assert(self.history@ =~= before.drop_first());
                assert(history_view(self.history@) =~= history_view(before).drop_first());
            }
        }
        self.history_idx = None;
    }
}

/// A key pressed on the command line.
#[derive(Debug, Clone, Copy, PartialEq, Eq, Structural)]
pub enum CommandKey {
    Char(char),
    Backspace,
    Tab,
    BackTab,
    Up,
    Down,
    Enter,
    Esc,
    Other,
}

/// What the command line does after a key: stays open, runs a command
/// line (and closes), or closes.
#[derive(Debug, Clone)]
pub enum CommandKeyOutcome {
    Editing,
    Run(String),
    Closed,
}

/// Longest input, in bytes, that typing extends.
pub const INPUT_CAP: usize = 200;

impl CommandLine {
    /// The selection names a match (or is 0), and the history position
    /// names an entry.
    pub open spec fn wf(self) -> bool {
        &&& (self.selected < self.matches@.len() || self.selected == 0)
        &&& (self.history_idx matches Some(i) ==> i < self.history@.len())
    }

    /// `new` is `old` with input `input`, matches recomputed for it, the
    /// selection kept when it still names a match, the history position
    /// `idx`, and the rest unchanged.
    pub open spec fn retyped(old: CommandLine, new: CommandLine, input: Seq<char>, idx: Option<usize>) -> bool {
        &&& new.input@ == input
        &&& new.matches@.map_values(|s: &str| s@) == matching(input, command_names())
        &&& new.selected == if old.selected >= new.matches@.len() {
            0
        } else {
            old.selected
        }
        &&& new.scroll == old.scroll
        &&& new.history@ == old.history@
        &&& new.history_idx == idx
    }

    /// Sets the input and recomputes the matches.
    fn retype(&mut self, input: String, idx: Option<usize>)
        ensures
            Self::retyped(*old(self), *final(self), input@, idx),
    {
        self.input = input;
        self.history_idx = idx;
        self.update_command_matches_keep();
    }

    /// `update_command_matches`, keeping the history.
    fn update_command_matches_keep(&mut self)
        ensures
            final(self).matches@.map_values(|s: &str| s@) == matching(old(self).input@, command_names()),
            final(self).selected == if old(self).selected >= final(self).matches@.len() {
                0
            } else {
                old(self).selected
            },
            final(self).input@ == old(self).input@,
            final(self).input == old(self).input,
            final(self).scroll == old(self).scroll,
            final(self).history@ == old(self).history@,
            final(self).history_idx == old(self).history_idx,
    {
        let mut m = CommandLine {
            input: crate::text::string_from(self.input.as_str()),
            matches: Vec::new(),
            selected: self.selected,
            scroll: 0,
            history: Vec::new(),
            history_idx: None,
        };
        m.update_command_matches();
        self.matches = m.matches;
        self.selected = m.selected;
    }

    /// Handles a key on the command line: typing (up to the input cap),
    /// erasing, cycling through the matches with Tab and Shift-Tab,
    /// walking the history with Up and Down (and 'k' and 'j' once the
    /// input is full), running the selected match or the input with Enter,
    /// and closing with Esc.
    pub fn handle_command_key(&mut self, key: CommandKey) -> (r: CommandKeyOutcome)
        requires
            old(self).wf(),
        ensures
            final(self).wf(),
            ({
                let full = vstd::utf8::encode_utf8(old(self).input@).len() >= INPUT_CAP;
                let up = key == CommandKey::Up || (full && key == CommandKey::Char('k'));
                let down = key == CommandKey::Down || (full && key == CommandKey::Char('j'));
                let hl = old(self).history@.len();
                if key is Char && !full {
                    r is Editing && Self::retyped(*old(self), *final(self), old(self).input@.push(key->0), None)
                } else if key == CommandKey::Backspace {
                    r is Editing && Self::retyped(
                        *old(self),
                        *final(self),
                        if old(self).input@.len() > 0 {
                            old(self).input@.drop_last()
                        } else {
                            old(self).input@
                        },
                        None,
                    )
                } else if (key == CommandKey::Tab || key == CommandKey::BackTab) && old(self).matches@.len() > 0 {
                    let n = old(self).matches@.len();
                    let sel = if key == CommandKey::Tab {
                        (old(self).selected + 1) % (n as int)
                    } else if old(self).selected == 0 {
                        n - 1
                    } else {
                        old(self).selected - 1
                    };
                    &&& r is Editing
                    &&& final(self).selected == sel
                    &&& final(self).input@ == old(self).matches@[sel]@
                    &&& final(self).history_idx is None
                    &&& final(self).matches == old(self).matches
                    &&& final(self).history@ == old(self).history@
                    &&& final(self).scroll == old(self).scroll
                } else if up && hl > 0 {
                    match old(self).history_idx {
                        Some(i) => if i > 0 {
                            r is Editing && Self::retyped(*old(self), *final(self), old(self).history@[i - 1]@, Some((i - 1) as usize))
                        } else {
                            r is Editing && *final(self) == *old(self)
                        },
                        None => r is Editing && Self::retyped(
                            *old(self),
                            *final(self),
                            old(self).history@[hl - 1]@,
                            Some((hl - 1) as usize),
                        ),
                    }
                } else if down && old(self).history_idx is Some {
                    let i = old(self).history_idx->0;
                    if i + 1 < hl {
                        r is Editing && Self::retyped(*old(self), *final(self), old(self).history@[i + 1]@, Some((i + 1) as usize))
                    } else {
                        r is Editing && Self::retyped(*old(self), *final(self), Seq::empty(), None)
                    }
                } else if key == CommandKey::Enter {
                    &&& r matches CommandKeyOutcome::Run(cmd) && cmd@ == if old(self).matches@.len() > 0 {
                        old(self).matches@[old(self).selected as int]@
                    } else {
                        old(self).input@
                    }
                    &&& *final(self) == *old(self)
                } else if key == CommandKey::Esc {
                    &&& r is Closed
                    &&& final(self).input@.len() == 0
                    &&& final(self).matches@.len() == 0
                    &&& final(self).selected == 0
                    &&& final(self).scroll == 0
                    &&& final(self).history@ == old(self).history@
                    &&& final(self).history_idx == old(self).history_idx
                } else {
                    r is Editing && *final(self) == *old(self)
                }
            }),
    {
        let bytes = self.input.as_str().as_bytes();
        let full = bytes.len() >= INPUT_CAP;
        let hl = self.history.len();
        let up = key == CommandKey::Up || (full && key == CommandKey::Char('k'));
        let down = key == CommandKey::Down || (full && key == CommandKey::Char('j'));
        match key {
            CommandKey::Char(c) if !full => {
                let mut input = crate::text::string_from(self.input.as_str());
                crate::text::push_char(&mut input, c);
                self.retype(input, None);
                return CommandKeyOutcome::Editing;
            },
            _ => {},
        }
        if key == CommandKey::Backspace {
            let cs = crate::text::chars_of(self.input.as_str());
            let keep = if cs.len() > 0 {
                cs.len() - 1
            } else {
                0
            };
            let input = crate::text::string_of(vstd::slice::slice_subrange(cs.as_slice(), 0, keep));
            proof {
                if cs@.len() > 0 {
                    assert(input@ =~= cs@.drop_last());
                } else {
                    assert(input@ =~= cs@);
                }
            }
            self.retype(input, None);
            return CommandKeyOutcome::Editing;
        }
        if (key == CommandKey::Tab || key == CommandKey::BackTab) && self.matches.len() > 0 {
            let n = self.matches.len();
            let sel = if key == CommandKey::Tab {
                (self.selected + 1) % n
            } else if self.selected == 0 {
                n - 1
            } else {
                self.selected - 1
            };
            self.selected = sel;
            self.input = crate::text::string_from(self.matches[sel]);
            self.history_idx = None;
            return CommandKeyOutcome::Editing;
        }
        if up && hl > 0 {
            let idx = match self.history_idx {
                Some(i) => {
                    if i > 0 {
                        i - 1
                    } else {
                        return CommandKeyOutcome::Editing;
                    }
                },
                None => hl - 1,
            };
            let input = crate::text::string_from(self.history[idx].as_str());
            self.retype(input, Some(idx));
            return CommandKeyOutcome::Editing;
        }
        if down && self.history_idx.is_some() {
            let i = self.history_idx.unwrap();
            if i + 1 < hl {
                let input = crate::text::string_from(self.history[i + 1].as_str());
                self.retype(input, Some(i + 1));
            } else {
                self.retype(String::new(), None);
            }
            return CommandKeyOutcome::Editing;
        }
        if key == CommandKey::Enter {
            let cmd = if self.matches.len() > 0 {
                crate::text::string_from(self.matches[self.selected])
            } else {
                crate::text::string_from(self.input.as_str())
            };
            return CommandKeyOutcome::Run(cmd);
        }
        if key == CommandKey::Esc {
            self.clear_command_state();
            return CommandKeyOutcome::Closed;
        }
        CommandKeyOutcome::Editing
    }
}

/// A key pressed in the filter pane.
#[derive(Debug, Clone, Copy, PartialEq, Eq, Structural)]
pub enum FilterKey {
    Tab,
    BackTab,
    Char(char),
    Backspace,
    Up,
    Down,
    Enter,
    Esc,
    Other,
}

/// What the browser does after a key in the filter pane.
#[derive(Debug, Clone, Copy, PartialEq, Eq, Structural)]
pub enum FilterPaneAction {
    Nothing,
    /// Filter the listing again.
    RefreshLines,
    /// Switch to the given time preset and fetch its changes.
    SetPreset(usize),
    /// Reset the pane's filters.
    Clear,
    /// Give the focus back to the tree, filtering again first if asked.
    FocusTree(bool),
    Quit,
    /// Open the command line.
    CommandMode,
}

/// `a * 10 + b`, saturating at `u64::MAX`.
pub open spec fn sat_shift_digit(a: u64, b: u64) -> u64 {
    let m = if a * 10 > u64::MAX {
        u64::MAX
    } else {
        (a * 10) as u64
    };
    if m + b > u64::MAX {
        u64::MAX
    } else {
        (m + b) as u64
    }
}

/// Moves the focused field of the filter pane one step (Down or 'j'
/// forward, Up or 'k' back): the time preset cycles (unless a custom time
/// window is set), the value steps up or down, the unit cycles; a value or
/// unit step also turns the filter on.
pub fn adjust_filter_focus(
    focus: crate::display::FilterFocus,
    filter: &mut DeltaFilter,
    time_custom: bool,
    time_preset: usize,
    forward: bool,
) -> (a: FilterPaneAction)
    requires
        focus == crate::display::FilterFocus::DeltaValue && forward ==> old(filter).value < u64::MAX,
        focus == crate::display::FilterFocus::DeltaUnit ==> old(filter).unit < usize::MAX - 1,
        time_preset < usize::MAX - TIME_PRESETS,
    ensures
        match focus {
            crate::display::FilterFocus::TimePreset => *final(filter) == *old(filter) && a == if time_custom {
                FilterPaneAction::Nothing
            } else if forward {
                FilterPaneAction::SetPreset(((time_preset + 1) % TIME_PRESETS as int) as usize)
            } else {
                FilterPaneAction::SetPreset(((time_preset + TIME_PRESETS - 1) % TIME_PRESETS as int) as usize)
            },
            crate::display::FilterFocus::DeltaValue => {
                &&& a == FilterPaneAction::RefreshLines
                &&& final(filter).active
                &&& final(filter).unit == if forward && old(filter).value + 1 > 1024 && old(filter).unit < 2 {
                    (old(filter).unit + 1) as usize
                } else {
                    old(filter).unit
                }
                &&& final(filter).value == if forward {
                    if old(filter).value + 1 > 1024 && old(filter).unit < 2 {
                        1
                    } else {
                        (old(filter).value + 1) as u64
                    }
                } else if old(filter).value > 0 {
                    (old(filter).value - 1) as u64
                } else {
                    0
                }
            },
            crate::display::FilterFocus::DeltaUnit => {
                &&& a == FilterPaneAction::RefreshLines
                &&& final(filter).active
                &&& final(filter).value == old(filter).value
                &&& final(filter).unit == if forward {
                    ((old(filter).unit + 1) % 3) as usize
                } else {
                    ((old(filter).unit + 2) % 3) as usize
                }
            },
        },
{
    match focus {
        crate::display::FilterFocus::TimePreset => {
            if time_custom {
                FilterPaneAction::Nothing
            } else if forward {
                FilterPaneAction::SetPreset((time_preset + 1) % TIME_PRESETS)
            } else {
                FilterPaneAction::SetPreset((time_preset + TIME_PRESETS - 1) % TIME_PRESETS)
            }
        },
        crate::display::FilterFocus::DeltaValue => {
            filter.active = true;
            if forward {
                filter.inc();
            } else {
                filter.dec();
            }
            FilterPaneAction::RefreshLines
        },
        crate::display::FilterFocus::DeltaUnit => {
            filter.active = true;
            if forward {
                filter.cycle_unit();
            } else {
                filter.unit = (filter.unit + 2) % 3;
            }
            FilterPaneAction::RefreshLines
        },
    }
}

/// Handles a key in the filter pane: Tab and Shift-Tab move the focus
/// (skipping the time preset under a custom window); digits type the
/// value (turning the filter on); Backspace erases its last digit
/// (turning the filter off at 0); Down/'j' and Up/'k' adjust the focused
/// field; 'c' clears the pane; Enter and Esc go back to the tree; 'q'
/// quits; ':' opens the command line.
pub fn handle_filter_pane_key(
    key: FilterKey,
    focus: &mut crate::display::FilterFocus,
    filter: &mut DeltaFilter,
    time_custom: bool,
    time_preset: usize,
) -> (a: FilterPaneAction)
    requires
        (key == FilterKey::Down || key == FilterKey::Char('j')) && *old(focus) == crate::display::FilterFocus::DeltaValue
            ==> old(filter).value < u64::MAX,
        *old(focus) == crate::display::FilterFocus::DeltaUnit ==> old(filter).unit < usize::MAX - 1,
        time_preset < usize::MAX - TIME_PRESETS,
    ensures
        (key == FilterKey::Tab || key == FilterKey::Char('\t')) ==> *final(focus) == crate::display::next_focus(
            *old(focus),
            time_custom,
            true,
        ) && *final(filter) == *old(filter) && a == FilterPaneAction::Nothing,
        key == FilterKey::BackTab ==> *final(focus) == crate::display::next_focus(*old(focus), time_custom, false)
            && *final(filter) == *old(filter) && a == FilterPaneAction::Nothing,
        (key is Char && '0' <= key->0 <= '9' && *old(focus) == crate::display::FilterFocus::DeltaValue) ==> {
            let d = (key->0 as u32 - '0' as u32) as u64;
            &&& *final(focus) == *old(focus)
            &&& a == FilterPaneAction::RefreshLines
            &&& final(filter).active
            &&& final(filter).unit == old(filter).unit
            &&& final(filter).value == if old(filter).active {
                sat_shift_digit(old(filter).value, d)
            } else {
                d
            }
        },
        (key == FilterKey::Backspace && *old(focus) == crate::display::FilterFocus::DeltaValue && old(filter).active) ==> {
            &&& *final(focus) == *old(focus)
            &&& a == FilterPaneAction::RefreshLines
            &&& final(filter).value == old(filter).value / 10
            &&& final(filter).active == (old(filter).value / 10 != 0)
            &&& final(filter).unit == old(filter).unit
        },
        key == FilterKey::Char('c') ==> a == FilterPaneAction::Clear && *final(filter) == *old(filter) && *final(focus)
            == *old(focus),
        key == FilterKey::Enter ==> a == FilterPaneAction::FocusTree(
            *old(focus) == crate::display::FilterFocus::DeltaValue && old(filter).active,
        ) && *final(filter) == *old(filter) && *final(focus) == *old(focus),
        key == FilterKey::Esc ==> a == FilterPaneAction::FocusTree(false) && *final(filter) == *old(filter) && *final(focus)
            == *old(focus),
        key == FilterKey::Char('q') ==> a == FilterPaneAction::Quit && *final(filter) == *old(filter),
        key == FilterKey::Char(':') ==> a == FilterPaneAction::CommandMode && *final(filter) == *old(filter),
{
    let skip_time = time_custom;
    match key {
        FilterKey::Tab => {
            *focus = crate::display::cycle_filter_focus(*focus, skip_time, true);
            return FilterPaneAction::Nothing;
        },
        FilterKey::BackTab => {
            *focus = crate::display::cycle_filter_focus(*focus, skip_time, false);
            return FilterPaneAction::Nothing;
        },
        FilterKey::Char(ch) => {
            if ch == '\t' {
                *focus = crate::display::cycle_filter_focus(*focus, skip_time, true);
                return FilterPaneAction::Nothing;
            }
            if '0' <= ch && ch <= '9' && *focus == crate::display::FilterFocus::DeltaValue {
                let digit: u64 = (ch as u32 - '0' as u32) as u64;
                if filter.active {
                    let shifted: u64 = if filter.value > u64::MAX / 10 {
                        u64::MAX
                    } else {
                        filter.value * 10
                    };
                    filter.value = if shifted > u64::MAX - digit {
                        u64::MAX
                    } else {
                        shifted + digit
                    };
                } else {
                    filter.active = true;
                    filter.value = digit;
                }
                return FilterPaneAction::RefreshLines;
            }
            if ch == 'j' {
                return adjust_filter_focus(*focus, filter, time_custom, time_preset, true);
            }
            if ch == 'k' {
                return adjust_filter_focus(*focus, filter, time_custom, time_preset, false);
            }
            if ch == 'c' {
                return FilterPaneAction::Clear;
            }
            if ch == 'q' {
                return FilterPaneAction::Quit;
            }
            if ch == ':' {
                return FilterPaneAction::CommandMode;
            }
            FilterPaneAction::Nothing
        },
        FilterKey::Backspace => {
            if *focus == crate::display::FilterFocus::DeltaValue && filter.active {
                filter.value = filter.value / 10;
                if filter.value == 0 {
                    filter.active = false;
                }
                return FilterPaneAction::RefreshLines;
            }
            FilterPaneAction::Nothing
        },
        FilterKey::Down => adjust_filter_focus(*focus, filter, time_custom, time_preset, true),
        FilterKey::Up => adjust_filter_focus(*focus, filter, time_custom, time_preset, false),
        FilterKey::Enter => FilterPaneAction::FocusTree(*focus == crate::display::FilterFocus::DeltaValue && filter.active),
        FilterKey::Esc => FilterPaneAction::FocusTree(false),
        FilterKey::Other => FilterPaneAction::Nothing,
    }
}

/// No two neighbouring entries are equal.
pub open spec fn no_adjacent_repeats(h: Seq<Seq<char>>) -> bool {
    forall|i: int, j: int| 0 <= i && i + 1 == j && j < h.len() ==> #[trigger] h[i] != #[trigger] h[j]
}

/// The history never grows past its cap and never holds the same command
/// twice in a row, whatever is pushed.
pub proof fn law_history_bounded(h: Seq<Seq<char>>, cmd: Seq<char>)
    requires
        h.len() <= HISTORY_CAP,
        no_adjacent_repeats(h),
    ensures
        pushed_history(h, cmd).len() <= HISTORY_CAP,
        no_adjacent_repeats(pushed_history(h, cmd)),
{
    let p = pushed_history(h, cmd);
    let c = trim(cmd);
    if !(c.len() == 0 || (h.len() > 0 && h.last() == c)) {
        let q = h.push(c);
        assert forall|i: int, j: int| 0 <= i && i + 1 == j && j < q.len() implies #[trigger] q[i] != #[trigger] q[j] by {
            if j < h.len() {
                assert(q[i] == h[i] && q[j] == h[j]);
            } else {
                assert(q[i] == h.last());
            }
        }
        if h.len() + 1 > HISTORY_CAP {
            assert forall|i: int, j: int| 0 <= i && i + 1 == j && j < p.len() implies #[trigger] p[i] != #[trigger] p[j] by {
                assert(p[i] == q[i + 1] && p[j] == q[j + 1]);
            }
        }
    }
}

} // verus!
