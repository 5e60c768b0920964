//! Settings of the terminal browser: key bindings, theme, browsing,
//! daemon access, path labels and AI language; their defaults, and how
//! the values read from the configuration file override them.
use crate::text::string_from;
use vstd::prelude::*;

verus! {

/// Socket path of the monitoring daemon.
pub const DEFAULT_UDS_PATH: &'static str = "/tmp/argusd.sock";

/// Language of AI answers.
#[derive(Debug, Clone)]
pub struct AiConfig {
    pub language: String,
}

/// How to reach the monitoring daemon.
#[derive(Debug, Clone)]
pub struct DaemonAccessConfig {
    pub uds_path: String,
}

/// A user rule giving a label to paths matching a pattern.
#[derive(Debug, Clone)]
pub struct LabelMapping {
    pub pattern: String,
    pub label: String,
}

/// User label rules.
#[derive(Debug, Clone)]
pub struct LabelConfig {
    pub custom_mappings: Vec<LabelMapping>,
}

/// Browsing behaviour.
#[derive(Debug, Clone)]
pub struct BrowsingConfig {
    pub auto_scan_on_start: bool,
}

/// Key bindings.
#[derive(Debug, Clone)]
pub struct Keybindings {
    pub move_up: String,
    pub move_down: String,
    pub enter_dir: String,
    pub leave_dir: String,
    pub sort_toggle: String,
    pub delete_item: String,
    pub focus_panel: String,
    pub quit: String,
    pub help: String,
    pub scan: String,
}

/// Colour scheme and named colours (each name at most once).
#[derive(Debug, Clone)]
pub struct Theme {
    pub color_scheme: String,
    pub colors: Vec<(String, String)>,
}

/// All settings.
#[derive(Debug, Clone)]
pub struct TuiConfig {
    pub keybindings: Keybindings,
    pub theme: Theme,
    pub browsing: BrowsingConfig,
    pub daemon: DaemonAccessConfig,
    pub labels: LabelConfig,
    pub ai: AiConfig,
}

/// Value of the first entry named `key`.
pub open spec fn lookup(colors: Seq<(String, String)>, key: Seq<char>) -> Option<Seq<char>>
    decreases colors.len(),
{
    if colors.len() == 0 {
        None
    } else if colors[0].0@ == key {
        Some(colors[0].1@)
    } else {
        lookup(colors.drop_first(), key)
    }
}

/// Value of the last entry named `key`.
pub open spec fn lookup_last(colors: Seq<(String, String)>, key: Seq<char>) -> Option<Seq<char>>
    decreases colors.len(),
{
    if colors.len() == 0 {
        None
    } else if colors.last().0@ == key {
        Some(colors.last().1@)
    } else {
        lookup_last(colors.drop_last(), key)
    }
}

/// No colour name occurs twice.
pub open spec fn unique_names(colors: Seq<(String, String)>) -> bool {
    forall|i: int, j: int| 0 <= i < j < colors.len() ==> (#[trigger] colors[i]).0@ != (#[trigger] colors[j]).0@
}

impl Default for AiConfig {
    fn default() -> (c: Self)
        ensures
            c.language@ == "en-US"@,
    {
        AiConfig { language: string_from("en-US") }
    }
}

impl Default for DaemonAccessConfig {
    fn default() -> (c: Self)
        ensures
            c.uds_path@ == DEFAULT_UDS_PATH@,
    {
        DaemonAccessConfig { uds_path: string_from(DEFAULT_UDS_PATH) }
    }
}

impl Default for LabelConfig {
    fn default() -> (c: Self)
        ensures
            c.custom_mappings@.len() == 0,
    {
        LabelConfig { custom_mappings: Vec::new() }
    }
}

impl Default for BrowsingConfig {
    fn default() -> (c: Self)
        ensures
            !c.auto_scan_on_start,
    {
        BrowsingConfig { auto_scan_on_start: false }
    }
}

impl Default for Keybindings {
    fn default() -> (k: Self)
        ensures
            k.move_up@ == "k"@,
            k.move_down@ == "j"@,
            k.enter_dir@ == "l"@,
            k.leave_dir@ == "h"@,
            k.sort_toggle@ == "o"@,
            k.delete_item@ == "d"@,
            k.focus_panel@ == "tab"@,
            k.quit@ == "q"@,
            k.help@ == "?"@,
            k.scan@ == "s"@,
    {
        Keybindings {
            move_up: string_from("k"),
            move_down: string_from("j"),
            enter_dir: string_from("l"),
            leave_dir: string_from("h"),
            sort_toggle: string_from("o"),
            delete_item: string_from("d"),
            focus_panel: string_from("tab"),
            quit: string_from("q"),
            help: string_from("?"),
            scan: string_from("s"),
        }
    }
}

/// The default named colours.
pub open spec fn default_colors() -> Seq<(Seq<char>, Seq<char>)> {
    seq![
        ("growth_high"@, "#FF4444"@),
        ("growth_medium"@, "#FF8800"@),
        ("shrink_green"@, "#44FF44"@),
        ("text_primary"@, "#FFFFFF"@),
    ]
}

/// View of a colour list.
pub open spec fn colors_view(colors: Seq<(String, String)>) -> Seq<(Seq<char>, Seq<char>)> {
    colors.map_values(|c: (String, String)| (c.0@, c.1@))
}

impl Default for Theme {
    fn default() -> (t: Self)
        ensures
            t.color_scheme@ == "system"@,
            colors_view(t.colors@) == default_colors(),
            unique_names(t.colors@),
    {
        let mut colors: Vec<(String, String)> = Vec::new();
        colors.push((string_from("growth_high"), string_from("#FF4444")));
        colors.push((string_from("growth_medium"), string_from("#FF8800")));
        colors.push((string_from("shrink_green"), string_from("#44FF44")));
        colors.push((string_from("text_primary"), string_from("#FFFFFF")));
        proof {
            reveal_strlit("growth_high");
            reveal_strlit("growth_medium");
            reveal_strlit("shrink_green");
            reveal_strlit("text_primary");
            assert(colors_view(colors@) =~= default_colors());
            assert("growth_high"@.len() != "growth_medium"@.len());
            assert("growth_high"@[0] != "shrink_green"@[0]);
            assert("growth_high"@[0] != "text_primary"@[0]);
            assert("growth_medium"@[0] != "shrink_green"@[0]);
            assert("growth_medium"@[0] != "text_primary"@[0]);
            assert("shrink_green"@[0] != "text_primary"@[0]);
            assert forall|i: int, j: int| 0 <= i < j < colors@.len() implies (#[trigger] colors@[i]).0@ != (
            #[trigger] colors@[j]).0@ by {
                assert(colors_view(colors@)[i] == (colors@[i].0@, colors@[i].1@));
                assert(colors_view(colors@)[j] == (colors@[j].0@, colors@[j].1@));
            }
        }
        Theme { color_scheme: string_from("system"), colors }
    }
}

impl Default for TuiConfig {
    fn default() -> (c: Self)
        ensures
            c.keybindings.move_up@ == "k"@,
            c.keybindings.move_down@ == "j"@,
            c.keybindings.enter_dir@ == "l"@,
            c.keybindings.leave_dir@ == "h"@,
            c.keybindings.sort_toggle@ == "o"@,
            c.keybindings.delete_item@ == "d"@,
            c.keybindings.focus_panel@ == "tab"@,
            c.keybindings.quit@ == "q"@,
            c.keybindings.help@ == "?"@,
            c.keybindings.scan@ == "s"@,
            c.theme.color_scheme@ == "system"@,
            colors_view(c.theme.colors@) == default_colors(),
            unique_names(c.theme.colors@),
            !c.browsing.auto_scan_on_start,
            c.daemon.uds_path@ == DEFAULT_UDS_PATH@,
            c.labels.custom_mappings@.len() == 0,
            c.ai.language@ == "en-US"@,
    {
        TuiConfig {
            keybindings: Keybindings::default(),
            theme: Theme::default(),
            browsing: BrowsingConfig::default(),
            daemon: DaemonAccessConfig::default(),
            labels: LabelConfig::default(),
            ai: AiConfig::default(),
        }
    }
}

impl Theme {
    /// The colour named `key`, if any.
    pub fn color(&self, key: &str) -> (r: Option<String>)
        ensures
            match r {
                Some(v) => lookup(self.colors@, key@) == Some(v@),
                None => lookup(self.colors@, key@) is None,
            },
    {
        let mut i: usize = 0;
        proof {
            assert(self.colors@.subrange(0, self.colors@.len() as int) =~= self.colors@);
        }
        while i < self.colors.len()
            invariant
                i <= self.colors@.len(),
                lookup(self.colors@, key@) == lookup(self.colors@.subrange(i as int, self.colors@.len() as int), key@),
            decreases self.colors@.len() - i,
        {
            let ghost rest = self.colors@.subrange(i as int, self.colors@.len() as int);
            proof {
                assert(rest[0] == self.colors@[i as int]);
                assert(rest.drop_first() =~= self.colors@.subrange(i + 1, self.colors@.len() as int));
            }
            if crate::model::str_eq(self.colors[i].0.as_str(), key) {
                return Some(self.colors[i].1.clone());
            }
            i = i + 1;
        }
        None
    }
}

/// Key bindings as read from the file; absent keys keep their defaults.
#[derive(Debug, Clone)]
pub struct RawKeybindings {
    pub move_up: Option<String>,
    pub move_down: Option<String>,
    pub enter_dir: Option<String>,
    pub leave_dir: Option<String>,
    pub sort_toggle: Option<String>,
    pub delete_item: Option<String>,
    pub focus_panel: Option<String>,
    pub quit: Option<String>,
}

/// Theme as read from the file.
#[derive(Debug, Clone)]
pub struct RawTheme {
    pub color_scheme: Option<String>,
    pub colors: Option<Vec<(String, String)>>,
}

/// The whole file as read; absent sections keep their defaults.
#[derive(Debug, Clone)]
pub struct RawConfig {
    pub keybindings: Option<RawKeybindings>,
    pub theme: Option<RawTheme>,
    pub auto_scan_on_start: Option<Option<bool>>,
    pub uds_path: Option<Option<String>>,
    pub custom_mappings: Option<Option<Vec<LabelMapping>>>,
    pub language: Option<Option<String>>,
}

/// Text of an overriding value, or the default.
pub open spec fn or_default(v: Option<String>, d: Seq<char>) -> Seq<char> {
    match v {
        Some(s) => s@,
        None => d,
    }
}

/// Optional value inside an optional section.
pub open spec fn inner<T>(v: Option<Option<T>>) -> Option<T> {
    match v {
        Some(Some(x)) => Some(x),
        _ => None,
    }
}

/// The colours after the file's colours are added over the current ones:
/// each name takes the file's (last) value when the file gives one.
pub open spec fn merged_color(base: Seq<(String, String)>, extra: Seq<(String, String)>, key: Seq<char>) -> Option<Seq<char>> {
    match lookup_last(extra, key) {
        Some(v) => Some(v),
        None => lookup(base, key),
    }
}

fn take_or(v: &Option<String>, d: String) -> (s: String)
    ensures
        s@ == or_default(*v, d@),
{
    match v {
        Some(x) => x.clone(),
        None => d,
    }
}

/// Sets `key` to `value`: replaces the entry with that name, or appends one.
fn set_color(colors: &mut Vec<(String, String)>, key: &String, value: &String)
    requires
        unique_names(old(colors)@),
    ensures
        unique_names(final(colors)@),
        forall|k: Seq<char>| #[trigger] lookup(final(colors)@, k) == if k == key@ {
            Some(value@)
        } else {
            lookup(old(colors)@, k)
        },
{
    let ghost orig = colors@;
    let mut i: usize = 0;
    while i < colors.len()
        invariant
            colors@ == orig,
            orig == old(colors)@,
            unique_names(orig),
            i <= orig.len(),
            forall|j: int| 0 <= j < i ==> (#[trigger] orig[j]).0@ != key@,
        decreases orig.len() - i,
    {
        if crate::model::str_eq(colors[i].0.as_str(), key.as_str()) {
            let entry = (colors[i].0.clone(), value.clone());
            colors.set(i, entry);
            proof {
                assert(entry.0@ == key@);
                assert(colors@ == orig.update(i as int, entry));
                assert forall|a: int, b: int| 0 <= a < b < colors@.len() implies (#[trigger] colors@[a]).0@ != (
                #[trigger] colors@[b]).0@ by {
                    assert(orig[a].0@ != orig[b].0@);
                }
                assert forall|k: Seq<char>| #[trigger] lookup(colors@, k) == if k == key@ {
                    Some(value@)
                } else {
                    lookup(orig, k)
                } by {
                    lemma_lookup_set(orig, i as int, entry, k);
                }
            }
            return;
        }
        i = i + 1;
    }
    let entry = (key.clone(), value.clone());
    proof {
        assert forall|k: Seq<char>| #[trigger] lookup(orig.push(entry), k) == if k == key@ {
            Some(value@)
        } else {
            lookup(orig, k)
        } by {
            lemma_lookup_push(orig, entry, k);
        }
    }
    colors.push(entry);
}

proof fn lemma_lookup_push(s: Seq<(String, String)>, e: (String, String), k: Seq<char>)
    requires
        forall|j: int| 0 <= j < s.len() ==> (#[trigger] s[j]).0@ != e.0@,
    ensures
        lookup(s.push(e), k) == if k == e.0@ {
            Some(e.1@)
        } else {
            lookup(s, k)
        },
    decreases s.len(),
{
    reveal_with_fuel(lookup, 2);
    assert(s.push(e)[0] == if s.len() > 0 {
        s[0]
    } else {
        e
    });
    if s.len() > 0 {
        assert(s.push(e).drop_first() =~= s.drop_first().push(e));
        assert(s[0].0@ != e.0@);
        assert forall|j: int| 0 <= j < s.drop_first().len() implies (#[trigger] s.drop_first()[j]).0@ != e.0@ by {
            assert(s.drop_first()[j] == s[j + 1]);
        }
        lemma_lookup_push(s.drop_first(), e, k);
    } else {
        assert(s.push(e).drop_first() =~= Seq::<(String, String)>::empty());
    }
}

proof fn lemma_lookup_set(s: Seq<(String, String)>, i: int, e: (String, String), k: Seq<char>)
    requires
        0 <= i < s.len(),
        s[i].0@ == e.0@,
        unique_names(s),
    ensures
        lookup(s.update(i, e), k) == if k == e.0@ {
            Some(e.1@)
        } else {
            lookup(s, k)
        },
    decreases s.len(),
{
    if i > 0 {
        assert(s.update(i, e).drop_first() =~= s.drop_first().update(i - 1, e));
        assert(s.drop_first()[i - 1] == s[i]);
        assert forall|a: int, b: int| 0 <= a < b < s.drop_first().len() implies (#[trigger] s.drop_first()[a]).0@ != (
        #[trigger] s.drop_first()[b]).0@ by {
            assert(s.drop_first()[a] == s[a + 1]);
            assert(s.drop_first()[b] == s[b + 1]);
        }
        assert(s[0].0@ != s[i].0@);
        lemma_lookup_set(s.drop_first(), i - 1, e, k);
    } else {
        assert(s.update(0, e).drop_first() =~= s.drop_first());
        if k == e.0@ {
        } else {
        }
    }
}

/// Adds the file's colours over `colors`, in order.
fn extend_colors(colors: &mut Vec<(String, String)>, extra: &Vec<(String, String)>)
    requires
        unique_names(old(colors)@),
    ensures
        unique_names(final(colors)@),
        forall|k: Seq<char>| #[trigger] lookup(final(colors)@, k) == merged_color(old(colors)@, extra@, k),
{
    let ghost orig = colors@;
    let mut i: usize = 0;
    proof {
        assert forall|k: Seq<char>| #[trigger] lookup(colors@, k) == merged_color(orig, extra@.take(0), k) by {
            assert(extra@.take(0).len() == 0);
        }
    }
    while i < extra.len()
        invariant
            i <= extra@.len(),
            unique_names(colors@),
            forall|k: Seq<char>| #[trigger] lookup(colors@, k) == merged_color(orig, extra@.take(i as int), k),
        decreases extra@.len() - i,
    {
        let ghost before = colors@;
        set_color(colors, &extra[i].0, &extra[i].1);
        proof {
            let t = extra@.take(i + 1);
            assert(t.drop_last() =~= extra@.take(i as int));
            assert(t.last() == extra@[i as int]);
            assert forall|k: Seq<char>| #[trigger] lookup(colors@, k) == merged_color(orig, t, k) by {
                assert(lookup(before, k) == merged_color(orig, extra@.take(i as int), k));
            }
        }
        i = i + 1;
    }
    proof {
        assert(extra@.take(extra@.len() as int) =~= extra@);
    }
}

/// The settings after applying what the file gives over the defaults.
pub open spec fn applied(c: TuiConfig, raw: RawConfig) -> bool {
    let kb = raw.keybindings;
    &&& c.keybindings.move_up@ == or_default(match kb { Some(k) => k.move_up, None => None }, "k"@)
    &&& c.keybindings.move_down@ == or_default(match kb { Some(k) => k.move_down, None => None }, "j"@)
    &&& c.keybindings.enter_dir@ == or_default(match kb { Some(k) => k.enter_dir, None => None }, "l"@)
    &&& c.keybindings.leave_dir@ == or_default(match kb { Some(k) => k.leave_dir, None => None }, "h"@)
    &&& c.keybindings.sort_toggle@ == or_default(match kb { Some(k) => k.sort_toggle, None => None }, "o"@)
    &&& c.keybindings.delete_item@ == or_default(match kb { Some(k) => k.delete_item, None => None }, "d"@)
    &&& c.keybindings.focus_panel@ == or_default(match kb { Some(k) => k.focus_panel, None => None }, "tab"@)
    &&& c.keybindings.quit@ == or_default(match kb { Some(k) => k.quit, None => None }, "q"@)
    &&& c.keybindings.help@ == "?"@
    &&& c.keybindings.scan@ == "s"@
    &&& c.theme.color_scheme@ == or_default(match raw.theme { Some(t) => t.color_scheme, None => None }, "system"@)
    &&& unique_names(c.theme.colors@)
    &&& forall|k: Seq<char>| #[trigger] lookup(c.theme.colors@, k) == match raw.theme {
        Some(RawTheme { colors: Some(extra), .. }) => match lookup_last(extra@, k) {
            Some(v) => Some(v),
            None => default_lookup(k),
        },
        _ => default_lookup(k),
    }
    &&& c.browsing.auto_scan_on_start == match inner(raw.auto_scan_on_start) { Some(b) => b, None => false }
    &&& c.daemon.uds_path@ == or_default(inner(raw.uds_path), DEFAULT_UDS_PATH@)
    &&& c.labels.custom_mappings@.len() == match inner(raw.custom_mappings) { Some(m) => m@.len(), None => 0 }
    &&& (inner(raw.custom_mappings) matches Some(m) ==> forall|i: int| 0 <= i < m@.len() ==> (#[trigger] c.labels.custom_mappings@[i]).pattern@
        == m@[i].pattern@ && c.labels.custom_mappings@[i].label@ == m@[i].label@)
    &&& c.ai.language@ == or_default(inner(raw.language), "en-US"@)
}

/// The default value of a named colour.
pub open spec fn default_lookup(k: Seq<char>) -> Option<Seq<char>> {
    if k == "growth_high"@ {
        Some("#FF4444"@)
    } else if k == "growth_medium"@ {
        Some("#FF8800"@)
    } else if k == "shrink_green"@ {
        Some("#44FF44"@)
    } else if k == "text_primary"@ {
        Some("#FFFFFF"@)
    } else {
        None
    }
}

proof fn lemma_default_lookup(colors: Seq<(String, String)>, k: Seq<char>)
    requires
        colors_view(colors) == default_colors(),
    ensures
        lookup(colors, k) == default_lookup(k),
{
    reveal_strlit("growth_high");
    reveal_strlit("growth_medium");
    reveal_strlit("shrink_green");
    reveal_strlit("text_primary");
    reveal_with_fuel(lookup, 5);
    assert(colors_view(colors).len() == colors.len());
    assert(colors.len() == 4);
    assert(colors_view(colors)[0] == (colors[0].0@, colors[0].1@));
    assert(colors_view(colors)[1] == (colors[1].0@, colors[1].1@));
    assert(colors_view(colors)[2] == (colors[2].0@, colors[2].1@));
    assert(colors_view(colors)[3] == (colors[3].0@, colors[3].1@));
    assert(colors[0].0@ == "growth_high"@ && colors[0].1@ == "#FF4444"@);
    assert(colors[1].0@ == "growth_medium"@ && colors[1].1@ == "#FF8800"@);
    assert(colors[2].0@ == "shrink_green"@ && colors[2].1@ == "#44FF44"@);
    assert(colors[3].0@ == "text_primary"@ && colors[3].1@ == "#FFFFFF"@);
    let c1 = colors.drop_first();
    let c2 = c1.drop_first();
    let c3 = c2.drop_first();
    let c4 = c3.drop_first();
    assert(c1[0] == colors[1]);
    assert(c2[0] == colors[2]);
    assert(c3[0] == colors[3]);
    assert(c4.len() == 0);
}

fn clone_mappings(v: &Vec<LabelMapping>) -> (r: Vec<LabelMapping>)
    ensures
        r@.len() == v@.len(),
        forall|i: int| 0 <= i < v@.len() ==> (#[trigger] r@[i]).pattern@ == v@[i].pattern@ && r@[i].label@ == v@[i].label@,
{
    let mut r: Vec<LabelMapping> = Vec::new();
    let mut i: usize = 0;
    while i < v.len()
        invariant
            i <= v@.len(),
            r@.len() == i,
            forall|j: int| 0 <= j < i ==> (#[trigger] r@[j]).pattern@ == v@[j].pattern@ && r@[j].label@ == v@[j].label@,
        decreases v@.len() - i,
    {
        r.push(LabelMapping { pattern: v[i].pattern.clone(), label: v[i].label.clone() });
        i = i + 1;
    }
    r
}

/// The settings from what the configuration file gives: every value it
/// gives replaces the default; named colours are added over the defaults.
pub fn apply_raw_config(raw: &RawConfig) -> (c: TuiConfig)
    ensures
        applied(c, *raw),
{
    let mut c = TuiConfig::default();
    proof {
        assert forall|k: Seq<char>| #[trigger] lookup(c.theme.colors@, k) == default_lookup(k) by {
            lemma_default_lookup(c.theme.colors@, k);
        }
    }
    if let Some(kb) = &raw.keybindings {
        c.keybindings.move_up = take_or(&kb.move_up, c.keybindings.move_up);
        c.keybindings.move_down = take_or(&kb.move_down, c.keybindings.move_down);
        c.keybindings.enter_dir = take_or(&kb.enter_dir, c.keybindings.enter_dir);
        c.keybindings.leave_dir = take_or(&kb.leave_dir, c.keybindings.leave_dir);
        c.keybindings.sort_toggle = take_or(&kb.sort_toggle, c.keybindings.sort_toggle);
        c.keybindings.delete_item = take_or(&kb.delete_item, c.keybindings.delete_item);
        c.keybindings.focus_panel = take_or(&kb.focus_panel, c.keybindings.focus_panel);
        c.keybindings.quit = take_or(&kb.quit, c.keybindings.quit);
    }
    if let Some(th) = &raw.theme {
        c.theme.color_scheme = take_or(&th.color_scheme, c.theme.color_scheme);
        if let Some(extra) = &th.colors {
            let ghost before = c.theme.colors@;
            extend_colors(&mut c.theme.colors, extra);
            proof {
                assert forall|k: Seq<char>| #[trigger] lookup(c.theme.colors@, k) == match lookup_last(extra@, k) {
                    Some(v) => Some(v),
                    None => default_lookup(k),
                } by {
                    assert(lookup(before, k) == default_lookup(k));
                }
            }
        }
    }
    if let Some(Some(b)) = &raw.auto_scan_on_start {
        c.browsing.auto_scan_on_start = *b;
    }
    if let Some(Some(p)) = &raw.uds_path {
        c.daemon.uds_path = p.clone();
    }
    if let Some(Some(m)) = &raw.custom_mappings {
        c.labels.custom_mappings = clone_mappings(m);
    }
    if let Some(Some(l)) = &raw.language {
        c.ai.language = l.clone();
    }
    c
}

} // verus!
