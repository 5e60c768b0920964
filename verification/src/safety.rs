//! Deletion safety rules: protected system prefixes and risk levels of paths.
//!
//! Paths are expected in canonical form (the caller resolves symlinks and
//! relative components before asking).
use crate::text::{chars_of, contains_exec, contains_seq, push_str, starts_with, starts_with_exec, string_from};
use vstd::prelude::*;

verus! {

/// How risky deleting something is.
#[derive(Debug, Clone, Copy, PartialEq, Eq, Structural, PartialOrd, Ord)]
pub enum RiskLevel {
    Safe,
    Low,
    Medium,
    High,
}

/// Order of risk levels.
pub open spec fn risk_rank(r: RiskLevel) -> nat {
    match r {
        RiskLevel::Safe => 0,
        RiskLevel::Low => 1,
        RiskLevel::Medium => 2,
        RiskLevel::High => 3,
    }
}

/// The riskier of two levels.
pub open spec fn spec_risk_max(a: RiskLevel, b: RiskLevel) -> RiskLevel {
    if risk_rank(a) >= risk_rank(b) {
        a
    } else {
        b
    }
}

/// The riskier of two levels.
pub fn risk_max(a: RiskLevel, b: RiskLevel) -> (r: RiskLevel)
    ensures
        r == spec_risk_max(a, b),
{
    if a.rank() >= b.rank() {
        a
    } else {
        b
    }
}

impl RiskLevel {
    /// Position in the order Safe < Low < Medium < High.
    pub fn rank(&self) -> (n: u8)
        ensures
            n as nat == risk_rank(*self),
    {
        match self {
            RiskLevel::Safe => 0,
            RiskLevel::Low => 1,
            RiskLevel::Medium => 2,
            RiskLevel::High => 3,
        }
    }

    /// Medium and High deletions need a typed confirmation.
    pub fn requires_typed_confirmation(&self) -> (b: bool)
        ensures
            b == (*self == RiskLevel::Medium || *self == RiskLevel::High),
    {
        match self {
            RiskLevel::Medium | RiskLevel::High => true,
            _ => false,
        }
    }

    pub fn label(&self) -> (s: &'static str)
        ensures
            s@ == risk_label(*self),
    {
        match self {
            RiskLevel::Safe => "safe",
            RiskLevel::Low => "low",
            RiskLevel::Medium => "medium",
            RiskLevel::High => "high",
        }
    }

    /// Inverse of `label`.
    pub fn from_label(s: &str) -> (r: Option<RiskLevel>)
        ensures
            r == spec_from_label(s@),
    {
        let c = chars_of(s);
        if crate::text::chars_eq(c.as_slice(), chars_of("safe").as_slice()) {
            Some(RiskLevel::Safe)
        } else if crate::text::chars_eq(c.as_slice(), chars_of("low").as_slice()) {
            Some(RiskLevel::Low)
        } else if crate::text::chars_eq(c.as_slice(), chars_of("medium").as_slice()) {
            Some(RiskLevel::Medium)
        } else if crate::text::chars_eq(c.as_slice(), chars_of("high").as_slice()) {
            Some(RiskLevel::High)
        } else {
            None
        }
    }
}

/// Label of a risk level.
pub open spec fn risk_label(r: RiskLevel) -> Seq<char> {
    match r {
        RiskLevel::Safe => "safe"@,
        RiskLevel::Low => "low"@,
        RiskLevel::Medium => "medium"@,
        RiskLevel::High => "high"@,
    }
}

/// Risk level of a label.
pub open spec fn spec_from_label(s: Seq<char>) -> Option<RiskLevel> {
    if s == "safe"@ {
        Some(RiskLevel::Safe)
    } else if s == "low"@ {
        Some(RiskLevel::Low)
    } else if s == "medium"@ {
        Some(RiskLevel::Medium)
    } else if s == "high"@ {
        Some(RiskLevel::High)
    } else {
        None
    }
}

/// Reading a label back gives the level.
pub proof fn law_label_roundtrip(r: RiskLevel)
    ensures
        spec_from_label(risk_label(r)) == Some(r),
{
    reveal_strlit("safe");
    reveal_strlit("low");
    reveal_strlit("medium");
    reveal_strlit("high");
    assert("safe"@.len() == 4 && "low"@.len() == 3 && "medium"@.len() == 6 && "high"@.len() == 4);
    assert("safe"@ != "high"@) by {
        assert("safe"@[0] != "high"@[0]);
    }
}

/// Operating system whose protected prefixes apply.
#[derive(Debug, Clone, Copy, PartialEq, Eq, Structural)]
pub enum Platform {
    MacOs,
    Linux,
    Other,
}

/// Protected system prefixes of a platform.
pub open spec fn protected_list(platform: Platform) -> Seq<Seq<char>> {
    match platform {
        Platform::MacOs => seq![
            "/System"@,
            "/System/Volumes"@,
            "/usr/bin"@,
            "/usr/lib"@,
            "/bin"@,
            "/sbin"@,
            "/etc"@,
            "/private/etc"@,
            "/var/db"@,
            "/private/var/db"@,
        ],
        Platform::Linux => seq![
            "/boot"@,
            "/etc"@,
            "/dev"@,
            "/proc"@,
            "/sys"@,
            "/usr/bin"@,
            "/usr/lib"@,
            "/bin"@,
            "/sbin"@,
            "/lib"@,
            "/lib64"@,
        ],
        Platform::Other => Seq::empty(),
    }
}

/// `path` is one of the prefixes or lies below one.
pub open spec fn under_any(path: Seq<char>, prefixes: Seq<Seq<char>>) -> bool {
    exists|i: int| 0 <= i < prefixes.len() && (path == #[trigger] prefixes[i] || starts_with(path, prefixes[i].push('/')))
}

/// Protected system prefixes of a platform.
pub fn protected_prefixes(platform: Platform) -> (v: Vec<&'static str>)
    ensures
        v@.map_values(|s: &str| s@) == protected_list(platform),
{
    let mut v: Vec<&'static str> = Vec::new();
    match platform {
        Platform::MacOs => {
            v.push("/System");
            v.push("/System/Volumes");
            v.push("/usr/bin");
            v.push("/usr/lib");
            v.push("/bin");
            v.push("/sbin");
            v.push("/etc");
            v.push("/private/etc");
            v.push("/var/db");
            v.push("/private/var/db");
            assert(v@.map_values(|s: &str| s@) =~= protected_list(platform));
        },
        Platform::Linux => {
            v.push("/boot");
            v.push("/etc");
            v.push("/dev");
            v.push("/proc");
            v.push("/sys");
            v.push("/usr/bin");
            v.push("/usr/lib");
            v.push("/bin");
            v.push("/sbin");
            v.push("/lib");
            v.push("/lib64");
            assert(v@.map_values(|s: &str| s@) =~= protected_list(platform));
        },
        Platform::Other => {
            assert(v@.map_values(|s: &str| s@) =~= protected_list(platform));
        },
    }
    v
}

/// Whether `path` is one of `prefixes` or lies below one.
pub fn is_under_any(path: &str, prefixes: &Vec<&'static str>) -> (b: bool)
    ensures
        b == under_any(path@, prefixes@.map_values(|s: &str| s@)),
{
    let p = chars_of(path);
    let ghost list = prefixes@.map_values(|s: &str| s@);
    let mut i: usize = 0;
    while i < prefixes.len()
        invariant
            i <= prefixes@.len(),
            p@ == path@,
            list == prefixes@.map_values(|s: &str| s@),
            forall|j: int| 0 <= j < i ==> !(path@ == #[trigger] list[j] || starts_with(path@, list[j].push('/'))),
        decreases prefixes@.len() - i,
    {
        let pre = chars_of(prefixes[i]);
        let mut with_slash = pre.clone();
        with_slash.push('/');
        proof {
            assert(list[i as int] == prefixes@[i as int]@);
            assert(with_slash@ =~= list[i as int].push('/'));
        }
        if crate::text::chars_eq(p.as_slice(), pre.as_slice()) || starts_with_exec(p.as_slice(), with_slash.as_slice()) {
            proof {
                assert(path@ == list[i as int] || starts_with(path@, list[i as int].push('/')));
            }
            return true;
        }
        i = i + 1;
    }
    false
}

/// Whether `path` is, or lies below, a protected prefix of `platform`.
pub fn is_protected_on(platform: Platform, path: &str) -> (b: bool)
    ensures
        b == under_any(path@, protected_list(platform)),
{
    let prefixes = protected_prefixes(platform);
    is_under_any(path, &prefixes)
}

/// System paths the browser refuses to delete from, per platform.
pub open spec fn browser_protected_list(platform: Platform) -> Seq<Seq<char>> {
    match platform {
        Platform::MacOs => seq!["/System"@, "/System/Volumes"@, "/usr/bin"@, "/usr/lib"@, "/bin"@, "/sbin"@, "/etc"@, "/var/db"@],
        _ => seq![
            "/boot"@,
            "/etc"@,
            "/dev"@,
            "/proc"@,
            "/sys"@,
            "/usr/bin"@,
            "/usr/lib"@,
            "/bin"@,
            "/sbin"@,
            "/lib"@,
            "/lib64"@,
        ],
    }
}

fn browser_protected_prefixes(platform: Platform) -> (v: Vec<&'static str>)
    ensures
        v@.map_values(|s: &str| s@) == browser_protected_list(platform),
{
    let mut v: Vec<&'static str> = Vec::new();
    match platform {
        Platform::MacOs => {
            v.push("/System");
            v.push("/System/Volumes");
            v.push("/usr/bin");
            v.push("/usr/lib");
            v.push("/bin");
            v.push("/sbin");
            v.push("/etc");
            v.push("/var/db");
            assert(v@.map_values(|s: &str| s@) =~= browser_protected_list(platform));
        },
        _ => {
            v.push("/boot");
            v.push("/etc");
            v.push("/dev");
            v.push("/proc");
            v.push("/sys");
            v.push("/usr/bin");
            v.push("/usr/lib");
            v.push("/bin");
            v.push("/sbin");
            v.push("/lib");
            v.push("/lib64");
            assert(v@.map_values(|s: &str| s@) =~= browser_protected_list(platform));
        },
    }
    v
}

/// Whether the browser must refuse to delete `canonical_path` (the path
/// after resolving links; the caller resolves it, or passes it unchanged
/// when it cannot be resolved).
pub fn is_protected_path(platform: Platform, canonical_path: &str) -> (b: bool)
    ensures
        b == under_any(canonical_path@, browser_protected_list(platform)),
{
    let prefixes = browser_protected_prefixes(platform);
    is_under_any(canonical_path, &prefixes)
}

/// Whether `canonical_path` is, or lies below, a protected prefix of the
/// platform the program runs on. The path is the one after resolving
/// links (the caller resolves it, or passes it unchanged when it cannot be
/// resolved); prefixes match whole components only.
pub fn is_protected(platform: Platform, canonical_path: &str) -> (b: bool)
    ensures
        b == under_any(canonical_path@, protected_list(platform)),
{
    is_protected_on(platform, canonical_path)
}

/// Risk of deleting `path`, given the user's home directory.
pub open spec fn risk_of(platform: Platform, path: Seq<char>, home: Option<Seq<char>>) -> RiskLevel {
    if under_any(path, protected_list(platform)) {
        RiskLevel::High
    } else {
        match home {
            None => RiskLevel::Medium,
            Some(h) => {
                if !starts_with(path, h) {
                    if starts_with(path, "/var/tmp"@) || starts_with(path, "/tmp"@) || starts_with(path, "/Library"@) {
                        RiskLevel::Medium
                    } else {
                        RiskLevel::Low
                    }
                } else if contains_seq(path, "/Library/"@) {
                    if contains_seq(path, "/Caches"@) || contains_seq(path, "/Logs"@) || contains_seq(path, "/Temp"@)
                        || contains_seq(path, "/Trash"@) {
                        RiskLevel::Low
                    } else if contains_seq(path, "/Application Support"@) || contains_seq(path, "/Preferences"@) {
                        RiskLevel::Medium
                    } else {
                        RiskLevel::Low
                    }
                } else {
                    RiskLevel::Safe
                }
            },
        }
    }
}

fn has(hay: &Vec<char>, needle: &str) -> (b: bool)
    ensures
        b == contains_seq(hay@, needle@),
{
    contains_exec(hay.as_slice(), chars_of(needle).as_slice())
}

fn begins(hay: &Vec<char>, prefix: &str) -> (b: bool)
    ensures
        b == starts_with(hay@, prefix@),
{
    starts_with_exec(hay.as_slice(), chars_of(prefix).as_slice())
}

/// Risk of deleting the (canonical) `path` on `platform`; `home` is the
/// user's home directory when known.
pub fn classify_risk(platform: Platform, path: &str, home: Option<&str>) -> (r: RiskLevel)
    ensures
        r == risk_of(
            platform,
            path@,
            match home {
                Some(h) => Some(h@),
                None => None,
            },
        ),
{
    if is_protected(platform, path) {
        return RiskLevel::High;
    }
    let h = match home {
        Some(h) => h,
        None => return RiskLevel::Medium,
    };
    let p = chars_of(path);
    if !begins(&p, h) {
        if begins(&p, "/var/tmp") || begins(&p, "/tmp") || begins(&p, "/Library") {
            return RiskLevel::Medium;
        }
        return RiskLevel::Low;
    }
    if has(&p, "/Library/") {
        if has(&p, "/Caches") || has(&p, "/Logs") || has(&p, "/Temp") || has(&p, "/Trash") {
            return RiskLevel::Low;
        }
        if has(&p, "/Application Support") || has(&p, "/Preferences") {
            return RiskLevel::Medium;
        }
        return RiskLevel::Low;
    }
    RiskLevel::Safe
}

/// Scratch data in an application library under the home directory (a
/// path holding "/Library/" and one of "/Caches", "/Logs", "/Temp",
/// "/Trash") is Low risk, unless the path is protected: it needs no typed
/// confirmation.
pub proof fn law_library_scratch_is_low(platform: Platform, path: Seq<char>, home: Seq<char>)
    requires
        !under_any(path, protected_list(platform)),
        starts_with(path, home),
        contains_seq(path, "/Library/"@),
        contains_seq(path, "/Caches"@) || contains_seq(path, "/Logs"@) || contains_seq(path, "/Temp"@)
            || contains_seq(path, "/Trash"@),
    ensures
        risk_of(platform, path, Some(home)) == RiskLevel::Low,
        !(risk_of(platform, path, Some(home)) == RiskLevel::Medium || risk_of(platform, path, Some(home)) == RiskLevel::High),
{
}

/// The risk classes of a path: protected paths are High; without a home
/// directory everything else is Medium; outside the home directory the
/// shared scratch places (/var/tmp, /tmp, /Library) are Medium and the
/// rest Low; inside it, an application library's settings (Application
/// Support, Preferences, with no scratch marker) are Medium, the rest of
/// an application library Low, and everything else Safe.
pub proof fn law_risk_classes(platform: Platform, path: Seq<char>, home: Seq<char>)
    ensures
        under_any(path, protected_list(platform)) ==> risk_of(platform, path, Some(home)) == RiskLevel::High
            && risk_of(platform, path, None) == RiskLevel::High,
        !under_any(path, protected_list(platform)) ==> risk_of(platform, path, None) == RiskLevel::Medium,
        !under_any(path, protected_list(platform)) && !starts_with(path, home) ==> risk_of(platform, path, Some(home))
            == if starts_with(path, "/var/tmp"@) || starts_with(path, "/tmp"@) || starts_with(path, "/Library"@) {
            RiskLevel::Medium
        } else {
            RiskLevel::Low
        },
        !under_any(path, protected_list(platform)) && starts_with(path, home) && !contains_seq(path, "/Library/"@)
            ==> risk_of(platform, path, Some(home)) == RiskLevel::Safe,
        !under_any(path, protected_list(platform)) && starts_with(path, home) && contains_seq(path, "/Library/"@)
            ==> risk_of(platform, path, Some(home)) == if contains_seq(path, "/Caches"@) || contains_seq(path, "/Logs"@)
            || contains_seq(path, "/Temp"@) || contains_seq(path, "/Trash"@) {
            RiskLevel::Low
        } else if contains_seq(path, "/Application Support"@) || contains_seq(path, "/Preferences"@) {
            RiskLevel::Medium
        } else {
            RiskLevel::Low
        },
{
}

/// `Err` with a message naming the path exactly when the (canonical)
/// path is protected on `platform`.
pub fn check_deletion_allowed(platform: Platform, path: &str) -> (r: Result<(), String>)
    ensures
        r is Err <==> under_any(path@, protected_list(platform)),
        r matches Err(m) ==> m@ == "path is protected: "@ + path@,
{
    if is_protected(platform, path) {
        let mut m = string_from("path is protected: ");
        push_str(&mut m, path);
        return Err(m);
    }
    Ok(())
}

} // verus!
