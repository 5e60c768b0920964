//! Cleanup targets (well-known cache and log locations), cleanup plans and
//! reports, build-artifact kinds, and maintenance commands.
use crate::paths::{join, join_spec};
use crate::safety::{classify_risk, risk_max, risk_of, spec_risk_max, Platform, RiskLevel};
use crate::text::{lemma_map_values_push, string_from};
use vstd::prelude::*;

verus! {

/// Group of a cleanup target.
#[derive(Debug, Clone, Copy, PartialEq, Eq, Structural)]
pub enum TargetCategory {
    AppCache,
    BrowserCache,
    DevTools,
    DevApps,
    SystemLogs,
    SystemCache,
    TempFiles,
    Trash,
    UserData,
    CloudStorage,
    Office,
    VMTools,
    AppSupport,
    UninstalledData,
    IosBackup,
    TimeMachine,
}

/// Display label of a category.
pub open spec fn category_label(c: TargetCategory) -> Seq<char> {
    match c {
        TargetCategory::AppCache => "App Cache"@,
        TargetCategory::BrowserCache => "Browser Cache"@,
        TargetCategory::DevTools => "Developer Tools"@,
        TargetCategory::DevApps => "Development Applications"@,
        TargetCategory::SystemLogs => "System Logs"@,
        TargetCategory::SystemCache => "macOS System Caches"@,
        TargetCategory::TempFiles => "Temp Files"@,
        TargetCategory::Trash => "Trash"@,
        TargetCategory::UserData => "User Essentials"@,
        TargetCategory::CloudStorage => "Cloud Storage"@,
        TargetCategory::Office => "Office Applications"@,
        TargetCategory::VMTools => "Virtual Machine Tools"@,
        TargetCategory::AppSupport => "Application Support"@,
        TargetCategory::UninstalledData => "Uninstalled App Data"@,
        TargetCategory::IosBackup => "iOS Device Backups"@,
        TargetCategory::TimeMachine => "Time Machine"@,
    }
}

impl TargetCategory {
    pub fn label(&self) -> (s: &'static str)
        ensures
            s@ == category_label(*self),
    {
        match self {
            TargetCategory::AppCache => "App Cache",
            TargetCategory::BrowserCache => "Browser Cache",
            TargetCategory::DevTools => "Developer Tools",
            TargetCategory::DevApps => "Development Applications",
            TargetCategory::SystemLogs => "System Logs",
            TargetCategory::SystemCache => "macOS System Caches",
            TargetCategory::TempFiles => "Temp Files",
            TargetCategory::Trash => "Trash",
            TargetCategory::UserData => "User Essentials",
            TargetCategory::CloudStorage => "Cloud Storage",
            TargetCategory::Office => "Office Applications",
            TargetCategory::VMTools => "Virtual Machine Tools",
            TargetCategory::AppSupport => "Application Support",
            TargetCategory::UninstalledData => "Uninstalled App Data",
            TargetCategory::IosBackup => "iOS Device Backups",
            TargetCategory::TimeMachine => "Time Machine",
        }
    }
}

/// A cleanup target: a named group of paths with a risk level.
#[derive(Debug, Clone)]
pub struct CleanTarget {
    pub id: String,
    pub label: String,
    pub paths: Vec<String>,
    pub risk: RiskLevel,
    pub category: TargetCategory,
}

/// A target has an id and at least one path.
pub open spec fn target_ok(t: CleanTarget) -> bool {
    t.id@.len() > 0 && t.paths@.len() > 0
}

fn target(id: &str, label: &str, risk: RiskLevel, category: TargetCategory, paths: Vec<String>) -> (t: CleanTarget)
    requires
        id@.len() > 0,
        paths@.len() > 0,
    ensures
        t.id@ == id@,
        t.label@ == label@,
        t.paths@ == paths@,
        t.paths@.map_values(|p: String| p@) == paths@.map_values(|p: String| p@),
        t.risk == risk,
        t.category == category,
        target_ok(t),
{
    CleanTarget { id: string_from(id), label: string_from(label), paths, risk, category }
}

/// What a target holds: id, label, paths, risk and category.
pub open spec fn target_view(t: CleanTarget) -> (Seq<char>, Seq<char>, Seq<Seq<char>>, RiskLevel, TargetCategory) {
    (t.id@, t.label@, t.paths@.map_values(|p: String| p@), t.risk, t.category)
}

/// The built-in targets on macOS for the home directory `h`, in order.
pub open spec fn default_targets_spec(h: Seq<char>) -> Seq<(Seq<char>, Seq<char>, Seq<Seq<char>>, RiskLevel, TargetCategory)> {
    seq![
        ("user-app-cache"@, "User App Cache"@, seq![join_spec(h, "Library/Caches"@)], RiskLevel::Low, TargetCategory::AppCache),
        ("system-logs"@, "System Logs"@, seq![join_spec(h, "Library/Logs"@)], RiskLevel::Low, TargetCategory::SystemLogs),
        ("browser-cache-chrome"@, "Chrome Cache"@, seq![join_spec(h, "Library/Caches/Google/Chrome"@), join_spec(h, "Library/Caches/com.google.Chrome"@)], RiskLevel::Low, TargetCategory::BrowserCache),
        ("browser-cache-safari"@, "Safari Cache"@, seq![join_spec(h, "Library/Caches/com.apple.Safari"@), join_spec(h, "Library/Caches/com.apple.WebKit.WebContent"@)], RiskLevel::Low, TargetCategory::BrowserCache),
        ("browser-cache-firefox"@, "Firefox Cache"@, seq![join_spec(h, "Library/Caches/Mozilla"@), join_spec(h, "Library/Caches/Firefox"@)], RiskLevel::Low, TargetCategory::BrowserCache),
        ("dev-xcode"@, "Xcode Derived Data"@, seq![join_spec(h, "Library/Developer/Xcode/DerivedData"@), join_spec(h, "Library/Developer/Xcode/Archives"@), join_spec(h, "Library/Developer/CoreSimulator/Caches"@)], RiskLevel::Low, TargetCategory::DevTools),
        ("dev-node"@, "Node.js Cache"@, seq![join_spec(h, ".npm/_cacache"@), join_spec(h, "Library/Caches/node-gyp"@)], RiskLevel::Low, TargetCategory::DevTools),
        ("dev-rust"@, "Rust Cargo Cache"@, seq![join_spec(h, ".cargo/registry/cache"@), join_spec(h, ".cargo/git/db"@)], RiskLevel::Low, TargetCategory::DevTools),
        ("dev-rust-doc"@, "Rust Documentation Cache"@, seq![join_spec(h, ".cargo/registry/doc"@)], RiskLevel::Low, TargetCategory::DevTools),
        ("dev-pip"@, "pip Cache"@, seq![join_spec(h, "Library/Caches/pip"@), join_spec(h, ".cache/pip"@)], RiskLevel::Low, TargetCategory::DevTools),
        ("dev-uv"@, "uv Cache"@, seq![join_spec(h, ".cache/uv"@), join_spec(h, "Library/Caches/uv"@)], RiskLevel::Low, TargetCategory::DevTools),
        ("dev-go"@, "Go Cache"@, seq![join_spec(h, "Library/Caches/go"@), join_spec(h, ".cache/go"@)], RiskLevel::Low, TargetCategory::DevTools),
        ("dev-docker"@, "Docker Build Cache"@, seq![join_spec(h, "Library/Caches/com.docker.docker"@)], RiskLevel::Medium, TargetCategory::DevTools),
        ("dev-xcode-simulators"@, "Xcode Unavailable Simulators"@, seq![join_spec(h, "Library/Developer/CoreSimulator/Images"@)], RiskLevel::High, TargetCategory::DevTools),
        ("dev-jetbrains"@, "JetBrains Cache"@, seq![join_spec(h, "Library/Caches/JetBrains"@)], RiskLevel::Low, TargetCategory::DevApps),
        ("dev-zsh-completion"@, "Zsh Completion Cache"@, seq![join_spec(h, ".zcompdump"@)], RiskLevel::Safe, TargetCategory::DevApps),
        ("system-saved-app-states"@, "Saved Application States"@, seq![join_spec(h, "Library/Saved Application State"@)], RiskLevel::Low, TargetCategory::SystemCache),
        ("system-icloud-session"@, "iCloud Session Cache"@, seq![join_spec(h, "Library/Caches/CloudKit"@), join_spec(h, "Library/Caches/com.apple.bird"@)], RiskLevel::Medium, TargetCategory::SystemCache),
        ("system-browser-code-sig"@, "Browser Code Signature Caches"@, seq![join_spec(h, "Library/Caches/com.apple.amsengagementd"@)], RiskLevel::Low, TargetCategory::SystemCache),
        ("system-crash-reports"@, "System Crash Reports"@, seq!["/Library/Logs/DiagnosticReports"@, join_spec(h, "Library/Logs/DiagnosticReports"@)], RiskLevel::Low, TargetCategory::SystemLogs),
        ("system-diagnostic-logs"@, "System Diagnostic Logs"@, seq![join_spec(h, "Library/Logs/DiagnosticReports"@)], RiskLevel::Medium, TargetCategory::SystemLogs),
        ("system-power-logs"@, "Power Logs"@, seq![join_spec(h, "Library/Logs/PowerManagement"@)], RiskLevel::Low, TargetCategory::SystemLogs),
        ("user-app-logs"@, "User App Logs"@, seq![join_spec(h, "Library/Logs"@)], RiskLevel::Low, TargetCategory::UserData),
        ("user-siri-suggestions"@, "Suggestions Cache (Siri)"@, seq![join_spec(h, "Library/Caches/com.apple.assistant"@), join_spec(h, "Library/Caches/com.apple.Siri"@)], RiskLevel::Low, TargetCategory::UserData),
        ("user-finder-metadata"@, "Finder Metadata"@, seq![join_spec(h, "Library/Caches/com.apple.finder"@)], RiskLevel::Safe, TargetCategory::UserData),
        ("cloud-dropbox"@, "Dropbox Cache"@, seq![join_spec(h, "Library/Caches/com.dropbox.Dropbox"@)], RiskLevel::Medium, TargetCategory::CloudStorage),
        ("cloud-google-drive"@, "Google Drive Cache"@, seq![join_spec(h, "Library/Caches/com.google.drivefs"@)], RiskLevel::Medium, TargetCategory::CloudStorage),
        ("cloud-icloud"@, "iCloud Cache"@, seq![join_spec(h, "Library/Caches/CloudKit"@)], RiskLevel::Medium, TargetCategory::CloudStorage),
        ("office-microsoft"@, "Microsoft Office Cache"@, seq![join_spec(h, "Library/Caches/com.microsoft.Office"@)], RiskLevel::Low, TargetCategory::Office),
        ("vm-parallels"@, "Parallels Cache"@, seq![join_spec(h, "Library/Caches/com.parallels.desktop"@)], RiskLevel::Medium, TargetCategory::VMTools),
        ("vm-vmware"@, "VMware Cache"@, seq![join_spec(h, "Library/Caches/com.vmware.fusion"@)], RiskLevel::Medium, TargetCategory::VMTools),
        ("vm-virtualbox"@, "VirtualBox Cache"@, seq![join_spec(h, "Library/Caches/VirtualBox"@)], RiskLevel::Medium, TargetCategory::VMTools),
        ("ios-backups"@, "iOS Device Backups"@, seq![join_spec(h, "Library/Application Support/MobileSync/Backup"@)], RiskLevel::High, TargetCategory::IosBackup),
        ("tm-failed-backups"@, "Time Machine Failed Backups"@, seq!["/.MobileBackups"@], RiskLevel::Medium, TargetCategory::TimeMachine),
        ("temp-files"@, "Temp Files"@, seq![join_spec(h, "Library/Caches/com.apple.helpd"@)], RiskLevel::Low, TargetCategory::TempFiles),
        ("trash"@, "Trash"@, seq![join_spec(h, ".Trash"@), "/Users/Shared/Trash"@], RiskLevel::Safe, TargetCategory::Trash),
    ]
}

fn paths1(a: String) -> (v: Vec<String>)
    ensures
        v@.len() == 1,
        v@.map_values(|p: String| p@) == seq![a@],
{
    let v = vec![a];
    proof {
        assert(v@.map_values(|p: String| p@) =~= seq![v@[0]@]);
    }
    v
}

fn paths2(a: String, b: String) -> (v: Vec<String>)
    ensures
        v@.len() == 2,
        v@.map_values(|p: String| p@) == seq![a@, b@],
{
    let v = vec![a, b];
    proof {
        assert(v@.map_values(|p: String| p@) =~= seq![v@[0]@, v@[1]@]);
    }
    v
}

fn paths3(a: String, b: String, c: String) -> (v: Vec<String>)
    ensures
        v@.len() == 3,
        v@.map_values(|p: String| p@) == seq![a@, b@, c@],
{
    let v = vec![a, b, c];
    proof {
        assert(v@.map_values(|p: String| p@) =~= seq![v@[0]@, v@[1]@, v@[2]@]);
    }
    v
}

/// Number of built-in targets on macOS.
pub const DEFAULT_TARGET_COUNT: usize = 36;

/// Built-in cleanup targets for the user whose home directory is `home`.
/// Only macOS has built-in targets; without a home there are none.
pub fn default_clean_targets(platform: Platform, home: Option<&str>) -> (targets: Vec<CleanTarget>)
    ensures
        (platform != Platform::MacOs || home is None) ==> targets@.len() == 0,
        (platform == Platform::MacOs && home is Some) ==> targets@.len() == DEFAULT_TARGET_COUNT,
        forall|i: int| 0 <= i < targets@.len() ==> target_ok(#[trigger] targets@[i]),
        (platform == Platform::MacOs && home is Some) ==> targets@.map_values(|t: CleanTarget| target_view(t))
            == default_targets_spec(home->0@),
        home matches Some(h) ==> targets@.len() > 0 ==> targets@[0].id@ == "user-app-cache"@ && targets@[0].paths@.len() == 1
            && targets@[0].paths@[0]@ == join_spec(h@, "Library/Caches"@),
{
    let mut targets: Vec<CleanTarget> = Vec::new();
    if platform != Platform::MacOs {
        return targets;
    }
    let h = match home {
        Some(h) => h,
        None => return targets,
    };
    proof {
        reveal_strlit("user-app-cache");
    }
    targets.push(target("user-app-cache", "User App Cache", RiskLevel::Low, TargetCategory::AppCache, paths1(join(h, "Library/Caches"))));
    proof {
        reveal_strlit("system-logs");
    }
    targets.push(target("system-logs", "System Logs", RiskLevel::Low, TargetCategory::SystemLogs, paths1(join(h, "Library/Logs"))));
    proof {
        reveal_strlit("browser-cache-chrome");
    }
    targets.push(target("browser-cache-chrome", "Chrome Cache", RiskLevel::Low, TargetCategory::BrowserCache, paths2(join(h, "Library/Caches/Google/Chrome"), join(h, "Library/Caches/com.google.Chrome"))));
    proof {
        reveal_strlit("browser-cache-safari");
    }
    targets.push(target("browser-cache-safari", "Safari Cache", RiskLevel::Low, TargetCategory::BrowserCache, paths2(join(h, "Library/Caches/com.apple.Safari"), join(h, "Library/Caches/com.apple.WebKit.WebContent"))));
    proof {
        reveal_strlit("browser-cache-firefox");
    }
    targets.push(target("browser-cache-firefox", "Firefox Cache", RiskLevel::Low, TargetCategory::BrowserCache, paths2(join(h, "Library/Caches/Mozilla"), join(h, "Library/Caches/Firefox"))));
    proof {
        reveal_strlit("dev-xcode");
    }
    targets.push(target("dev-xcode", "Xcode Derived Data", RiskLevel::Low, TargetCategory::DevTools, paths3(join(h, "Library/Developer/Xcode/DerivedData"), join(h, "Library/Developer/Xcode/Archives"), join(h, "Library/Developer/CoreSimulator/Caches"))));
    proof {
        reveal_strlit("dev-node");
    }
    targets.push(target("dev-node", "Node.js Cache", RiskLevel::Low, TargetCategory::DevTools, paths2(join(h, ".npm/_cacache"), join(h, "Library/Caches/node-gyp"))));
    proof {
        reveal_strlit("dev-rust");
    }
    targets.push(target("dev-rust", "Rust Cargo Cache", RiskLevel::Low, TargetCategory::DevTools, paths2(join(h, ".cargo/registry/cache"), join(h, ".cargo/git/db"))));
    proof {
        reveal_strlit("dev-rust-doc");
    }
    targets.push(target("dev-rust-doc", "Rust Documentation Cache", RiskLevel::Low, TargetCategory::DevTools, paths1(join(h, ".cargo/registry/doc"))));
    proof {
        reveal_strlit("dev-pip");
    }
    targets.push(target("dev-pip", "pip Cache", RiskLevel::Low, TargetCategory::DevTools, paths2(join(h, "Library/Caches/pip"), join(h, ".cache/pip"))));
    proof {
        reveal_strlit("dev-uv");
    }
    targets.push(target("dev-uv", "uv Cache", RiskLevel::Low, TargetCategory::DevTools, paths2(join(h, ".cache/uv"), join(h, "Library/Caches/uv"))));
    proof {
        reveal_strlit("dev-go");
    }
    targets.push(target("dev-go", "Go Cache", RiskLevel::Low, TargetCategory::DevTools, paths2(join(h, "Library/Caches/go"), join(h, ".cache/go"))));
    proof {
        reveal_strlit("dev-docker");
    }
    targets.push(target("dev-docker", "Docker Build Cache", RiskLevel::Medium, TargetCategory::DevTools, paths1(join(h, "Library/Caches/com.docker.docker"))));
    proof {
        reveal_strlit("dev-xcode-simulators");
    }
    targets.push(target("dev-xcode-simulators", "Xcode Unavailable Simulators", RiskLevel::High, TargetCategory::DevTools, paths1(join(h, "Library/Developer/CoreSimulator/Images"))));
    proof {
        reveal_strlit("dev-jetbrains");
    }
    targets.push(target("dev-jetbrains", "JetBrains Cache", RiskLevel::Low, TargetCategory::DevApps, paths1(join(h, "Library/Caches/JetBrains"))));
    proof {
        reveal_strlit("dev-zsh-completion");
    }
    targets.push(target("dev-zsh-completion", "Zsh Completion Cache", RiskLevel::Safe, TargetCategory::DevApps, paths1(join(h, ".zcompdump"))));
    proof {
        reveal_strlit("system-saved-app-states");
    }
    targets.push(target("system-saved-app-states", "Saved Application States", RiskLevel::Low, TargetCategory::SystemCache, paths1(join(h, "Library/Saved Application State"))));
    proof {
        reveal_strlit("system-icloud-session");
    }
    targets.push(target("system-icloud-session", "iCloud Session Cache", RiskLevel::Medium, TargetCategory::SystemCache, paths2(join(h, "Library/Caches/CloudKit"), join(h, "Library/Caches/com.apple.bird"))));
    proof {
        reveal_strlit("system-browser-code-sig");
    }
    targets.push(target("system-browser-code-sig", "Browser Code Signature Caches", RiskLevel::Low, TargetCategory::SystemCache, paths1(join(h, "Library/Caches/com.apple.amsengagementd"))));
    proof {
        reveal_strlit("system-crash-reports");
    }
    targets.push(target("system-crash-reports", "System Crash Reports", RiskLevel::Low, TargetCategory::SystemLogs, paths2(string_from("/Library/Logs/DiagnosticReports"), join(h, "Library/Logs/DiagnosticReports"))));
    proof {
        reveal_strlit("system-diagnostic-logs");
    }
    targets.push(target("system-diagnostic-logs", "System Diagnostic Logs", RiskLevel::Medium, TargetCategory::SystemLogs, paths1(join(h, "Library/Logs/DiagnosticReports"))));
    proof {
        reveal_strlit("system-power-logs");
    }
    targets.push(target("system-power-logs", "Power Logs", RiskLevel::Low, TargetCategory::SystemLogs, paths1(join(h, "Library/Logs/PowerManagement"))));
    proof {
        reveal_strlit("user-app-logs");
    }
    targets.push(target("user-app-logs", "User App Logs", RiskLevel::Low, TargetCategory::UserData, paths1(join(h, "Library/Logs"))));
    proof {
        reveal_strlit("user-siri-suggestions");
    }
    targets.push(target("user-siri-suggestions", "Suggestions Cache (Siri)", RiskLevel::Low, TargetCategory::UserData, paths2(join(h, "Library/Caches/com.apple.assistant"), join(h, "Library/Caches/com.apple.Siri"))));
    proof {
        reveal_strlit("user-finder-metadata");
    }
    targets.push(target("user-finder-metadata", "Finder Metadata", RiskLevel::Safe, TargetCategory::UserData, paths1(join(h, "Library/Caches/com.apple.finder"))));
    proof {
        reveal_strlit("cloud-dropbox");
    }
    targets.push(target("cloud-dropbox", "Dropbox Cache", RiskLevel::Medium, TargetCategory::CloudStorage, paths1(join(h, "Library/Caches/com.dropbox.Dropbox"))));
    proof {
        reveal_strlit("cloud-google-drive");
    }
    targets.push(target("cloud-google-drive", "Google Drive Cache", RiskLevel::Medium, TargetCategory::CloudStorage, paths1(join(h, "Library/Caches/com.google.drivefs"))));
    proof {
        reveal_strlit("cloud-icloud");
    }
    targets.push(target("cloud-icloud", "iCloud Cache", RiskLevel::Medium, TargetCategory::CloudStorage, paths1(join(h, "Library/Caches/CloudKit"))));
    proof {
        reveal_strlit("office-microsoft");
    }
    targets.push(target("office-microsoft", "Microsoft Office Cache", RiskLevel::Low, TargetCategory::Office, paths1(join(h, "Library/Caches/com.microsoft.Office"))));
    proof {
        reveal_strlit("vm-parallels");
    }
    targets.push(target("vm-parallels", "Parallels Cache", RiskLevel::Medium, TargetCategory::VMTools, paths1(join(h, "Library/Caches/com.parallels.desktop"))));
    proof {
        reveal_strlit("vm-vmware");
    }
    targets.push(target("vm-vmware", "VMware Cache", RiskLevel::Medium, TargetCategory::VMTools, paths1(join(h, "Library/Caches/com.vmware.fusion"))));
    proof {
        reveal_strlit("vm-virtualbox");
    }
    targets.push(target("vm-virtualbox", "VirtualBox Cache", RiskLevel::Medium, TargetCategory::VMTools, paths1(join(h, "Library/Caches/VirtualBox"))));
    proof {
        reveal_strlit("ios-backups");
    }
    targets.push(target("ios-backups", "iOS Device Backups", RiskLevel::High, TargetCategory::IosBackup, paths1(join(h, "Library/Application Support/MobileSync/Backup"))));
    proof {
        reveal_strlit("tm-failed-backups");
    }
    targets.push(target("tm-failed-backups", "Time Machine Failed Backups", RiskLevel::Medium, TargetCategory::TimeMachine, paths1(string_from("/.MobileBackups"))));
    proof {
        reveal_strlit("temp-files");
    }
    targets.push(target("temp-files", "Temp Files", RiskLevel::Low, TargetCategory::TempFiles, paths1(join(h, "Library/Caches/com.apple.helpd"))));
    proof {
        reveal_strlit("trash");
    }
    targets.push(target("trash", "Trash", RiskLevel::Safe, TargetCategory::Trash, paths2(join(h, ".Trash"), string_from("/Users/Shared/Trash"))));
    proof {
        assert(targets@.map_values(|t: CleanTarget| target_view(t)) =~= default_targets_spec(h@));
        let first = targets@[0].paths@;
        assert(first.map_values(|p: String| p@).len() == first.len());
        assert(first.map_values(|p: String| p@)[0] == first[0]@);
    }
    targets
}

/// Probe of one target path: whether it exists and, if so, its size or the
/// error met while measuring it.
#[derive(Debug)]
pub struct PathProbe {
    pub exists: bool,
    pub size: Result<u64, String>,
}

/// Sum of the sizes of the existing probes, up to the first error.
pub open spec fn probes_total(probes: Seq<PathProbe>) -> Option<nat>
    decreases probes.len(),
{
    if probes.len() == 0 {
        Some(0)
    } else {
        match probes_total(probes.drop_last()) {
            None => None,
            Some(t) => if probes.last().exists {
                match probes.last().size {
                    Ok(s) => Some(t + s as nat),
                    Err(_) => None,
                }
            } else {
                Some(t)
            },
        }
    }
}

/// The paths whose probe says they exist, in order.
pub open spec fn existing_paths(paths: Seq<String>, probes: Seq<PathProbe>) -> Seq<Seq<char>>
    decreases paths.len(),
{
    if paths.len() == 0 || probes.len() < paths.len() {
        Seq::empty()
    } else {
        existing_paths(paths.drop_last(), probes.take(paths.len() - 1)) + (if probes[paths.len() - 1].exists {
            seq![paths.last()@]
        } else {
            Seq::empty()
        })
    }
}

/// Total size of the existing paths of `target` and those paths, given one
/// probe per path; the first measuring error is returned.
pub fn scan_target_size(target: &CleanTarget, probes: &[PathProbe]) -> (r: Result<(u64, Vec<String>), String>)
    requires
        probes@.len() == target.paths@.len(),
        forall|k: int| 0 <= k <= probes@.len() ==> (#[trigger] probes_total(probes@.take(k)) matches Some(t) ==> t <= u64::MAX),
    ensures
        probes_total(probes@) is None <==> r is Err,
        r matches Ok((total, paths)) ==> total as nat == probes_total(probes@)->Some_0 && paths@.map_values(|p: String| p@)
            == existing_paths(target.paths@, probes@),
{
    let mut total: u64 = 0;
    let mut existing: Vec<String> = Vec::new();
    let mut i: usize = 0;
    while i < probes.len()
        invariant
            i <= probes@.len(),
            probes@.len() == target.paths@.len(),
            forall|k: int| 0 <= k <= probes@.len() ==> (#[trigger] probes_total(probes@.take(k)) matches Some(t) ==> t <= u64::MAX),
            probes_total(probes@.take(i as int)) == Some(total as nat),
            existing@.map_values(|p: String| p@) == existing_paths(target.paths@.take(i as int), probes@.take(i as int)),
        decreases probes@.len() - i,
    {
        proof {
            assert(probes@.take(i + 1).drop_last() =~= probes@.take(i as int));
            assert(target.paths@.take(i + 1).drop_last() =~= target.paths@.take(i as int));
            assert(probes@.take(i + 1).take(i as int) =~= probes@.take(i as int));
            assert(probes_total(probes@.take(i + 1)) matches Some(t) ==> t <= u64::MAX);
        }
        if probes[i].exists {
            existing.push(target.paths[i].clone());
            match &probes[i].size {
                Ok(s) => {
                    total = total + *s;
                },
                Err(e) => {
                    proof {
                        lemma_probes_total_none(probes@, i + 1);
                    }
                    return Err(e.clone());
                },
            }
        }
        proof {
            assert(existing@.map_values(|p: String| p@) =~= existing_paths(target.paths@.take(i + 1), probes@.take(i + 1)));
        }
        i = i + 1;
    }
    proof {
        assert(probes@.take(probes@.len() as int) =~= probes@);
        assert(target.paths@.take(target.paths@.len() as int) =~= target.paths@);
    }
    Ok((total, existing))
}

proof fn lemma_probes_total_none(probes: Seq<PathProbe>, k: int)
    requires
        0 <= k <= probes.len(),
        probes_total(probes.take(k)) is None,
    ensures
        probes_total(probes) is None,
    decreases probes.len() - k,
{
    if k < probes.len() {
        assert(probes.drop_last().take(k) =~= probes.take(k));
        lemma_probes_total_none(probes.drop_last(), k);
    } else {
        assert(probes.take(k) =~= probes);
    }
}


/// One path scheduled for cleanup.
#[derive(Debug, Clone)]
pub struct CleanItem {
    pub path: String,
    pub size: u64,
    pub risk: RiskLevel,
    pub target_id: String,
}

/// `b` is a copy of `a`.
pub open spec fn same_item(a: CleanItem, b: CleanItem) -> bool {
    a.path@ == b.path@ && a.size == b.size && a.risk == b.risk && a.target_id@ == b.target_id@
}

/// Item by item copies.
pub open spec fn same_items(a: Seq<CleanItem>, b: Seq<CleanItem>) -> bool {
    a.len() == b.len() && forall|i: int| 0 <= i < a.len() ==> same_item(#[trigger] a[i], b[i])
}

/// A copy of an item.
pub fn clone_item(it: &CleanItem) -> (c: CleanItem)
    ensures
        same_item(*it, c),
{
    CleanItem { path: it.path.clone(), size: it.size, risk: it.risk, target_id: it.target_id.clone() }
}

/// The targets considered, the bytes they hold, and the paths to clean.
#[derive(Debug, Clone)]
pub struct CleanPlan {
    pub targets: Vec<CleanTarget>,
    pub total_bytes: u64,
    pub items: Vec<CleanItem>,
}

/// Outcome of a cleanup run.
#[derive(Debug, Clone)]
pub struct CleanReport {
    pub total_attempted: u64,
    pub total_succeeded: u64,
    pub total_failed: u64,
    pub freed_bytes: u64,
    pub errors: Vec<(String, String)>,
}

impl CleanPlan {
    pub fn is_empty(&self) -> (b: bool)
        ensures
            b == (self.items@.len() == 0),
    {
        self.items.len() == 0
    }
}

/// Abstract item: path, size, risk, target id.
pub type ItemView = (Seq<char>, u64, RiskLevel, Seq<char>);

pub open spec fn item_view(i: CleanItem) -> ItemView {
    (i.path@, i.size, i.risk, i.target_id@)
}

pub open spec fn opt_view(home: Option<&str>) -> Option<Seq<char>> {
    match home {
        Some(h) => Some(h@),
        None => None,
    }
}

/// Items contributed by one scanned target: each existing path, with the
/// target's total size and the riskier of the path's and the target's risk;
/// nothing when the target holds no bytes or no path exists.
pub open spec fn target_items(platform: Platform, t: CleanTarget, size: u64, existing: Seq<Seq<char>>, home: Option<Seq<char>>) -> Seq<ItemView> {
    if size > 0 && existing.len() > 0 {
        existing.map_values(|p: Seq<char>| (p, size, spec_risk_max(risk_of(platform, p, home), t.risk), t.id@))
    } else {
        Seq::empty()
    }
}

/// Scan result of a target: total size and existing paths, or an error.
pub type TargetScan = Result<(u64, Vec<String>), String>;

/// Items and total bytes of a plan, or the message of the first failed scan.
pub open spec fn plan_spec(platform: Platform, targets: Seq<CleanTarget>, scans: Seq<TargetScan>, home: Option<Seq<char>>) -> Result<(Seq<ItemView>, nat), Seq<char>>
    decreases targets.len(),
{
    if targets.len() == 0 || scans.len() < targets.len() {
        Ok((Seq::empty(), 0))
    } else {
        let k = targets.len() - 1;
        match plan_spec(platform, targets.drop_last(), scans.take(k), home) {
            Err(e) => Err(e),
            Ok((items, total)) => match scans[k] {
                Err(e) => Err("scan target "@ + targets[k].id@ + ": "@ + e@),
                Ok((size, existing)) => if size > 0 && existing@.len() > 0 {
                    Ok((items + target_items(platform, targets[k], size, existing@.map_values(|p: String| p@), home), total + size as nat))
                } else {
                    Ok((items, total))
                },
            },
        }
    }
}

fn clone_strings(v: &Vec<String>) -> (r: Vec<String>)
    ensures
        r@ == v@,
{
    let mut r: Vec<String> = Vec::new();
    let mut i: usize = 0;
    while i < v.len()
        invariant
            i <= v@.len(),
            r@ == v@.take(i as int),
        decreases v@.len() - i,
    {
        r.push(v[i].clone());
        proof {
            assert(r@ =~= v@.take(i + 1));
        }
        i = i + 1;
    }
    proof {
        assert(v@.take(v@.len() as int) =~= v@);
    }
    r
}

/// Two targets with the same id, label, paths, risk and category.
pub open spec fn same_target(a: CleanTarget, b: CleanTarget) -> bool {
    &&& a.id@ == b.id@
    &&& a.label@ == b.label@
    &&& a.paths@ == b.paths@
    &&& a.risk == b.risk
    &&& a.category == b.category
}

/// A copy of a target.
pub fn clone_target(t: &CleanTarget) -> (c: CleanTarget)
    ensures
        same_target(c, *t),
{
    CleanTarget { id: t.id.clone(), label: t.label.clone(), paths: clone_strings(&t.paths), risk: t.risk, category: t.category }
}

/// Every prefix of the plan that succeeds has a total that fits in `u64`.
pub open spec fn plan_totals_fit(platform: Platform, targets: Seq<CleanTarget>, scans: Seq<TargetScan>, home: Option<Seq<char>>) -> bool {
    forall|k: int| 0 <= k <= targets.len() ==> (#[trigger] plan_spec(platform, targets.take(k), scans.take(k), home) matches Ok((_, t)) ==> t <= u64::MAX)
}

/// Builds the cleanup plan from one scan result per target: every existing
/// path of a target that holds bytes becomes an item, with the target's size
/// and the riskier of the path's and the target's risk; the first failed scan
/// makes the whole plan fail.
pub fn plan_clean(platform: Platform, targets: &[CleanTarget], scans: &[TargetScan], home: Option<&str>) -> (r: Result<CleanPlan, String>)
    requires
        scans@.len() == targets@.len(),
        plan_totals_fit(platform, targets@, scans@, opt_view(home)),
    ensures
        plan_spec(platform, targets@, scans@, opt_view(home)) matches Err(e) ==> r matches Err(m) && m@ == e,
        plan_spec(platform, targets@, scans@, opt_view(home)) matches Ok((items, total)) ==> r matches Ok(plan)
            && plan.items@.map_values(|i: CleanItem| item_view(i)) == items
            && plan.total_bytes == total
            && plan.targets@.len() == targets@.len()
            && forall|k: int| 0 <= k < targets@.len() ==> same_target(#[trigger] plan.targets@[k], targets@[k]),
{
    let ghost hv = opt_view(home);
    let ghost f = |it: CleanItem| item_view(it);
    proof {
        assert(targets@.take(0) =~= Seq::<CleanTarget>::empty());
        assert(Seq::<CleanItem>::empty().map_values(f) =~= Seq::<ItemView>::empty());
    }
    let mut items: Vec<CleanItem> = Vec::new();
    let mut total: u64 = 0;
    let mut i: usize = 0;
    while i < targets.len()
        invariant
            scans@.len() == targets@.len(),
            i <= targets@.len(),
            hv == opt_view(home),
            f == (|it: CleanItem| item_view(it)),
            plan_totals_fit(platform, targets@, scans@, hv),
            plan_spec(platform, targets@.take(i as int), scans@.take(i as int), hv) == Ok::<(Seq<ItemView>, nat), Seq<char>>(
                (items@.map_values(f), total as nat),
            ),
        decreases targets@.len() - i,
    {
        proof {
            assert(targets@.take(i + 1).drop_last() =~= targets@.take(i as int));
            assert(scans@.take(i + 1).take(i as int) =~= scans@.take(i as int));
            assert(targets@.take(i + 1)[i as int] == targets@[i as int]);
            assert(scans@.take(i + 1)[i as int] == scans@[i as int]);
        }
        let t = &targets[i];
        match &scans[i] {
            Err(e) => {
                let mut m = string_from("scan target ");
                crate::text::push_str(&mut m, t.id.as_str());
                crate::text::push_str(&mut m, ": ");
                crate::text::push_str(&mut m, e.as_str());
                proof {
                    assert(plan_spec(platform, targets@.take(i + 1), scans@.take(i + 1), hv) matches Err(x) && x == m@);
                    lemma_plan_prefix(platform, targets@, scans@, hv, i + 1);
                }
                return Err(m);
            },
            Ok((size, existing)) => {
                if *size > 0 && existing.len() > 0 {
                    proof {
                        assert(plan_spec(platform, targets@.take(i + 1), scans@.take(i + 1), hv) matches Ok((_, u)) && u == total + *size);
                        assert(plan_spec(platform, targets@.take(i + 1), scans@.take(i + 1), hv) matches Ok((_, u)) ==> u <= u64::MAX);
                    }
                    let ghost before = items@.map_values(f);
                    let ghost ev = existing@.map_values(|p: String| p@);
                    let ghost ti = target_items(platform, *t, *size, ev, hv);
                    let mut j: usize = 0;
                    while j < existing.len()
                        invariant
                            j <= existing@.len(),
                            *size > 0,
                            existing@.len() > 0,
                            ev == existing@.map_values(|p: String| p@),
                            hv == opt_view(home),
                            f == (|it: CleanItem| item_view(it)),
                            ti == target_items(platform, *t, *size, ev, hv),
                            items@.map_values(f) == before + ti.take(j as int),
                        decreases existing@.len() - j,
                    {
                        let p = &existing[j];
                        let risk = risk_max(classify_risk(platform, p.as_str(), home), t.risk);
                        let item = CleanItem { path: p.clone(), size: *size, risk, target_id: t.id.clone() };
                        proof {
                            lemma_map_values_push(items@, item, f);
                            assert(f(item) == ti[j as int]);
                            assert(before + ti.take(j + 1) =~= (before + ti.take(j as int)).push(ti[j as int]));
                        }
                        items.push(item);
                        j = j + 1;
                    }
                    proof {
                        assert(ti.take(existing@.len() as int) =~= ti);
                    }
                    total = total + *size;
                }
            },
        }
        i = i + 1;
    }
    proof {
        assert(targets@.take(targets@.len() as int) =~= targets@);
        assert(scans@.take(scans@.len() as int) =~= scans@);
    }
    let mut copies: Vec<CleanTarget> = Vec::new();
    let mut k: usize = 0;
    while k < targets.len()
        invariant
            k <= targets@.len(),
            copies@.len() == k,
            forall|q: int| 0 <= q < k ==> same_target(#[trigger] copies@[q], targets@[q]),
        decreases targets@.len() - k,
    {
        copies.push(clone_target(&targets[k]));
        k = k + 1;
    }
    Ok(CleanPlan { targets: copies, total_bytes: total, items })
}

proof fn lemma_plan_prefix(platform: Platform, targets: Seq<CleanTarget>, scans: Seq<TargetScan>, home: Option<Seq<char>>, k: int)
    requires
        0 <= k <= targets.len(),
        scans.len() == targets.len(),
    ensures
        plan_spec(platform, targets.take(k), scans.take(k), home) is Err ==> plan_spec(platform, targets, scans, home) == plan_spec(platform, targets.take(k), scans.take(k), home),
    decreases targets.len() - k,
{
    if k < targets.len() {
        let n = targets.len() - 1;
        lemma_plan_prefix(platform, targets.drop_last(), scans.take(n), home, k);
        assert(targets.drop_last().take(k) =~= targets.take(k));
        assert(scans.take(n).take(k) =~= scans.take(k));
    } else {
        assert(targets.take(k) =~= targets);
        assert(scans.take(k) =~= scans);
    }
}

/// Same as `plan_clean`: nothing is deleted.
pub fn dry_clean(platform: Platform, targets: &[CleanTarget], scans: &[TargetScan], home: Option<&str>) -> (r: Result<CleanPlan, String>)
    requires
        scans@.len() == targets@.len(),
        plan_totals_fit(platform, targets@, scans@, opt_view(home)),
    ensures
        plan_spec(platform, targets@, scans@, opt_view(home)) matches Err(e) ==> r matches Err(m) && m@ == e,
        plan_spec(platform, targets@, scans@, opt_view(home)) matches Ok((items, total)) ==> r matches Ok(plan)
            && plan.items@.map_values(|i: CleanItem| item_view(i)) == items
            && plan.total_bytes == total
            && plan.targets@.len() == targets@.len()
            && forall|k: int| 0 <= k < targets@.len() ==> same_target(#[trigger] plan.targets@[k], targets@[k]),
{
    plan_clean(platform, targets, scans, home)
}

/// The label shown for an item of target `id`: the label of the last
/// target with that id, or the id itself when none has it.
pub open spec fn label_for(targets: Seq<CleanTarget>, id: Seq<char>) -> Seq<char>
    decreases targets.len(),
{
    if targets.len() == 0 {
        id
    } else if targets.last().id@ == id {
        targets.last().label@
    } else {
        label_for(targets.drop_last(), id)
    }
}

/// The label shown for an item of target `id` (see `label_for`).
pub fn target_label(targets: &[CleanTarget], id: &str) -> (l: String)
    ensures
        l@ == label_for(targets@, id@),
{
    let mut i: usize = targets.len();
    proof {
        assert(targets@.take(i as int) =~= targets@);
    }
    while i > 0
        invariant
            i <= targets@.len(),
            label_for(targets@, id@) == label_for(targets@.take(i as int), id@),
        decreases i,
    {
        proof {
            assert(targets@.take(i as int).drop_last() =~= targets@.take(i - 1));
        }
        if crate::model::str_eq(targets[i - 1].id.as_str(), id) {
            return targets[i - 1].label.clone();
        }
        i = i - 1;
    }
    proof {
        assert(targets@.take(0) =~= Seq::<CleanTarget>::empty());
    }
    string_from(id)
}

/// Position of a category in display order.
pub open spec fn category_rank(c: TargetCategory) -> nat {
    match c {
        TargetCategory::AppCache => 0,
        TargetCategory::BrowserCache => 1,
        TargetCategory::DevTools => 2,
        TargetCategory::DevApps => 3,
        TargetCategory::SystemLogs => 4,
        TargetCategory::SystemCache => 5,
        TargetCategory::TempFiles => 6,
        TargetCategory::Trash => 7,
        TargetCategory::UserData => 8,
        TargetCategory::CloudStorage => 9,
        TargetCategory::Office => 10,
        TargetCategory::VMTools => 11,
        TargetCategory::AppSupport => 12,
        TargetCategory::UninstalledData => 13,
        TargetCategory::IosBackup => 14,
        TargetCategory::TimeMachine => 15,
    }
}

/// The categories in display order.
pub open spec fn all_categories() -> Seq<TargetCategory> {
    seq![
        TargetCategory::AppCache,
        TargetCategory::BrowserCache,
        TargetCategory::DevTools,
        TargetCategory::DevApps,
        TargetCategory::SystemLogs,
        TargetCategory::SystemCache,
        TargetCategory::TempFiles,
        TargetCategory::Trash,
        TargetCategory::UserData,
        TargetCategory::CloudStorage,
        TargetCategory::Office,
        TargetCategory::VMTools,
        TargetCategory::AppSupport,
        TargetCategory::UninstalledData,
        TargetCategory::IosBackup,
        TargetCategory::TimeMachine,
    ]
}

fn categories_in_order() -> (v: Vec<TargetCategory>)
    ensures
        v@ == all_categories(),
{
    let v = vec![
        TargetCategory::AppCache,
        TargetCategory::BrowserCache,
        TargetCategory::DevTools,
        TargetCategory::DevApps,
        TargetCategory::SystemLogs,
        TargetCategory::SystemCache,
        TargetCategory::TempFiles,
        TargetCategory::Trash,
        TargetCategory::UserData,
        TargetCategory::CloudStorage,
        TargetCategory::Office,
        TargetCategory::VMTools,
        TargetCategory::AppSupport,
        TargetCategory::UninstalledData,
        TargetCategory::IosBackup,
        TargetCategory::TimeMachine,
    ];
    assert(v@ =~= all_categories());
    v
}

/// Category of the last target with id `id`; temporary files when none has it.
pub open spec fn category_of_id(targets: Seq<CleanTarget>, id: Seq<char>) -> TargetCategory
    decreases targets.len(),
{
    if targets.len() == 0 {
        TargetCategory::TempFiles
    } else if targets.last().id@ == id {
        targets.last().category
    } else {
        category_of_id(targets.drop_last(), id)
    }
}

fn category_for(targets: &[CleanTarget], id: &str) -> (c: TargetCategory)
    ensures
        c == category_of_id(targets@, id@),
{
    let mut k: usize = targets.len();
    proof {
        assert(targets@.take(k as int) =~= targets@);
    }
    while k > 0
        invariant
            k <= targets@.len(),
            category_of_id(targets@, id@) == category_of_id(targets@.take(k as int), id@),
        decreases k,
    {
        proof {
            assert(targets@.take(k as int).drop_last() =~= targets@.take(k - 1));
            assert(targets@.take(k as int).last() == targets@[k - 1]);
        }
        if crate::model::str_eq(targets[k - 1].id.as_str(), id) {
            return targets[k - 1].category;
        }
        k = k - 1;
    }
    proof {
        assert(targets@.take(0) =~= Seq::<CleanTarget>::empty());
    }
    TargetCategory::TempFiles
}

/// Indices of the items among the first `n` whose category is `c`, in order.
pub open spec fn items_in(items: Seq<CleanItem>, targets: Seq<CleanTarget>, c: TargetCategory, n: int) -> Seq<usize>
    decreases n,
{
    if n <= 0 {
        Seq::empty()
    } else {
        items_in(items, targets, c, n - 1) + if category_of_id(targets, items[n - 1].target_id@) == c {
            seq![(n - 1) as usize]
        } else {
            Seq::empty()
        }
    }
}

/// The groups of a plan for display: for each category in display order
/// among the first `k`, the indices of its items, skipping empty categories.
pub open spec fn groups_upto(items: Seq<CleanItem>, targets: Seq<CleanTarget>, k: int) -> Seq<(TargetCategory, Seq<usize>)>
    decreases k,
{
    if k <= 0 {
        Seq::empty()
    } else {
        let c = all_categories()[k - 1];
        let idx = items_in(items, targets, c, items.len() as int);
        groups_upto(items, targets, k - 1) + if idx.len() > 0 {
            seq![(c, idx)]
        } else {
            Seq::empty()
        }
    }
}

/// Groups the items of a plan by the category of their target, categories
/// in display order, items in plan order within each group.
pub fn group_items(items: &[CleanItem], targets: &[CleanTarget]) -> (groups: Vec<(TargetCategory, Vec<usize>)>)
    ensures
        groups@.map_values(|g: (TargetCategory, Vec<usize>)| (g.0, g.1@)) == groups_upto(items@, targets@, 16),
{
    let cats = categories_in_order();
    let mut groups: Vec<(TargetCategory, Vec<usize>)> = Vec::new();
    let mut k: usize = 0;
    while k < cats.len()
        invariant
            k <= 16,
            cats@ == all_categories(),
            groups@.map_values(|g: (TargetCategory, Vec<usize>)| (g.0, g.1@)) == groups_upto(items@, targets@, k as int),
        decreases 16 - k,
    {
        let c = cats[k];
        let mut idx: Vec<usize> = Vec::new();
        let mut i: usize = 0;
        while i < items.len()
            invariant
                i <= items@.len(),
                idx@ == items_in(items@, targets@, c, i as int),
            decreases items@.len() - i,
        {
            if category_for(targets, items[i].target_id.as_str()) == c {
                idx.push(i);
            }
            i = i + 1;
        }
        if idx.len() > 0 {
            let g = (c, idx);
            proof {
                crate::text::lemma_map_values_push(groups@, g, |g: (TargetCategory, Vec<usize>)| (g.0, g.1@));
            }
            groups.push(g);
        }
        k = k + 1;
    }
    groups
}

} // verus!
