//! Review of directories before deletion: the program's label for a path,
//! the built-in verdict used when no AI answer is available, verdicts built
//! from AI answers, and the review popup's marks.
use crate::paths::{file_name, file_name_spec};
use crate::search::unicode_lowercase;
use crate::text::{chars_of, push_str, starts_with, string_from};
use std::collections::HashSet;
use vstd::prelude::*;

verus! {

/// Program labels of path categories.
pub const BUILD_ARTIFACTS: &'static str = "build-artifacts";
pub const PACKAGE_DEPENDENCIES: &'static str = "package-dependencies";
pub const VCS_DATA: &'static str = "vcs-data";
pub const APP_CACHE: &'static str = "app-cache";
pub const LOG_FILES: &'static str = "log-files";
pub const FRAMEWORK_CACHE: &'static str = "framework-cache";
pub const TEMP_FILES: &'static str = "temp-files";
pub const DOWNLOADS: &'static str = "downloads";
pub const HIDDEN_CONFIG: &'static str = "hidden-config";
pub const UNCATEGORIZED: &'static str = "uncategorized";

/// Path category recognised from a directory name.
#[derive(Debug, Clone, Copy, PartialEq, Eq, Structural)]
pub enum PathCategory {
    BuildArtifacts,
    PackageDependencies,
    VcsData,
    AppCache,
    LogFiles,
    FrameworkCache,
    TempFiles,
    Downloads,
    HiddenConfig,
    Uncategorized,
}

/// Category of a name, given its lower-case form.
pub open spec fn category_of(name: Seq<char>, lower: Seq<char>) -> PathCategory {
    if lower == "target"@ || lower == "build"@ || lower == "builds"@ || lower == "dist"@ || lower == "out"@ || lower
        == "output"@ {
        PathCategory::BuildArtifacts
    } else if lower == "node_modules"@ || lower == "vendor"@ || lower == "bower_components"@ {
        PathCategory::PackageDependencies
    } else if lower == ".git"@ || lower == ".svn"@ || lower == ".hg"@ {
        PathCategory::VcsData
    } else if lower == ".cache"@ || lower == "cache"@ || lower == "caches"@ {
        PathCategory::AppCache
    } else if lower == "logs"@ || lower == "log"@ {
        PathCategory::LogFiles
    } else if lower == ".terraform"@ || lower == ".serverless"@ || lower == ".next"@ || lower == ".nuxt"@ {
        PathCategory::FrameworkCache
    } else if lower == "tmp"@ || lower == "temp"@ || lower == "temporary"@ || lower == ".trash"@ || lower == "$trash"@
        || lower == ".recycle"@ {
        PathCategory::TempFiles
    } else if lower == "downloads"@ || lower == ".download"@ {
        PathCategory::Downloads
    } else if name.len() > 0 && name[0] == '.' {
        PathCategory::HiddenConfig
    } else {
        PathCategory::Uncategorized
    }
}

/// Label text of a category.
pub open spec fn category_text(c: PathCategory) -> Seq<char> {
    match c {
        PathCategory::BuildArtifacts => BUILD_ARTIFACTS@,
        PathCategory::PackageDependencies => PACKAGE_DEPENDENCIES@,
        PathCategory::VcsData => VCS_DATA@,
        PathCategory::AppCache => APP_CACHE@,
        PathCategory::LogFiles => LOG_FILES@,
        PathCategory::FrameworkCache => FRAMEWORK_CACHE@,
        PathCategory::TempFiles => TEMP_FILES@,
        PathCategory::Downloads => DOWNLOADS@,
        PathCategory::HiddenConfig => HIDDEN_CONFIG@,
        PathCategory::Uncategorized => UNCATEGORIZED@,
    }
}

/// Last component of a path, empty when there is none.
pub open spec fn name_or_empty(path: Seq<char>) -> Seq<char> {
    match file_name_spec(path) {
        Some(n) => n,
        None => Seq::empty(),
    }
}

/// Category of a path, from its last component.
pub open spec fn path_category(path: Seq<char>) -> PathCategory {
    let n = name_or_empty(path);
    category_of(n, unicode_lowercase(n))
}

fn eq_any(s: &str, options: &[&str]) -> (b: bool)
    ensures
        b == exists|i: int| 0 <= i < options@.len() && s@ == (#[trigger] options@[i])@,
{
    let mut i: usize = 0;
    while i < options.len()
        invariant
            i <= options@.len(),
            forall|j: int| 0 <= j < i ==> s@ != (#[trigger] options@[j])@,
        decreases options@.len() - i,
    {
        if crate::model::str_eq(s, options[i]) {
            return true;
        }
        i = i + 1;
    }
    false
}

fn categorize(name: &str) -> (c: PathCategory)
    ensures
        c == category_of(name@, unicode_lowercase(name@)),
{
    let lower = crate::search::to_lowercase(name);
    let l = lower.as_str();
    let a0: [&str; 6] = ["target", "build", "builds", "dist", "out", "output"];
    let a1: [&str; 3] = ["node_modules", "vendor", "bower_components"];
    let a2: [&str; 3] = [".git", ".svn", ".hg"];
    let a3: [&str; 3] = [".cache", "cache", "caches"];
    let a4: [&str; 2] = ["logs", "log"];
    let a5: [&str; 4] = [".terraform", ".serverless", ".next", ".nuxt"];
    let a6: [&str; 6] = ["tmp", "temp", "temporary", ".trash", "$trash", ".recycle"];
    let a7: [&str; 2] = ["downloads", ".download"];
    proof {
        assert(a0@[0]@ == "target"@ && a0@[1]@ == "build"@ && a0@[2]@ == "builds"@ && a0@[3]@ == "dist"@ && a0@[4]@ == "out"@
            && a0@[5]@ == "output"@);
        assert(a1@[0]@ == "node_modules"@ && a1@[1]@ == "vendor"@ && a1@[2]@ == "bower_components"@);
        assert(a2@[0]@ == ".git"@ && a2@[1]@ == ".svn"@ && a2@[2]@ == ".hg"@);
        assert(a3@[0]@ == ".cache"@ && a3@[1]@ == "cache"@ && a3@[2]@ == "caches"@);
        assert(a4@[0]@ == "logs"@ && a4@[1]@ == "log"@);
        assert(a5@[0]@ == ".terraform"@ && a5@[1]@ == ".serverless"@ && a5@[2]@ == ".next"@ && a5@[3]@ == ".nuxt"@);
        assert(a6@[0]@ == "tmp"@ && a6@[1]@ == "temp"@ && a6@[2]@ == "temporary"@ && a6@[3]@ == ".trash"@ && a6@[4]@
            == "$trash"@ && a6@[5]@ == ".recycle"@);
        assert(a7@[0]@ == "downloads"@ && a7@[1]@ == ".download"@);
    }
    if eq_any(l, &a0) {
        PathCategory::BuildArtifacts
    } else if eq_any(l, &a1) {
        PathCategory::PackageDependencies
    } else if eq_any(l, &a2) {
        PathCategory::VcsData
    } else if eq_any(l, &a3) {
        PathCategory::AppCache
    } else if eq_any(l, &a4) {
        PathCategory::LogFiles
    } else if eq_any(l, &a5) {
        PathCategory::FrameworkCache
    } else if eq_any(l, &a6) {
        PathCategory::TempFiles
    } else if eq_any(l, &a7) {
        PathCategory::Downloads
    } else {
        let cs = chars_of(name);
        if cs.len() > 0 && cs[0] == '.' {
            PathCategory::HiddenConfig
        } else {
            PathCategory::Uncategorized
        }
    }
}

fn category_label(c: PathCategory) -> (s: &'static str)
    ensures
        s@ == category_text(c),
{
    match c {
        PathCategory::BuildArtifacts => BUILD_ARTIFACTS,
        PathCategory::PackageDependencies => PACKAGE_DEPENDENCIES,
        PathCategory::VcsData => VCS_DATA,
        PathCategory::AppCache => APP_CACHE,
        PathCategory::LogFiles => LOG_FILES,
        PathCategory::FrameworkCache => FRAMEWORK_CACHE,
        PathCategory::TempFiles => TEMP_FILES,
        PathCategory::Downloads => DOWNLOADS,
        PathCategory::HiddenConfig => HIDDEN_CONFIG,
        PathCategory::Uncategorized => UNCATEGORIZED,
    }
}

fn name_of_path(path: &str) -> (n: String)
    ensures
        n@ == name_or_empty(path@),
{
    match file_name(path) {
        Some(n) => n,
        None => String::new(),
    }
}

/// The program's label for a path, from the name of its last component
/// (compared in lower case); names starting with '.' that match no
/// category are configuration.
pub fn resolve_label(path: &str) -> (label: String)
    ensures
        label@ == category_text(path_category(path@)),
{
    let name = name_of_path(path);
    string_from(category_label(categorize(name.as_str())))
}

/// Risk of deleting a reviewed path.
#[derive(Debug, Clone, Copy, PartialEq, Eq, Structural)]
pub enum RiskLevel {
    Safe,
    Low,
    Medium,
    High,
}

/// Display label of a review risk.
pub open spec fn review_risk_label(r: RiskLevel) -> Seq<char> {
    match r {
        RiskLevel::Safe => "Safe"@,
        RiskLevel::Low => "Low Risk"@,
        RiskLevel::Medium => "Medium Risk"@,
        RiskLevel::High => "High Risk"@,
    }
}

impl RiskLevel {
    /// Label shown for this risk.
    pub fn label(self) -> (s: &'static str)
        ensures
            s@ == review_risk_label(self),
    {
        match self {
            RiskLevel::Safe => "Safe",
            RiskLevel::Low => "Low Risk",
            RiskLevel::Medium => "Medium Risk",
            RiskLevel::High => "High Risk",
        }
    }
}

/// State of an AI analysis request.
#[derive(Debug, Clone)]
pub enum AiStatus {
    Idle,
    Loading,
    Ready,
    Error(String),
}

/// Verdict on one path.
#[derive(Debug, Clone)]
pub struct AiPathVerdict {
    pub path: String,
    pub size: u64,
    /// Program label (built-in rules and user mappings).
    pub label: String,
    /// Specific source named by the AI, for display.
    pub label_detail: String,
    pub purpose: String,
    pub risk_level: RiskLevel,
    pub suggestion: String,
    /// What the owning software or tool is.
    pub background: String,
    pub deletable: bool,
}

/// The texts of an AI answer for one path (its confidence score is not
/// used here).
#[derive(Debug, Clone)]
pub struct AiResponse {
    pub label_detail: String,
    pub description: String,
    pub risk_level: String,
    pub suggestion: String,
    pub background: String,
    pub deletable: bool,
}

/// Risk named by an AI answer (in any letter case); unknown names count as
/// medium.
pub open spec fn answer_risk(lower: Seq<char>) -> RiskLevel {
    if lower == "safe"@ {
        RiskLevel::Safe
    } else if lower == "low"@ {
        RiskLevel::Low
    } else if lower == "medium"@ {
        RiskLevel::Medium
    } else if lower == "high"@ {
        RiskLevel::High
    } else {
        RiskLevel::Medium
    }
}

impl AiPathVerdict {
    /// A verdict from the program label and an AI answer.
    pub fn from_response(path: String, size: u64, label: String, response: AiResponse) -> (v: Self)
        ensures
            v.path@ == path@,
            v.size == size,
            v.label@ == label@,
            v.label_detail@ == response.label_detail@,
            v.purpose@ == response.description@,
            v.risk_level == answer_risk(unicode_lowercase(response.risk_level@)),
            v.suggestion@ == response.suggestion@,
            v.background@ == response.background@,
            v.deletable == response.deletable,
    {
        let lower = crate::search::to_lowercase(response.risk_level.as_str());
        let l = lower.as_str();
        proof {
            reveal_strlit("safe");
            reveal_strlit("low");
            reveal_strlit("medium");
            reveal_strlit("high");
        }
        let risk_level = if crate::model::str_eq(l, "safe") {
            RiskLevel::Safe
        } else if crate::model::str_eq(l, "low") {
            RiskLevel::Low
        } else if crate::model::str_eq(l, "medium") {
            RiskLevel::Medium
        } else if crate::model::str_eq(l, "high") {
            RiskLevel::High
        } else {
            RiskLevel::Medium
        };
        AiPathVerdict {
            path,
            size,
            label,
            label_detail: response.label_detail,
            purpose: response.description,
            risk_level,
            suggestion: response.suggestion,
            background: response.background,
            deletable: response.deletable,
        }
    }
}

/// Texts of the built-in verdict of a category: purpose, risk, suggestion,
/// whether deletable, background.
pub open spec fn builtin_verdict(c: PathCategory) -> (Seq<char>, RiskLevel, Seq<char>, bool, Seq<char>) {
    match c {
        PathCategory::BuildArtifacts => (
            "Compiled output from the build process. Contains object files, binaries, and intermediate build products."@,
            RiskLevel::Safe,
            "Safe to delete. Will be recreated on next build. Deleting frees significant disk space."@,
            true,
            "Rust (Cargo) or other compiled language build system. Produces binaries and intermediate artifacts."@,
        ),
        PathCategory::PackageDependencies => (
            "Third-party dependencies downloaded by a package manager (npm, yarn, Composer, etc.)."@,
            RiskLevel::Safe,
            "Safe to delete. Can be restored with the package manager's install command."@,
            true,
            "npm (Node.js) / yarn / Composer (PHP) package manager directory. Contains all external libraries used by the project."@,
        ),
        PathCategory::VcsData => (
            "Version control history and metadata. Contains all commits, branches, and revision history."@,
            RiskLevel::High,
            "Do NOT delete unless you want to remove version history. May break git/svn operations."@,
            false,
            "Git is a distributed version control system. Deleting .git erases all commit history."@,
        ),
        PathCategory::AppCache => (
            "Cached data from various applications. Speeds up repeated operations."@,
            RiskLevel::Safe,
            "Safe to delete. Caches will be regenerated as needed. Deleting may slow down first use."@,
            true,
            ""@,
        ),
        PathCategory::LogFiles => (
            "Application or system log files recording events, errors, and debug information."@,
            RiskLevel::Safe,
            "Safe to delete if you don't need historical logs. May help with debugging if kept."@,
            true,
            ""@,
        ),
        PathCategory::FrameworkCache => (
            "Cache and build artifacts from infrastructure or frontend framework tooling."@,
            RiskLevel::Safe,
            "Safe to delete. Will be regenerated on next deploy or build."@,
            true,
            "Terraform: infrastructure-as-code tool. Serverless: serverless framework. Next.js/Nuxt: JavaScript frameworks."@,
        ),
        PathCategory::TempFiles => (
            "Temporary files that should have been cleaned up by the creating application."@,
            RiskLevel::Safe,
            "Safe to delete. These are temporary files not needed for normal operation."@,
            true,
            ""@,
        ),
        PathCategory::Downloads => (
            "Downloaded files. May contain important documents or installers."@,
            RiskLevel::Low,
            "Review contents before deleting. Safe to delete installers and temporary downloads."@,
            true,
            ""@,
        ),
        PathCategory::HiddenConfig => (
            "Application configuration or data directory. Used by various programs to store settings."@,
            RiskLevel::Medium,
            "Check which application owns this directory before deleting. May lose app settings."@,
            true,
            ""@,
        ),
        PathCategory::Uncategorized => (
            "Unable to determine purpose automatically. May contain user data or application files."@,
            RiskLevel::Medium,
            "Review contents manually before deciding to delete."@,
            true,
            ""@,
        ),
    }
}

fn builtin_texts(c: PathCategory) -> (r: (&'static str, RiskLevel, &'static str, bool, &'static str))
    ensures
        (r.0@, r.1, r.2@, r.3, r.4@) == builtin_verdict(c),
{
    match c {
        PathCategory::BuildArtifacts => (
            "Compiled output from the build process. Contains object files, binaries, and intermediate build products.",
            RiskLevel::Safe,
            "Safe to delete. Will be recreated on next build. Deleting frees significant disk space.",
            true,
            "Rust (Cargo) or other compiled language build system. Produces binaries and intermediate artifacts.",
        ),
        PathCategory::PackageDependencies => (
            "Third-party dependencies downloaded by a package manager (npm, yarn, Composer, etc.).",
            RiskLevel::Safe,
            "Safe to delete. Can be restored with the package manager's install command.",
            true,
            "npm (Node.js) / yarn / Composer (PHP) package manager directory. Contains all external libraries used by the project.",
        ),
        PathCategory::VcsData => (
            "Version control history and metadata. Contains all commits, branches, and revision history.",
            RiskLevel::High,
            "Do NOT delete unless you want to remove version history. May break git/svn operations.",
            false,
            "Git is a distributed version control system. Deleting .git erases all commit history.",
        ),
        PathCategory::AppCache => (
            "Cached data from various applications. Speeds up repeated operations.",
            RiskLevel::Safe,
            "Safe to delete. Caches will be regenerated as needed. Deleting may slow down first use.",
            true,
            "",
        ),
        PathCategory::LogFiles => (
            "Application or system log files recording events, errors, and debug information.",
            RiskLevel::Safe,
            "Safe to delete if you don't need historical logs. May help with debugging if kept.",
            true,
            "",
        ),
        PathCategory::FrameworkCache => (
            "Cache and build artifacts from infrastructure or frontend framework tooling.",
            RiskLevel::Safe,
            "Safe to delete. Will be regenerated on next deploy or build.",
            true,
            "Terraform: infrastructure-as-code tool. Serverless: serverless framework. Next.js/Nuxt: JavaScript frameworks.",
        ),
        PathCategory::TempFiles => (
            "Temporary files that should have been cleaned up by the creating application.",
            RiskLevel::Safe,
            "Safe to delete. These are temporary files not needed for normal operation.",
            true,
            "",
        ),
        PathCategory::Downloads => (
            "Downloaded files. May contain important documents or installers.",
            RiskLevel::Low,
            "Review contents before deleting. Safe to delete installers and temporary downloads.",
            true,
            "",
        ),
        PathCategory::HiddenConfig => (
            "Application configuration or data directory. Used by various programs to store settings.",
            RiskLevel::Medium,
            "Check which application owns this directory before deleting. May lose app settings.",
            true,
            "",
        ),
        PathCategory::Uncategorized => (
            "Unable to determine purpose automatically. May contain user data or application files.",
            RiskLevel::Medium,
            "Review contents manually before deciding to delete.",
            true,
            "",
        ),
    }
}

/// The built-in verdict on a path, used when no AI answer is available:
/// its category's label, purpose, risk, suggestion and background; no
/// specific source.
pub fn mock_ai_verdict(path: &str, size: u64) -> (v: AiPathVerdict)
    ensures
        v.path@ == path@,
        v.size == size,
        v.label@ == category_text(path_category(path@)),
        v.label_detail@.len() == 0,
        (v.purpose@, v.risk_level, v.suggestion@, v.deletable, v.background@) == builtin_verdict(path_category(path@)),
{
    let name = name_of_path(path);
    let c = categorize(name.as_str());
    let (purpose, risk_level, suggestion, deletable, background) = builtin_texts(c);
    AiPathVerdict {
        path: string_from(path),
        size,
        label: string_from(category_label(c)),
        label_detail: String::new(),
        purpose: string_from(purpose),
        risk_level,
        suggestion: string_from(suggestion),
        background: string_from(background),
        deletable,
    }
}

/// The parts of the review prompt around the answer language and the
/// directories (given as JSON).
pub const PROMPT_HEAD: &'static str = "You are a disk cleanup expert for macOS and Linux.\nRespond in ";
pub const PROMPT_LANGUAGE_AGAIN: &'static str = ". All text fields (label_detail, description, suggestion) must be in ";
pub const PROMPT_SCHEMA: &'static str = ".\n\nAnalyze the following directories. Return a JSON object where keys are directory paths\nand values have this exact schema:\n\n{\n  \"<target_path>\": {\n    \"label_detail\": \"specific source entity name\",\n    \"description\": \"what this directory is used for\",\n    \"risk_level\": \"safe|low|medium|high\",\n    \"suggestion\": \"governance advice\",\n    \"deletable\": true,\n    \"confidence\": 0.95\n  }\n}\n\nThe \"label\" field (program category like \"build-artifacts\", \"package-dependencies\") is\ndetermined automatically by the program. Do NOT output a label field.\nOnly output label_detail as the specific source description.\n\nDirectories to analyze:\n";

/// The review prompt: the instructions, in `language`, then the
/// directories to analyze as JSON.
pub open spec fn prompt_text(batch_json: Seq<char>, language: Seq<char>) -> Seq<char> {
    PROMPT_HEAD@ + language + PROMPT_LANGUAGE_AGAIN@ + language + PROMPT_SCHEMA@ + batch_json
}

/// The review prompt for directories described by `batch_json` (their
/// contexts as pretty-printed JSON), answered in `language`.
pub fn build_prompt(batch_json: &str, language: &str) -> (r: String)
    ensures
        r@ == prompt_text(batch_json@, language@),
{
    let mut r = string_from(PROMPT_HEAD);
    push_str(&mut r, language);
    push_str(&mut r, PROMPT_LANGUAGE_AGAIN);
    push_str(&mut r, language);
    push_str(&mut r, PROMPT_SCHEMA);
    push_str(&mut r, batch_json);
    r
}

/// Rough token count of a prompt: a third of its characters, rounded up.
pub fn estimate_tokens(prompt: &str) -> (n: usize)
    ensures
        n as nat == (prompt@.len() + 2) / 3,
{
    let cs = chars_of(prompt);
    let count = cs.len();
    count / 3 + if count % 3 == 0 { 0 } else { 1 }
}

/// State of the review popup.
#[derive(Debug)]
pub struct AiReviewState {
    pub results: Vec<AiPathVerdict>,
    pub pending_paths: Vec<String>,
    pub pending_total_size: u64,
    pub cursor: usize,
    pub scroll_offset: usize,
    pub mark_for_delete: HashSet<usize>,
    pub status: AiStatus,
    pub delete_confirm: Option<(Vec<String>, bool)>,
    pub info_item: Option<usize>,
}

impl AiReviewState {
    /// Marks the item under the cursor for deletion, or unmarks it.
    pub fn toggle_mark(&mut self)
        ensures
            final(self).mark_for_delete@ == if old(self).mark_for_delete@.contains(old(self).cursor) {
                old(self).mark_for_delete@.remove(old(self).cursor)
            } else {
                old(self).mark_for_delete@.insert(old(self).cursor)
            },
            *final(self) == (AiReviewState { mark_for_delete: final(self).mark_for_delete, ..*old(self) }),
    {
        broadcast use vstd::std_specs::hash::group_hash_axioms;
        let c = self.cursor;
        if self.mark_for_delete.contains(&c) {
            self.mark_for_delete.remove(&c);
        } else {
            self.mark_for_delete.insert(c);
        }
    }

    /// Paths of the marked results, in result order.
    pub fn marked_paths(&self) -> (v: Vec<String>)
        ensures
            v@.map_values(|s: String| s@) == marked_in(self.results@, self.mark_for_delete@, self.results@.len() as int),
    {
        broadcast use vstd::std_specs::hash::group_hash_axioms;
        let mut v: Vec<String> = Vec::new();
        let mut i: usize = 0;
        while i < self.results.len()
            invariant
                i <= self.results@.len(),
                v@.map_values(|s: String| s@) == marked_in(self.results@, self.mark_for_delete@, i as int),
            decreases self.results@.len() - i,
        {
            if self.mark_for_delete.contains(&i) {
                let p = self.results[i].path.clone();
                proof {
                    crate::text::lemma_map_values_push(v@, p, |s: String| s@);
                }
                v.push(p);
            }
            i = i + 1;
        }
        v
    }
}

/// Paths of the results among the first `n` whose index is marked, in order.
pub open spec fn marked_in(results: Seq<AiPathVerdict>, marks: Set<usize>, n: int) -> Seq<Seq<char>>
    decreases n,
{
    if n <= 0 {
        Seq::empty()
    } else {
        marked_in(results, marks, n - 1) + if marks.contains((n - 1) as usize) {
            seq![results[n - 1].path@]
        } else {
            Seq::empty()
        }
    }
}

} // verus!
