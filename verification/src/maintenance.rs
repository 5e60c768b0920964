//! Deletion reports, the audit record of each operation, build-artifact
//! kinds, app names, and maintenance commands (package-manager cleanups).
//!
//! Moving files to the trash and running commands happen outside; their
//! outcomes come back here to be tallied.
use crate::cleaning::CleanItem;
use crate::cleaning::CleanReport;
use crate::paths::file_stem_spec;
use crate::text::{push_decimal, push_str, string_from, trim, trim_chars, chars_of, string_of};
use vstd::prelude::*;
use vstd::string::StrSliceExecFns;

verus! {

/// Kind of build artifact directory found in projects.
#[derive(Debug, Clone, Copy, PartialEq, Eq, Structural)]
pub enum ArtifactKind {
    NodeModules,
    Target,
    Build,
    Dist,
    Venv,
    NextCache,
    Terraform,
}

/// Directory name of an artifact kind.
pub open spec fn artifact_dir_name(k: ArtifactKind) -> Seq<char> {
    match k {
        ArtifactKind::NodeModules => "node_modules"@,
        ArtifactKind::Target => "target"@,
        ArtifactKind::Build => "build"@,
        ArtifactKind::Dist => "dist"@,
        ArtifactKind::Venv => "venv"@,
        ArtifactKind::NextCache => ".next"@,
        ArtifactKind::Terraform => ".terraform"@,
    }
}

/// Display label of an artifact kind.
pub open spec fn artifact_label(k: ArtifactKind) -> Seq<char> {
    match k {
        ArtifactKind::NodeModules => "node_modules"@,
        ArtifactKind::Target => "target (Rust)"@,
        ArtifactKind::Build => "build"@,
        ArtifactKind::Dist => "dist"@,
        ArtifactKind::Venv => "venv (Python)"@,
        ArtifactKind::NextCache => ".next (Next.js)"@,
        ArtifactKind::Terraform => ".terraform"@,
    }
}

impl ArtifactKind {
    /// Name of the directory this kind is found under.
    pub fn dir_name(&self) -> (s: &'static str)
        ensures
            s@ == artifact_dir_name(*self),
    {
        match self {
            ArtifactKind::NodeModules => "node_modules",
            ArtifactKind::Target => "target",
            ArtifactKind::Build => "build",
            ArtifactKind::Dist => "dist",
            ArtifactKind::Venv => "venv",
            ArtifactKind::NextCache => ".next",
            ArtifactKind::Terraform => ".terraform",
        }
    }

    /// Label shown for this kind.
    pub fn label(&self) -> (s: &'static str)
        ensures
            s@ == artifact_label(*self),
    {
        match self {
            ArtifactKind::NodeModules => "node_modules",
            ArtifactKind::Target => "target (Rust)",
            ArtifactKind::Build => "build",
            ArtifactKind::Dist => "dist",
            ArtifactKind::Venv => "venv (Python)",
            ArtifactKind::NextCache => ".next (Next.js)",
            ArtifactKind::Terraform => ".terraform",
        }
    }
}

/// Every artifact kind, in search order.
pub open spec fn all_kinds() -> Seq<ArtifactKind> {
    seq![
        ArtifactKind::NodeModules,
        ArtifactKind::Target,
        ArtifactKind::Build,
        ArtifactKind::Dist,
        ArtifactKind::Venv,
        ArtifactKind::NextCache,
        ArtifactKind::Terraform,
    ]
}

/// Every artifact kind, in search order.
pub fn all_artifact_kinds() -> (v: Vec<ArtifactKind>)
    ensures
        v@ == all_kinds(),
{
    let v = vec![
        ArtifactKind::NodeModules,
        ArtifactKind::Target,
        ArtifactKind::Build,
        ArtifactKind::Dist,
        ArtifactKind::Venv,
        ArtifactKind::NextCache,
        ArtifactKind::Terraform,
    ];
    assert(v@ =~= all_kinds());
    v
}

/// Kind of recorded operation.
#[derive(Debug, Clone, Copy, PartialEq, Eq, Structural)]
pub enum AuditOp {
    Clean,
    Uninstall,
    Purge,
    Delete,
}

/// Name of an operation in the audit log.
pub open spec fn audit_op_name(op: AuditOp) -> Seq<char> {
    match op {
        AuditOp::Clean => "clean"@,
        AuditOp::Uninstall => "uninstall"@,
        AuditOp::Purge => "purge"@,
        AuditOp::Delete => "delete"@,
    }
}

impl AuditOp {
    /// Name of the operation as the audit log writes it.
    pub fn name(&self) -> (s: &'static str)
        ensures
            s@ == audit_op_name(*self),
    {
        match self {
            AuditOp::Clean => "clean",
            AuditOp::Uninstall => "uninstall",
            AuditOp::Purge => "purge",
            AuditOp::Delete => "delete",
        }
    }
}

/// One audit-log record (the time is stamped when it is written).
#[derive(Debug, Clone)]
pub struct AuditRecord {
    pub operation: AuditOp,
    pub paths: Vec<String>,
    pub total_bytes: u64,
    pub success: bool,
    pub error: Option<String>,
}

/// Number of outcomes that succeeded.
pub open spec fn ok_count(outcomes: Seq<Result<(), String>>) -> nat
    decreases outcomes.len(),
{
    if outcomes.len() == 0 {
        0
    } else {
        ok_count(outcomes.drop_last()) + (if outcomes.last() is Ok {
            1nat
        } else {
            0nat
        })
    }
}

/// Bytes freed: the sizes of the items whose outcome succeeded.
pub open spec fn freed_total(items: Seq<CleanItem>, outcomes: Seq<Result<(), String>>) -> nat
    decreases outcomes.len(),
{
    if outcomes.len() == 0 || items.len() < outcomes.len() {
        0
    } else {
        let k = outcomes.len() - 1;
        freed_total(items, outcomes.drop_last()) + (if outcomes.last() is Ok {
            items[k].size as nat
        } else {
            0nat
        })
    }
}

/// The failures, as (path, message), in item order.
pub open spec fn failures(items: Seq<CleanItem>, outcomes: Seq<Result<(), String>>) -> Seq<(Seq<char>, Seq<char>)>
    decreases outcomes.len(),
{
    if outcomes.len() == 0 || items.len() < outcomes.len() {
        Seq::empty()
    } else {
        let k = outcomes.len() - 1;
        failures(items, outcomes.drop_last()) + match outcomes.last() {
            Ok(_) => Seq::empty(),
            Err(e) => seq![(items[k].path@, e@)],
        }
    }
}

/// View of a report's error list.
pub open spec fn error_view(errors: Seq<(String, String)>) -> Seq<(Seq<char>, Seq<char>)> {
    errors.map_values(|e: (String, String)| (e.0@, e.1@))
}

/// The freed total of every prefix of the outcomes fits in 64 bits.
pub open spec fn freed_fits(items: Seq<CleanItem>, outcomes: Seq<Result<(), String>>) -> bool {
    forall|k: int| 0 <= k <= outcomes.len() ==> #[trigger] freed_total(items, outcomes.take(k)) <= u64::MAX
}

proof fn lemma_ok_count_le(outcomes: Seq<Result<(), String>>)
    ensures
        ok_count(outcomes) <= outcomes.len(),
    decreases outcomes.len(),
{
    if outcomes.len() > 0 {
        lemma_ok_count_le(outcomes.drop_last());
    }
}

/// Tallies the outcome of deleting each item: how many were attempted,
/// succeeded and failed, the bytes freed, and each failure with its path.
pub fn tally_report(items: &[CleanItem], outcomes: &[Result<(), String>]) -> (r: CleanReport)
    requires
        outcomes@.len() == items@.len(),
        freed_fits(items@, outcomes@),
    ensures
        r.total_attempted == items@.len(),
        r.total_succeeded == ok_count(outcomes@),
        r.total_succeeded + r.total_failed == items@.len(),
        r.freed_bytes == freed_total(items@, outcomes@),
        error_view(r.errors@) == failures(items@, outcomes@),
{
    let mut succeeded: u64 = 0;
    let mut failed: u64 = 0;
    let mut freed: u64 = 0;
    let mut errors: Vec<(String, String)> = Vec::new();
    let mut i: usize = 0;
    proof {
        assert(outcomes@.take(0) =~= Seq::<Result<(), String>>::empty());
        assert(error_view(errors@) =~= Seq::<(Seq<char>, Seq<char>)>::empty());
    }
    while i < outcomes.len()
        invariant
            outcomes@.len() == items@.len(),
            i <= outcomes@.len(),
            freed_fits(items@, outcomes@),
            succeeded == ok_count(outcomes@.take(i as int)),
            succeeded + failed == i,
            freed == freed_total(items@, outcomes@.take(i as int)),
            error_view(errors@) == failures(items@, outcomes@.take(i as int)),
        decreases outcomes@.len() - i,
    {
        let ghost t = outcomes@.take(i + 1);
        proof {
            assert(t.drop_last() =~= outcomes@.take(i as int));
            assert(t.last() == outcomes@[i as int]);
            assert(freed_total(items@, outcomes@.take(i + 1)) <= u64::MAX);
        }
        match &outcomes[i] {
            Ok(()) => {
                succeeded = succeeded + 1;
                freed = freed + items[i].size;
            },
            Err(e) => {
                failed = failed + 1;
                let pair = (items[i].path.clone(), e.clone());
                proof {
                    crate::text::lemma_map_values_push(errors@, pair, |e: (String, String)| (e.0@, e.1@));
                }
                errors.push(pair);
                proof {
                    assert(error_view(errors@) =~= failures(items@, t));
                }
            },
        }
        i = i + 1;
    }
    proof {
        assert(outcomes@.take(outcomes@.len() as int) =~= outcomes@);
    }
    CleanReport {
        total_attempted: items.len() as u64,
        total_succeeded: succeeded,
        total_failed: failed,
        freed_bytes: freed,
        errors,
    }
}

/// The audit record of an operation on `items` with report `report`: the
/// paths, the bytes freed, success when nothing failed, and "<n> failures"
/// otherwise.
pub fn audit_record(op: AuditOp, items: &[CleanItem], report: &CleanReport) -> (a: AuditRecord)
    ensures
        a.operation == op,
        a.paths@.len() == items@.len(),
        forall|k: int| 0 <= k < items@.len() ==> #[trigger] a.paths@[k]@ == items@[k].path@,
        a.total_bytes == report.freed_bytes,
        a.success == (report.total_failed == 0),
        report.total_failed == 0 ==> a.error is None,
        report.total_failed > 0 ==> (a.error matches Some(e) && e@ == crate::text::decimal(report.total_failed as nat) + " failures"@),
{
    let mut paths: Vec<String> = Vec::new();
    let mut k: usize = 0;
    while k < items.len()
        invariant
            k <= items@.len(),
            paths@.len() == k,
            forall|j: int| 0 <= j < k ==> #[trigger] paths@[j]@ == items@[j].path@,
        decreases items@.len() - k,
    {
        paths.push(items[k].path.clone());
        k = k + 1;
    }
    let error = if report.total_failed > 0 {
        let mut e = String::new();
        push_decimal(&mut e, report.total_failed);
        push_str(&mut e, " failures");
        Some(e)
    } else {
        None
    };
    AuditRecord { operation: op, paths, total_bytes: report.freed_bytes, success: report.total_failed == 0, error }
}

/// The message recorded when moving a cleanup item to the trash fails.
pub fn trash_error_message(path: &str, err: &str) -> (m: String)
    ensures
        m@ == "trash error for "@ + path@ + ": "@ + err@,
{
    let mut m = string_from("trash error for ");
    push_str(&mut m, path);
    push_str(&mut m, ": ");
    push_str(&mut m, err);
    proof {
        assert(m@ =~= "trash error for "@ + path@ + ": "@ + err@);
    }
    m
}

/// Name of an application bundle: the stem of its path ("Firefox" for
/// "/Applications/Firefox.app"), or "Unknown" when the path has no name.
pub fn app_name_from_path(app_path: &str) -> (name: String)
    ensures
        match file_stem_spec(app_path@) {
            Some(s) => name@ == s,
            None => name@ == "Unknown"@,
        },
{
    match crate::paths::file_stem(app_path) {
        Some(s) => s,
        None => {
            proof {
                reveal_strlit("Unknown");
            }
            string_from("Unknown")
        },
    }
}

/// Data left behind by removed applications.
#[derive(Debug, Clone)]
pub struct OrphanedData {
    pub paths: Vec<String>,
    pub total_bytes: u64,
    pub item_count: usize,
}

/// A maintenance command: a program and its arguments.
#[derive(Debug, Clone)]
pub struct ShellCmdTarget {
    pub id: String,
    pub label: String,
    pub command: String,
    pub args: Vec<String>,
    pub timeout_secs: u64,
}

/// What came of running a maintenance command.
#[derive(Debug, Clone)]
pub struct ShellCmdResult {
    pub id: String,
    pub label: String,
    pub success: bool,
    pub output: String,
    pub error: Option<String>,
}

fn strings(items: &[&str]) -> (v: Vec<String>)
    ensures
        v@.map_values(|s: String| s@) == items@.map_values(|s: &str| s@),
{
    let mut v: Vec<String> = Vec::new();
    let mut i: usize = 0;
    while i < items.len()
        invariant
            i <= items@.len(),
            v@.map_values(|s: String| s@) == items@.take(i as int).map_values(|s: &str| s@),
        decreases items@.len() - i,
    {
        let s = string_from(items[i]);
        proof {
            crate::text::lemma_map_values_push(v@, s, |s: String| s@);
            crate::text::lemma_map_values_push(items@.take(i as int), items@[i as int], |s: &str| s@);
            assert(items@.take(i + 1) =~= items@.take(i as int).push(items@[i as int]));
        }
        v.push(s);
        i = i + 1;
    }
    proof {
        assert(items@.take(items@.len() as int) =~= items@);
    }
    v
}

fn shell_target(id: &str, label: &str, command: &str, args: &[&str], timeout_secs: u64) -> (t: ShellCmdTarget)
    ensures
        t.id@ == id@,
        t.label@ == label@,
        t.command@ == command@,
        t.args@.map_values(|s: String| s@) == args@.map_values(|s: &str| s@),
        t.timeout_secs == timeout_secs,
{
    ShellCmdTarget {
        id: string_from(id),
        label: string_from(label),
        command: string_from(command),
        args: strings(args),
        timeout_secs,
    }
}

/// The built-in maintenance commands: Homebrew cleanup and autoremove, and
/// pruning Docker's build cache.
pub fn default_shell_cmd_targets() -> (v: Vec<ShellCmdTarget>)
    ensures
        v@.len() == 3,
        v@[0].id@ == "brew-cleanup"@ && v@[0].label@ == "Homebrew Cleanup"@ && v@[0].command@ == "brew"@
            && v@[0].args@.map_values(|s: String| s@) == seq!["cleanup"@] && v@[0].timeout_secs == 120,
        v@[1].id@ == "brew-autoremove"@ && v@[1].label@ == "Homebrew Autoremove"@ && v@[1].command@ == "brew"@
            && v@[1].args@.map_values(|s: String| s@) == seq!["autoremove"@] && v@[1].timeout_secs == 120,
        v@[2].id@ == "docker-prune"@ && v@[2].label@ == "Docker Build Cache"@ && v@[2].command@ == "docker"@
            && v@[2].args@.map_values(|s: String| s@) == seq!["builder"@, "prune"@, "-f"@] && v@[2].timeout_secs == 300,
{
    let a0: [&str; 1] = ["cleanup"];
    let a1: [&str; 1] = ["autoremove"];
    let a2: [&str; 3] = ["builder", "prune", "-f"];
    let mut v: Vec<ShellCmdTarget> = Vec::new();
    v.push(shell_target("brew-cleanup", "Homebrew Cleanup", "brew", &a0, 120));
    v.push(shell_target("brew-autoremove", "Homebrew Autoremove", "brew", &a1, 120));
    v.push(shell_target("docker-prune", "Docker Build Cache", "docker", &a2, 300));
    proof {
        assert(a0@.map_values(|s: &str| s@) =~= seq!["cleanup"@]);
        assert(a1@.map_values(|s: &str| s@) =~= seq!["autoremove"@]);
        assert(a2@.map_values(|s: &str| s@) =~= seq!["builder"@, "prune"@, "-f"@]);
    }
    v
}

/// How a command run ended: it ran, with its exit status and outputs, or
/// it could not be started (with the reason).
#[derive(Debug, Clone)]
pub enum CommandOutcome {
    Ran { success: bool, stdout: String, stderr: String },
    NotStarted { reason: String },
}

/// The result of a maintenance command from how its run ended: trimmed
/// output; on failure the trimmed error output when there is some; when it
/// could not start, "<command> not found: <reason>".
pub open spec fn shell_result_spec(t: ShellCmdTarget, o: CommandOutcome) -> (bool, Seq<char>, Option<Seq<char>>) {
    match o {
        CommandOutcome::Ran { success, stdout, stderr } => (
            success,
            trim(stdout@),
            if !success && trim(stderr@).len() > 0 {
                Some(trim(stderr@))
            } else {
                None
            },
        ),
        CommandOutcome::NotStarted { reason } => (false, Seq::empty(), Some(t.command@ + " not found: "@ + reason@)),
    }
}

fn trimmed(s: &String) -> (t: String)
    ensures
        t@ == trim(s@),
{
    let cs = chars_of(s.as_str());
    let v = trim_chars(cs.as_slice());
    string_of(v.as_slice())
}

/// Turns how a command run ended into its result.
pub fn shell_cmd_result(target: &ShellCmdTarget, outcome: &CommandOutcome) -> (r: ShellCmdResult)
    ensures
        r.id@ == target.id@,
        r.label@ == target.label@,
        (r.success, r.output@, match r.error {
            Some(e) => Some(e@),
            None => None::<Seq<char>>,
        }) == shell_result_spec(*target, *outcome),
{
    match outcome {
        CommandOutcome::Ran { success, stdout, stderr } => {
            let out = trimmed(stdout);
            let err = trimmed(stderr);
            let error = if !*success && err.as_str().unicode_len() > 0 {
                Some(err)
            } else {
                None
            };
            ShellCmdResult { id: target.id.clone(), label: target.label.clone(), success: *success, output: out, error }
        },
        CommandOutcome::NotStarted { reason } => {
            let mut e = target.command.clone();
            push_str(&mut e, " not found: ");
            push_str(&mut e, reason.as_str());
            proof {
                assert(e@ =~= target.command@ + " not found: "@ + reason@);
            }
            ShellCmdResult { id: target.id.clone(), label: target.label.clone(), success: false, output: String::new(), error: Some(e) }
        },
    }
}

/// The results of running every target, given how each run ended.
pub fn exec_all_shell_cmds(targets: &[ShellCmdTarget], outcomes: &[CommandOutcome]) -> (v: Vec<ShellCmdResult>)
    requires
        outcomes@.len() == targets@.len(),
    ensures
        v@.len() == targets@.len(),
        forall|k: int|
            0 <= k < targets@.len() ==> (#[trigger] v@[k]).id@ == targets@[k].id@ && v@[k].label@ == targets@[k].label@
                && (v@[k].success, v@[k].output@, match v@[k].error {
                Some(e) => Some(e@),
                None => None::<Seq<char>>,
            }) == shell_result_spec(targets@[k], outcomes@[k]),
{
    let mut v: Vec<ShellCmdResult> = Vec::new();
    let mut i: usize = 0;
    while i < targets.len()
        invariant
            outcomes@.len() == targets@.len(),
            i <= targets@.len(),
            v@.len() == i,
            forall|k: int|
                0 <= k < i ==> (#[trigger] v@[k]).id@ == targets@[k].id@ && v@[k].label@ == targets@[k].label@
                    && (v@[k].success, v@[k].output@, match v@[k].error {
                    Some(e) => Some(e@),
                    None => None::<Seq<char>>,
                }) == shell_result_spec(targets@[k], outcomes@[k]),
        decreases targets@.len() - i,
    {
        v.push(shell_cmd_result(&targets[i], &outcomes[i]));
        i = i + 1;
    }
    v
}

/// The audit record written after a maintenance command that ran (whether
/// or not it succeeded); none for a command that could not start.
pub fn shell_cmd_audit(outcome: &CommandOutcome, result: &ShellCmdResult) -> (a: Option<AuditRecord>)
    ensures
        a is Some <==> outcome is Ran,
        a matches Some(r) ==> {
            &&& r.operation == AuditOp::Clean
            &&& r.paths@.len() == 0
            &&& r.total_bytes == 0
            &&& r.success == result.success
            &&& r.error == result.error
        },
{
    match outcome {
        CommandOutcome::NotStarted { .. } => None,
        CommandOutcome::Ran { .. } => Some(
            AuditRecord { operation: AuditOp::Clean, paths: Vec::new(), total_bytes: 0, success: result.success, error: match &result.error {
                Some(e) => Some(e.clone()),
                None => None,
            } },
        ),
    }
}

/// The cleanup item for a build artifact of `kind` at `path` holding
/// `size` bytes: at least low risk, tagged "purge-<directory name>".
pub fn purge_item(platform: crate::safety::Platform, path: &str, kind: ArtifactKind, size: u64, home: Option<&str>) -> (item: CleanItem)
    ensures
        item.path@ == path@,
        item.size == size,
        item.risk == crate::safety::spec_risk_max(
            crate::safety::risk_of(platform, path@, crate::paths::opt_text(home)),
            crate::safety::RiskLevel::Low,
        ),
        item.target_id@ == "purge-"@ + artifact_dir_name(kind),
{
    let risk = crate::safety::risk_max(crate::safety::classify_risk(platform, path, home), crate::safety::RiskLevel::Low);
    let mut id = string_from("purge-");
    push_str(&mut id, kind.dir_name());
    CleanItem { path: string_from(path), size, risk, target_id: id }
}

/// Larger artifacts first.
pub open spec fn artifacts_by_size(a: Seq<(String, ArtifactKind, u64)>) -> bool {
    forall|i: int, j: int| 0 <= i < j < a.len() ==> #[trigger] a[i].2 >= #[trigger] a[j].2
}

/// Orders found artifacts larger first; artifacts of equal size keep
/// their order.
pub fn sort_artifacts(found: &mut Vec<(String, ArtifactKind, u64)>)
    ensures
        final(found)@.to_multiset() == old(found)@.to_multiset(),
        artifacts_by_size(final(found)@),
{
    let ghost orig = found@;
    let mut rest: Vec<(String, ArtifactKind, u64)> = Vec::new();
    std::mem::swap(&mut rest, found);
    let mut out: Vec<(String, ArtifactKind, u64)> = Vec::new();
    let ghost mut k: int = 0;
    proof {
        assert(orig.subrange(0, orig.len() as int) =~= orig);
        assert(orig.take(0) =~= Seq::<(String, ArtifactKind, u64)>::empty());
    }
    while rest.len() > 0
        invariant
            0 <= k <= orig.len(),
            rest@ == orig.subrange(k, orig.len() as int),
            out@.to_multiset() == orig.take(k).to_multiset(),
            artifacts_by_size(out@),
        decreases rest@.len(),
    {
        proof {
            assert(rest@.remove(0) =~= orig.subrange(k + 1, orig.len() as int));
        }
        let e = rest.remove(0);
        let mut p: usize = 0;
        while p < out.len() && out[p].2 >= e.2
            invariant
                p <= out@.len(),
                forall|i: int| 0 <= i < p ==> (#[trigger] out@[i]).2 >= e.2,
            decreases out@.len() - p,
        {
            p = p + 1;
        }
        let ghost before = out@;
        out.insert(p, e);
        proof {
            before.insert_ensures(p as int, e);
            assert forall|i: int, j: int| 0 <= i < j < out@.len() implies #[trigger] out@[i].2 >= #[trigger] out@[j].2 by {
                if j < p {
                    assert(out@[i] == before[i] && out@[j] == before[j]);
                } else if i < p && j == p {
                } else if i < p && j > p {
                    assert(out@[j] == before[j - 1]);
                } else if i == p {
                    assert(out@[j] == before[j - 1]);
                    assert(before[p as int].2 < e.2);
                    assert(before[p as int].2 >= before[j - 1].2 || j - 1 == p);
                } else {
                    assert(out@[i] == before[i - 1]);
                    assert(out@[j] == before[j - 1]);
                }
            }
            vstd::seq_lib::to_multiset_insert(before, p as int, e);
            let t = orig.take(k + 1);
            assert(t =~= orig.take(k).push(orig[k]));
            vstd::seq_lib::to_multiset_build(orig.take(k), orig[k]);
            k = k + 1;
        }
    }
    proof {
        assert(orig.take(orig.len() as int) =~= orig);
    }
    *found = out;
}

/// The free 1 KiB blocks in the lines of a `df -k` report from line `k`
/// on: the fourth field of the first line with at least four fields whose
/// fourth field is a number.
pub open spec fn df_free_blocks(lines: Seq<Seq<char>>, k: int) -> Option<nat>
    decreases lines.len() - k,
{
    if k < 0 || k >= lines.len() {
        None
    } else {
        let w = crate::text::words(lines[k]);
        if w.len() >= 4 && crate::human_size::parse_uint_spec(w[3], u64::MAX as nat) is Some {
            crate::human_size::parse_uint_spec(w[3], u64::MAX as nat)
        } else {
            df_free_blocks(lines, k + 1)
        }
    }
}

/// The free bytes a `df -k` report gives (after its header line), 0 when
/// no line gives them.
pub open spec fn df_free_bytes(report: Seq<char>) -> nat {
    match df_free_blocks(crate::text::split_on(report, '\n'), 1) {
        Some(b) => b * 1024,
        None => 0,
    }
}

/// The free bytes of a `df -k` report (see `df_free_bytes`).
pub fn free_space_from_df(report: &str) -> (r: u64)
    requires
        df_free_bytes(report@) <= u64::MAX,
    ensures
        r == df_free_bytes(report@),
{
    let cs = crate::text::chars_of(report);
    let lines = crate::text::split_chars(cs.as_slice(), '\n');
    let ghost ls = crate::text::texts(lines@);
    let mut k: usize = 1;
    while k < lines.len()
        invariant
            1 <= k,
            ls == crate::text::texts(lines@),
            ls == crate::text::split_on(report@, '\n'),
            df_free_blocks(ls, 1) == df_free_blocks(ls, k as int),
            df_free_bytes(report@) <= u64::MAX,
        decreases lines@.len() - k,
    {
        let w = crate::text::words_of(lines[k].as_slice());
        proof {
            assert(ls[k as int] == lines@[k as int]@);
        }
        if w.len() >= 4 {
            proof {
                assert(crate::text::texts(w@)[3] == w@[3]@);
            }
            if let Some(b) = crate::human_size::parse_uint(w[3].as_slice(), u64::MAX) {
                proof {
                    assert(df_free_bytes(report@) == b * 1024);
                }
                return b * 1024;
            }
        }
        k = k + 1;
    }
    0
}

} // verus!
