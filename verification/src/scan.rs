//! Building a snapshot from a directory walk. The walk itself (reading the
//! file system) happens outside; each entry it yields is handed to
//! `TreeScan::step`, which places it in the tree, skips hard links already
//! counted, and says when a progress report is due.
use crate::bloom::SeenInodes;
use crate::model::{
    flags_dir, flags_file_type, rolled, sat_add, FileType, NodeIndex, Snapshot, SnapshotBuilder, NO_PARENT, ROOT_NODE,
};
use vstd::prelude::*;
use vstd::utf8::encode_utf8;

verus! {

/// Report progress after this many more files.
pub const PROGRESS_FILE_BATCH: u64 = 32;

/// Report progress after this many more bytes.
pub const PROGRESS_BYTES_BATCH: u64 = 0x10_0000;

/// A progress report of a running scan.
#[derive(Debug, Clone)]
pub struct ProgressUpdate {
    pub file_count: u64,
    pub total_bytes: u64,
    pub total_disk_bytes: u64,
    pub current_path: Option<String>,
}

/// Running totals of a scan and what was last reported.
#[derive(Debug)]
pub struct ProgressTracker {
    pub file_count: u64,
    pub total_bytes: u64,
    pub total_disk_bytes: u64,
    pub last_reported_file_count: u64,
    pub last_reported_total_bytes: u64,
    pub last_reported_total_disk_bytes: u64,
    pub current_path: Option<String>,
    /// Whether anyone listens for reports.
    pub active: bool,
}

/// `a - b`, or 0 when `b > a`.
pub open spec fn sat_sub(a: u64, b: u64) -> u64 {
    if a >= b {
        (a - b) as u64
    } else {
        0
    }
}

/// Enough has changed since the last report for a new one.
pub open spec fn report_due(t: ProgressTracker) -> bool {
    sat_sub(t.file_count, t.last_reported_file_count) >= PROGRESS_FILE_BATCH || sat_sub(
        t.total_bytes,
        t.last_reported_total_bytes,
    ) >= PROGRESS_BYTES_BATCH || sat_sub(t.total_disk_bytes, t.last_reported_total_disk_bytes) >= PROGRESS_BYTES_BATCH
}

/// View of an optional text.
pub open spec fn opt_view(o: Option<String>) -> Option<Seq<char>> {
    match o {
        Some(s) => Some(s@),
        None => None,
    }
}

/// The report carrying the tracker's current totals.
pub open spec fn report_of(t: ProgressTracker, u: ProgressUpdate) -> bool {
    &&& u.file_count == t.file_count
    &&& u.total_bytes == t.total_bytes
    &&& u.total_disk_bytes == t.total_disk_bytes
    &&& opt_view(u.current_path) == opt_view(t.current_path)
}

/// The tracker after a check for a due report: when due, the current totals
/// become the last reported ones; otherwise nothing changes.
pub open spec fn after_check(before: ProgressTracker, after: ProgressTracker) -> bool {
    &&& after.file_count == before.file_count
    &&& after.total_bytes == before.total_bytes
    &&& after.total_disk_bytes == before.total_disk_bytes
    &&& opt_view(after.current_path) == opt_view(before.current_path)
    &&& after.active == before.active
    &&& if report_due(before) {
        &&& after.last_reported_file_count == before.file_count
        &&& after.last_reported_total_bytes == before.total_bytes
        &&& after.last_reported_total_disk_bytes == before.total_disk_bytes
    } else {
        &&& after.last_reported_file_count == before.last_reported_file_count
        &&& after.last_reported_total_bytes == before.last_reported_total_bytes
        &&& after.last_reported_total_disk_bytes == before.last_reported_total_disk_bytes
    }
}

fn clone_opt(o: &Option<String>) -> (r: Option<String>)
    ensures
        opt_view(r) == opt_view(*o),
{
    match o {
        Some(s) => Some(s.clone()),
        None => None,
    }
}

impl ProgressTracker {
    /// A tracker with nothing counted; `active` when reports are wanted.
    pub fn new(active: bool) -> (t: Self)
        ensures
            t.file_count == 0 && t.total_bytes == 0 && t.total_disk_bytes == 0,
            t.last_reported_file_count == 0 && t.last_reported_total_bytes == 0 && t.last_reported_total_disk_bytes == 0,
            t.current_path is None,
            t.active == active,
    {
        ProgressTracker {
            file_count: 0,
            total_bytes: 0,
            total_disk_bytes: 0,
            last_reported_file_count: 0,
            last_reported_total_bytes: 0,
            last_reported_total_disk_bytes: 0,
            current_path: None,
            active,
        }
    }

    /// Whether reports are wanted.
    pub fn is_active(&self) -> (b: bool)
        ensures
            b == self.active,
    {
        self.active
    }

    /// Checks whether a report is due; if so, records the current totals as
    /// reported and returns the report to send (when reports are wanted).
    pub fn maybe_report(&mut self) -> (u: Option<ProgressUpdate>)
        ensures
            after_check(*old(self), *final(self)),
            u is Some <==> report_due(*old(self)) && old(self).active,
            u matches Some(r) ==> report_of(*old(self), r),
    {
        let file_delta = self.file_count.saturating_sub(self.last_reported_file_count);
        let size_delta = self.total_bytes.saturating_sub(self.last_reported_total_bytes);
        let disk_delta = self.total_disk_bytes.saturating_sub(self.last_reported_total_disk_bytes);
        if file_delta >= PROGRESS_FILE_BATCH || size_delta >= PROGRESS_BYTES_BATCH || disk_delta >= PROGRESS_BYTES_BATCH {
            self.last_reported_file_count = self.file_count;
            self.last_reported_total_bytes = self.total_bytes;
            self.last_reported_total_disk_bytes = self.total_disk_bytes;
            if self.active {
                return Some(
                    ProgressUpdate {
                        file_count: self.file_count,
                        total_bytes: self.total_bytes,
                        total_disk_bytes: self.total_disk_bytes,
                        current_path: clone_opt(&self.current_path),
                    },
                );
            }
        }
        None
    }

    /// Adds files and bytes to the totals (saturating), notes the current
    /// path when one is given, and returns the report if one is now due.
    pub fn record(&mut self, files: u64, bytes: u64, disk_bytes: u64, path: Option<String>) -> (u: Option<ProgressUpdate>)
        ensures
            ({
                let mid = ProgressTracker {
                    file_count: sat_add(old(self).file_count, files),
                    total_bytes: sat_add(old(self).total_bytes, bytes),
                    total_disk_bytes: sat_add(old(self).total_disk_bytes, disk_bytes),
                    current_path: if path is Some {
                        path
                    } else {
                        old(self).current_path
                    },
                    ..*old(self)
                };
                &&& after_check(mid, *final(self))
                &&& (u is Some <==> report_due(mid) && mid.active)
                &&& (u matches Some(r) ==> report_of(mid, r))
            }),
    {
        self.file_count = self.file_count.saturating_add(files);
        self.total_bytes = self.total_bytes.saturating_add(bytes);
        self.total_disk_bytes = self.total_disk_bytes.saturating_add(disk_bytes);
        if path.is_some() {
            self.current_path = path;
        }
        self.maybe_report()
    }

    /// Counts files without bytes.
    pub fn record_files_only(&mut self, files: u64) -> (u: Option<ProgressUpdate>)
        ensures
            ({
                let mid = ProgressTracker { file_count: sat_add(old(self).file_count, files), ..*old(self) };
                &&& after_check(mid, *final(self))
                &&& (u is Some <==> report_due(mid) && mid.active)
                &&& (u matches Some(r) ==> report_of(mid, r))
            }),
    {
        self.record(files, 0, 0, None)
    }

    /// The final report: the totals, with no current path (none when
    /// reports are not wanted).
    pub fn finish(&self) -> (u: Option<ProgressUpdate>)
        ensures
            u is Some <==> self.active,
            u matches Some(r) ==> r.file_count == self.file_count && r.total_bytes == self.total_bytes && r.total_disk_bytes
                == self.total_disk_bytes && r.current_path is None,
    {
        if self.active {
            Some(
                ProgressUpdate {
                    file_count: self.file_count,
                    total_bytes: self.total_bytes,
                    total_disk_bytes: self.total_disk_bytes,
                    current_path: None,
                },
            )
        } else {
            None
        }
    }
}

/// What the walk found at an entry.
#[derive(Debug, Clone)]
pub enum EntryKind {
    /// A directory.
    Directory,
    /// Any other entry whose metadata could be read, with its type, size
    /// and disk usage (0 and 0 for links), whether it is a regular file or
    /// a symbolic link, and its (device, inode) when known.
    Other { file_type: FileType, size: u64, disk_usage: u64, is_file: bool, is_symlink: bool, id: Option<(u64, u64)> },
    /// An entry whose metadata could not be read.
    Unreadable,
}

/// One entry of the walk: its depth below the root (the root is 0), its
/// name, its full path, and what it is.
#[derive(Debug, Clone)]
pub struct WalkEntry {
    pub depth: usize,
    pub name: String,
    pub path: String,
    pub kind: EntryKind,
}

/// A scan in progress: the tree so far, the directories on the walk's
/// current path (the root first), the hard links seen, and the totals.
pub struct TreeScan {
    pub builder: SnapshotBuilder,
    pub stack: Vec<NodeIndex>,
    pub seen: SeenInodes,
    pub progress: ProgressTracker,
}

/// The walk's directories kept for an entry at `depth`: those above it.
pub open spec fn kept_stack(stack: Seq<NodeIndex>, depth: int) -> Seq<NodeIndex> {
    if stack.len() > depth {
        stack.take(depth)
    } else {
        stack
    }
}

/// The parent of an entry at `depth`: the deepest kept directory (the root
/// when none is kept).
pub open spec fn parent_at(stack: Seq<NodeIndex>, depth: int) -> NodeIndex {
    let k = kept_stack(stack, depth);
    if k.len() > 0 {
        k.last()
    } else {
        ROOT_NODE
    }
}

/// The entry is a hard link to something already counted.
pub open spec fn is_repeat(seen: SeenInodes, kind: EntryKind) -> bool {
    match kind {
        EntryKind::Other { is_file, is_symlink, id: Some(key), .. } => (is_file || is_symlink) && seen.has_seen(key),
        _ => false,
    }
}

/// The entry becomes a node of the tree.
pub open spec fn is_placed(seen: SeenInodes, e: WalkEntry) -> bool {
    e.depth > 0 && !(e.kind is Unreadable) && !is_repeat(seen, e.kind)
}

impl TreeScan {
    /// Consistency: a well-formed tree, and a walk path of existing nodes
    /// starting at the root.
    pub open spec fn wf(self) -> bool {
        &&& self.builder.wf()
        &&& self.seen.wf()
        &&& self.stack@.len() >= 1
        &&& forall|i: int| 0 <= i < self.stack@.len() ==> (#[trigger] self.stack@[i] as int) < self.builder.nodes@.len()
    }

    /// There is room for one more node named `name`.
    pub open spec fn has_room(self, name: Seq<char>) -> bool {
        &&& self.builder.nodes@.len() + 1 < NO_PARENT as int
        &&& self.builder.names@.len() + encode_utf8(name).len() <= 4294967295
        &&& encode_utf8(name).len() <= 65535
    }

    /// A scan holding only the root, named `root_name`.
    pub fn start(root_name: &str, report: bool) -> (s: Self)
        requires
            encode_utf8(root_name@).len() <= 65535,
        ensures
            s.wf(),
            s.builder.nodes@.len() == 1,
            s.builder.name_of(0) == root_name@,
            s.stack@ == seq![ROOT_NODE],
            s.progress.active == report,
            s.progress.file_count == 0,
    {
        let builder = SnapshotBuilder::new(root_name);
        let mut stack: Vec<NodeIndex> = Vec::new();
        stack.push(ROOT_NODE);
        TreeScan { builder, stack, seen: SeenInodes::new(), progress: ProgressTracker::new(report) }
    }

    /// Takes one walk entry: a directory becomes a node under the deepest
    /// directory above it and the new deepest one; another entry becomes a
    /// node unless it is a hard link already counted; unreadable entries and
    /// the root itself are skipped. Files and links are counted; the report
    /// due, if any, is returned.
    pub fn step(&mut self, e: &WalkEntry) -> (u: Option<ProgressUpdate>)
        requires
            old(self).wf(),
            old(self).has_room(e.name@),
        ensures
            final(self).wf(),
            !is_placed(old(self).seen, *e) ==> final(self).builder == old(self).builder,
            is_placed(old(self).seen, *e) && e.kind is Directory ==> SnapshotBuilder::pushed(
                old(self).builder,
                final(self).builder,
                old(self).builder.nodes@.len() as NodeIndex,
                parent_at(old(self).stack@, e.depth as int),
                e.name@,
                true,
                FileType::Directory,
                0,
                0,
            ) && final(self).stack@ == kept_stack(old(self).stack@, e.depth as int).push(
                old(self).builder.nodes@.len() as NodeIndex,
            ),
            is_placed(old(self).seen, *e) ==> (e.kind matches EntryKind::Other { file_type, size, disk_usage, .. }
                ==> SnapshotBuilder::pushed(
                old(self).builder,
                final(self).builder,
                old(self).builder.nodes@.len() as NodeIndex,
                parent_at(old(self).stack@, e.depth as int),
                e.name@,
                false,
                file_type,
                size,
                disk_usage,
            )),
    {
        if e.depth == 0 {
            return None;
        }
        while self.stack.len() > e.depth
            invariant
                self.stack@.len() >= 1 || e.depth == 0,
                e.depth > 0,
                self.builder == old(self).builder,
                self.seen == old(self).seen,
                forall|i: int| 0 <= i < self.stack@.len() ==> (#[trigger] self.stack@[i] as int) < self.builder.nodes@.len(),
                kept_stack(old(self).stack@, e.depth as int) == kept_stack(self.stack@, e.depth as int),
                self.stack@.len() >= e.depth || self.stack@ == old(self).stack@,
            decreases self.stack@.len(),
        {
            let ghost before = self.stack@;
            self.stack.pop();
            proof {
                assert(before.take(e.depth as int) =~= self.stack@.take(e.depth as int));
                if self.stack@.len() == e.depth {
                    assert(self.stack@.take(e.depth as int) =~= self.stack@);
                }
            }
        }
        proof {
            assert(kept_stack(self.stack@, e.depth as int) =~= self.stack@);
        }
        let parent = if self.stack.len() > 0 {
            self.stack[self.stack.len() - 1]
        } else {
            ROOT_NODE
        };
        match &e.kind {
            EntryKind::Directory => {
                let idx = self.builder.push_dir(parent, e.name.as_str());
                self.stack.push(idx);
                proof {
                    assert forall|i: int| 0 <= i < self.stack@.len() implies (#[trigger] self.stack@[i] as int)
                        < self.builder.nodes@.len() by {
                        if i < self.stack@.len() - 1 {
                            assert(self.stack@[i] == kept_stack(old(self).stack@, e.depth as int)[i]);
                        }
                    }
                }
                self.progress.record_files_only(1)
            },
            EntryKind::Unreadable => None,
            EntryKind::Other { file_type, size, disk_usage, is_file, is_symlink, id } => {
                let mut update: Option<ProgressUpdate> = None;
                if *is_file || *is_symlink {
                    if let Some(key) = id {
                        if !self.seen.insert(*key) {
                            proof {
                                assert(is_repeat(old(self).seen, e.kind));
                            }
                            return None;
                        }
                    }
                    if *is_file {
                        let current = if self.progress.is_active() {
                            Some(e.path.clone())
                        } else {
                            None
                        };
                        update = self.progress.record(1, *size, *disk_usage, current);
                    } else {
                        update = self.progress.record_files_only(1);
                    }
                }
                self.builder.push_file(parent, e.name.as_str(), *file_type, *size, *disk_usage);
                update
            },
        }
    }

    /// Ends the scan: rolls sizes and disk usages up the tree and builds the
    /// snapshot of `root_path`, whose totals are the root's rolled-up
    /// amounts; also returns the final progress report.
    pub fn finish(self, root_path: String) -> (r: (Snapshot, Option<ProgressUpdate>))
        requires
            self.wf(),
        ensures
            r.0.wf(),
            r.0.nodes@ == rolled(rolled(self.builder.nodes@, 1, false), 1, true),
            r.0.total_size == r.0.nodes@[0].size,
            r.0.total_disk_usage == r.0.nodes@[0].disk_usage,
            r.0.root_path@ == root_path@,
            r.1 is Some <==> self.progress.active,
    {
        let mut builder = self.builder;
        builder.roll_up_totals();
        proof {
            builder.lemma_wf_tree();
        }
        let total_size = builder.nodes[0].size;
        let total_disk = builder.nodes[0].disk_usage;
        let report = self.progress.finish();
        (builder.finish(root_path, total_size, total_disk), report)
    }
}

/// An entry of a directory listing: its name, whether it is a directory,
/// and for other entries their type, size and disk usage.
#[derive(Debug, Clone)]
pub struct ListedEntry {
    pub name: String,
    pub is_dir: bool,
    pub file_type: FileType,
    pub size: u64,
    pub disk_usage: u64,
}

/// Total size of the non-directory entries.
pub open spec fn listed_total(entries: Seq<ListedEntry>, disk: bool) -> nat
    decreases entries.len(),
{
    if entries.len() == 0 {
        0
    } else {
        listed_total(entries.drop_last(), disk) + if entries.last().is_dir {
            0nat
        } else if disk {
            entries.last().disk_usage as nat
        } else {
            entries.last().size as nat
        }
    }
}

/// Total bytes of the names of the entries.
pub open spec fn names_bytes(entries: Seq<ListedEntry>) -> nat
    decreases entries.len(),
{
    if entries.len() == 0 {
        0
    } else {
        names_bytes(entries.drop_last()) + encode_utf8(entries.last().name@).len()
    }
}

/// The listing fits in a snapshot: few enough entries, names short enough,
/// totals within 64 bits.
pub open spec fn listing_fits(root_name: Seq<char>, entries: Seq<ListedEntry>) -> bool {
    &&& encode_utf8(root_name).len() <= 65535
    &&& entries.len() + 2 < NO_PARENT as int
    &&& encode_utf8(root_name).len() + names_bytes(entries) <= 4294967295
    &&& forall|i: int| 0 <= i < entries.len() ==> encode_utf8(#[trigger] entries[i].name@).len() <= 65535
    &&& listed_total(entries, false) <= u64::MAX
    &&& listed_total(entries, true) <= u64::MAX
}

proof fn lemma_listed_prefix(entries: Seq<ListedEntry>, k: int, disk: bool)
    requires
        0 <= k <= entries.len(),
    ensures
        listed_total(entries.take(k), disk) <= listed_total(entries, disk),
        names_bytes(entries.take(k)) <= names_bytes(entries),
    decreases entries.len() - k,
{
    if k < entries.len() {
        lemma_listed_prefix(entries.drop_last(), k, disk);
        assert(entries.drop_last().take(k) =~= entries.take(k));
    } else {
        assert(entries.take(k) =~= entries);
    }
}

/// A one-level snapshot of a directory named `root_name` at `root_path`:
/// each entry becomes a child of the root, in order (directories with no
/// size), and the root and the snapshot carry the totals of the entries.
pub fn shallow_snapshot(root_name: &str, root_path: String, entries: &[ListedEntry]) -> (snap: Snapshot)
    requires
        listing_fits(root_name@, entries@),
    ensures
        snap.wf(),
        snap.nodes@.len() == entries@.len() + 1,
        snap.name_of(0) == root_name@,
        snap.root_path@ == root_path@,
        snap.total_size == listed_total(entries@, false),
        snap.total_disk_usage == listed_total(entries@, true),
        snap.nodes@[0].size == snap.total_size,
        snap.nodes@[0].disk_usage == snap.total_disk_usage,
        forall|i: int|
            0 <= i < entries@.len() ==> {
                let n = #[trigger] snap.nodes@[i + 1];
                &&& n.parent == ROOT_NODE
                &&& snap.name_of(i + 1) == entries@[i].name@
                &&& flags_dir(n.flags) == entries@[i].is_dir
                &&& n.size == (if entries@[i].is_dir { 0 } else { entries@[i].size })
                &&& n.disk_usage == (if entries@[i].is_dir { 0 } else { entries@[i].disk_usage })
                &&& flags_file_type(n.flags) == (if entries@[i].is_dir { FileType::Directory } else { entries@[i].file_type })
            },
{
    let mut builder = SnapshotBuilder::new(root_name);
    let mut total: u64 = 0;
    let mut total_disk: u64 = 0;
    let mut i: usize = 0;
    proof {
        assert(entries@.take(0) =~= Seq::<ListedEntry>::empty());
    }
    while i < entries.len()
        invariant
            i <= entries@.len(),
            listing_fits(root_name@, entries@),
            builder.wf(),
            builder.nodes@.len() == i + 1,
            builder.names@.len() <= encode_utf8(root_name@).len() + names_bytes(entries@.take(i as int)),
            builder.name_of(0) == root_name@,
            builder.nodes@[0].size == 0 && builder.nodes@[0].disk_usage == 0,
            total == listed_total(entries@.take(i as int), false),
            total_disk == listed_total(entries@.take(i as int), true),
            forall|j: int|
                0 <= j < i ==> {
                    let n = #[trigger] builder.nodes@[j + 1];
                    &&& n.parent == ROOT_NODE
                    &&& builder.name_of(j + 1) == entries@[j].name@
                    &&& flags_dir(n.flags) == entries@[j].is_dir
                    &&& n.size == (if entries@[j].is_dir { 0 } else { entries@[j].size })
                    &&& n.disk_usage == (if entries@[j].is_dir { 0 } else { entries@[j].disk_usage })
                    &&& flags_file_type(n.flags) == (if entries@[j].is_dir { FileType::Directory } else { entries@[j].file_type })
                },
        decreases entries@.len() - i,
    {
        let e = &entries[i];
        proof {
            let t = entries@.take(i + 1);
            assert(t.drop_last() =~= entries@.take(i as int));
            assert(t.last() == entries@[i as int]);
            lemma_listed_prefix(entries@, i + 1, false);
            lemma_listed_prefix(entries@, i + 1, true);
            assert(encode_utf8(entries@[i as int].name@).len() <= 65535);
            assert(names_bytes(entries@.take(i + 1)) == names_bytes(entries@.take(i as int)) + encode_utf8(entries@[i as int].name@).len());
        }
        let ghost before = builder;
        if e.is_dir {
            builder.push_dir(ROOT_NODE, e.name.as_str());
        } else {
            builder.push_file(ROOT_NODE, e.name.as_str(), e.file_type, e.size, e.disk_usage);
            total = total + e.size;
            total_disk = total_disk + e.disk_usage;
        }
        proof {
            assert forall|j: int| 0 <= j < i + 1 implies {
                let n = #[trigger] builder.nodes@[j + 1];
                &&& n.parent == ROOT_NODE
                &&& builder.name_of(j + 1) == entries@[j].name@
                &&& flags_dir(n.flags) == entries@[j].is_dir
                &&& n.size == (if entries@[j].is_dir { 0 } else { entries@[j].size })
                &&& n.disk_usage == (if entries@[j].is_dir { 0 } else { entries@[j].disk_usage })
                &&& flags_file_type(n.flags) == (if entries@[j].is_dir { FileType::Directory } else { entries@[j].file_type })
            } by {
                if j < i {
                    assert(builder.nodes@[j + 1] == builder.nodes@.subrange(0, i + 1)[j + 1]);
                    assert(before.nodes@[j + 1] == builder.nodes@[j + 1]);
                }
            }
            assert(builder.nodes@[0] == builder.nodes@.subrange(0, i + 1)[0]);
        }
        i = i + 1;
    }
    proof {
        assert(entries@.take(entries@.len() as int) =~= entries@);
    }
    let ghost before = builder;
    builder.set_root_totals(total, total_disk);
    proof {
        assert forall|j: int| 0 <= j < entries@.len() implies #[trigger] builder.nodes@[j + 1] == before.nodes@[j + 1] by {
        }
    }
    builder.finish(root_path, total, total_disk)
}

} // verus!
