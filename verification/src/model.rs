//! Compact file-tree model: fixed-width nodes with packed flags, names stored
//! inline (short) or in a shared byte blob (long), and the incremental builder
//! that the scanner fills.
use vstd::prelude::*;
use vstd::utf8::{decode_utf8, encode_utf8, encode_utf8_decode_utf8, encode_utf8_valid_utf8, valid_utf8};

verus! {

/// Index of a node in a snapshot's node table.
pub type NodeIndex = u32;

/// Index of the root node.
pub const ROOT_NODE: NodeIndex = 0;

/// Parent value of the root node.
pub const NO_PARENT: NodeIndex = 4294967295;

/// Snapshot format version.
pub const SNAPSHOT_VERSION: u32 = 4;

/// Names of at most this many bytes are stored inline in the node.
pub const INLINE_NAME_MAX: usize = 12;

/// Flag bit: the node is a directory.
pub const FLAG_DIR: u16 = 1;

/// Flag bit: the name is stored inline.
pub const FLAG_INLINE_NAME: u16 = 2;

/// Shift of the three file-type bits.
pub const FLAG_TYPE_SHIFT: u16 = 2;

/// Mask of the three file-type bits.
pub const FLAG_TYPE_MASK: u16 = 28;

/// Kind of a file-system entry.
#[derive(Debug, Clone, Copy, PartialEq, Eq, Structural)]
pub enum FileType {
    File,
    Directory,
    Symlink,
    Fifo,
    Socket,
    Device,
    Other,
}

/// The three-bit code of a file type.
pub open spec fn file_type_code(t: FileType) -> u16 {
    match t {
        FileType::File => 0,
        FileType::Directory => 1,
        FileType::Symlink => 2,
        FileType::Fifo => 3,
        FileType::Socket => 4,
        FileType::Device => 5,
        FileType::Other => 6,
    }
}

/// The file type of a code; unknown codes are `Other`.
pub open spec fn file_type_of_code(bits: u16) -> FileType {
    if bits == 0 {
        FileType::File
    } else if bits == 1 {
        FileType::Directory
    } else if bits == 2 {
        FileType::Symlink
    } else if bits == 3 {
        FileType::Fifo
    } else if bits == 4 {
        FileType::Socket
    } else if bits == 5 {
        FileType::Device
    } else {
        FileType::Other
    }
}

impl FileType {
    /// Decodes a three-bit code.
    pub fn from_bits(bits: u16) -> (t: FileType)
        ensures
            t == file_type_of_code(bits),
    {
        match bits {
            0 => FileType::File,
            1 => FileType::Directory,
            2 => FileType::Symlink,
            3 => FileType::Fifo,
            4 => FileType::Socket,
            5 => FileType::Device,
            _ => FileType::Other,
        }
    }

    /// Encodes as a three-bit code.
    pub fn to_bits(self) -> (b: u16)
        ensures
            b == file_type_code(self),
            b < 7,
            file_type_of_code(b) == self,
    {
        match self {
            FileType::File => 0,
            FileType::Directory => 1,
            FileType::Symlink => 2,
            FileType::Fifo => 3,
            FileType::Socket => 4,
            FileType::Device => 5,
            FileType::Other => 6,
        }
    }
}

/// Fixed-width tree node (40 bytes). The name lives inline or in the blob.
#[derive(Debug, Clone, Copy)]
pub struct FileNode {
    pub size: u64,
    pub disk_usage: u64,
    pub parent: NodeIndex,
    /// Byte offset into the name blob when the name is not inline.
    pub name_off: u32,
    pub name_len: u16,
    pub flags: u16,
    /// Inline name bytes, valid when the inline flag is set.
    pub inline_name: [u8; 12],
}

/// Directory bit of a flag word.
pub open spec fn flags_dir(flags: u16) -> bool {
    flags & FLAG_DIR != 0
}

/// Inline-name bit of a flag word.
pub open spec fn flags_inline(flags: u16) -> bool {
    flags & FLAG_INLINE_NAME != 0
}

/// File type encoded in a flag word.
pub open spec fn flags_file_type(flags: u16) -> FileType {
    file_type_of_code((flags & FLAG_TYPE_MASK) >> FLAG_TYPE_SHIFT)
}

/// The flag word for the given attributes.
pub open spec fn spec_pack_flags(is_dir: bool, file_type: FileType, inline_name: bool) -> u16 {
    ((file_type_code(file_type) << FLAG_TYPE_SHIFT) | (if is_dir { FLAG_DIR } else { 0u16 })) | (
    if inline_name {
        FLAG_INLINE_NAME
    } else {
        0u16
    })
}

/// Parent of a node, `None` for the root marker.
pub open spec fn spec_parent(node: FileNode) -> Option<NodeIndex> {
    if node.parent == NO_PARENT {
        None
    } else {
        Some(node.parent)
    }
}

impl FileNode {
    pub fn is_dir(&self) -> (b: bool)
        ensures
            b == flags_dir(self.flags),
    {
        self.flags & FLAG_DIR != 0
    }

    pub fn file_type(&self) -> (t: FileType)
        ensures
            t == flags_file_type(self.flags),
    {
        FileType::from_bits((self.flags & FLAG_TYPE_MASK) >> FLAG_TYPE_SHIFT)
    }

    pub fn size(&self) -> (s: u64)
        ensures
            s == self.size,
    {
        self.size
    }

    pub fn set_size(&mut self, s: u64)
        ensures
            *final(self) == (FileNode { size: s, ..*old(self) }),
    {
        self.size = s;
    }

    pub fn disk_usage(&self) -> (d: u64)
        ensures
            d == self.disk_usage,
    {
        self.disk_usage
    }

    pub fn set_disk_usage(&mut self, d: u64)
        ensures
            *final(self) == (FileNode { disk_usage: d, ..*old(self) }),
    {
        self.disk_usage = d;
    }

    pub fn parent(&self) -> (p: Option<NodeIndex>)
        ensures
            p == spec_parent(*self),
    {
        if self.parent == NO_PARENT {
            None
        } else {
            Some(self.parent)
        }
    }

    pub fn set_parent(&mut self, p: Option<NodeIndex>)
        ensures
            *final(self) == (FileNode {
                parent: match p {
                    Some(i) => i,
                    None => NO_PARENT,
                },
                ..*old(self)
            }),
    {
        self.parent = match p {
            Some(i) => i,
            None => NO_PARENT,
        };
    }

    pub fn has_inline_name(&self) -> (b: bool)
        ensures
            b == flags_inline(self.flags),
    {
        self.flags & FLAG_INLINE_NAME != 0
    }
}

proof fn lemma_pack_flags(code: u16, d: u16, i: u16)
    requires
        code < 7,
        d == 0 || d == 1,
        i == 0 || i == 2,
    ensures
        ((((code << 2u16) | d) | i) & 1u16 != 0) == (d == 1),
        ((((code << 2u16) | d) | i) & 2u16 != 0) == (i == 2),
        (((((code << 2u16) | d) | i) & 28u16) >> 2u16) == code,
{
    assert(((((code << 2u16) | d) | i) & 1u16 != 0) == (d == 1)) by (bit_vector)
        requires
            code < 7,
            d == 0 || d == 1,
            i == 0 || i == 2,
    ;
    assert(((((code << 2u16) | d) | i) & 2u16 != 0) == (i == 2)) by (bit_vector)
        requires
            code < 7,
            d == 0 || d == 1,
            i == 0 || i == 2,
    ;
    assert((((((code << 2u16) | d) | i) & 28u16) >> 2u16) == code) by (bit_vector)
        requires
            code < 7,
            d == 0 || d == 1,
            i == 0 || i == 2,
    ;
}

/// Packs node attributes into a flag word. Decoding the word gives back
/// exactly the packed attributes.
pub fn pack_flags(is_dir: bool, file_type: FileType, inline_name: bool) -> (f: u16)
    ensures
        f == spec_pack_flags(is_dir, file_type, inline_name),
        flags_dir(f) == is_dir,
        flags_inline(f) == inline_name,
        flags_file_type(f) == file_type,
{
    let code = file_type.to_bits();
    let mut f = code << FLAG_TYPE_SHIFT;
    if is_dir {
        f = f | FLAG_DIR;
    }
    if inline_name {
        f = f | FLAG_INLINE_NAME;
    }
    proof {
        let d: u16 = if is_dir { 1 } else { 0 };
        let i: u16 = if inline_name { 2 } else { 0 };
        lemma_pack_flags(code, d, i);
        assert(f == ((code << 2u16) | d) | i) by (bit_vector)
            requires
                f == (if inline_name { ((if is_dir { (code << 2u16) | 1u16 } else { code << 2u16 }) | 2u16) } else { (if is_dir { (code << 2u16) | 1u16 } else { code << 2u16 }) }),
                d == (if is_dir { 1u16 } else { 0u16 }),
                i == (if inline_name { 2u16 } else { 0u16 }),
        ;
    }
    f
}

/// Bytes of a node's name: the inline prefix, or its range of the blob
/// (empty when the range lies outside the blob).
pub open spec fn name_bytes(node: FileNode, names: Seq<u8>) -> Seq<u8> {
    if flags_inline(node.flags) {
        node.inline_name@.subrange(0, if node.name_len <= 12 { node.name_len as int } else { 12 })
    } else if node.name_off + node.name_len <= names.len() {
        names.subrange(node.name_off as int, node.name_off + node.name_len)
    } else {
        Seq::empty()
    }
}

/// Text of a node's name: its bytes decoded, or empty when they are not UTF-8.
pub open spec fn name_text(node: FileNode, names: Seq<u8>) -> Seq<char> {
    if valid_utf8(name_bytes(node, names)) {
        decode_utf8(name_bytes(node, names))
    } else {
        Seq::empty()
    }
}

/// Wraps `std::str::from_utf8`: the bytes as text when they are valid UTF-8.
#[verifier::external_body]
fn utf8_text(bytes: &[u8]) -> (s: Option<&str>)
    ensures
        s is Some <==> valid_utf8(bytes@),
        s matches Some(t) ==> t@ == decode_utf8(bytes@),
{
    std::str::from_utf8(bytes).ok()
}

/// The empty string.
fn empty_str() -> (s: &'static str)
    ensures
        s@ == Seq::<char>::empty(),
{
    proof {
        reveal_strlit("");
    }
    ""
}

/// Decodes the name of `node` against the blob `names`.
pub fn node_name<'a>(node: &'a FileNode, names: &'a [u8]) -> (s: &'a str)
    ensures
        s@ == name_text(*node, names@),
{
    if node.has_inline_name() {
        let len = node.name_len as usize;
        let end = if len <= INLINE_NAME_MAX { len } else { INLINE_NAME_MAX };
        let bytes = vstd::slice::slice_subrange(node.inline_name.as_slice(), 0, end);
        match utf8_text(bytes) {
            Some(t) => t,
            None => empty_str(),
        }
    } else {
        let start = node.name_off as u64;
        let end = start + node.name_len as u64;
        if end <= names.len() as u64 {
            let bytes = vstd::slice::slice_subrange(names, start as usize, end as usize);
            match utf8_text(bytes) {
                Some(t) => t,
                None => empty_str(),
            }
        } else {
            empty_str()
        }
    }
}

/// Result of encoding a name: blob offset, length, inline flag bit, inline bytes.
pub type NameSlot = (u32, u16, u16, [u8; 12]);

/// Encodes `name` inline when it has at most 12 bytes, otherwise appends
/// its bytes to `names` and records their offset.
pub fn alloc_name_into(names: &mut Vec<u8>, name: &str) -> (r: NameSlot)
    ensures
        encode_utf8(name@).len() <= 12 ==> {
            &&& final(names)@ == old(names)@
            &&& r.0 == 0
            &&& r.1 == encode_utf8(name@).len()
            &&& r.2 == FLAG_INLINE_NAME
            &&& r.3@.subrange(0, encode_utf8(name@).len() as int) == encode_utf8(name@)
            &&& forall|j: int| encode_utf8(name@).len() <= j < 12 ==> r.3@[j] == 0
        },
        encode_utf8(name@).len() > 12 ==> {
            &&& final(names)@ == old(names)@ + encode_utf8(name@)
            &&& r.0 == old(names)@.len() as u32
            &&& r.1 == (if encode_utf8(name@).len() <= 65535 { encode_utf8(name@).len() as u16 } else { 65535u16 })
            &&& r.2 == 0
            &&& forall|j: int| 0 <= j < 12 ==> r.3@[j] == 0
        },
{
    let bytes = name.as_bytes();
    let blen = bytes.len();
    let len: u16 = if blen <= 65535 { blen as u16 } else { 65535 };
    let mut inline = [0u8; 12];
    proof {
        assert(forall|j: int| 0 <= j < 12 ==> inline@[j] == 0);
    }
    if blen <= INLINE_NAME_MAX {
        let mut i: usize = 0;
        while i < blen
            invariant
                blen == bytes@.len(),
                blen <= 12,
                i <= blen,
                inline@.len() == 12,
                forall|j: int| 0 <= j < i ==> inline@[j] == bytes@[j],
                forall|j: int| i <= j < 12 ==> inline@[j] == 0,
            decreases blen - i,
        {
            inline[i] = bytes[i];
            i = i + 1;
        }
        assert(inline@.subrange(0, blen as int) =~= bytes@);
        return (0, len, FLAG_INLINE_NAME, inline);
    }
    let off = names.len() as u32;
    names.extend_from_slice(bytes);
    (off, len, 0, inline)
}


/// Incremental tree builder. Children are kept as `(parent, child)` pairs in
/// insertion order and turned into compact child lists by `finish`.
pub struct SnapshotBuilder {
    pub nodes: Vec<FileNode>,
    pub names: Vec<u8>,
    pub child_pairs: Vec<(u32, u32)>,
}

impl SnapshotBuilder {
    /// Parents of all nodes, by index.
    pub open spec fn parents(self) -> Seq<NodeIndex> {
        self.nodes@.map_values(|n: FileNode| n.parent)
    }

    /// Text of the name of node `idx`.
    pub open spec fn name_of(self, idx: int) -> Seq<char> {
        name_text(self.nodes@[idx], self.names@)
    }

    /// Tree shape: a root without parent; every other node's parent was
    /// pushed before it; blob ranges inside the blob; indices and offsets
    /// fit in 32 bits.
    pub open spec fn tree_wf(self) -> bool {
        &&& 1 <= self.nodes@.len() <= NO_PARENT as int
        &&& self.names@.len() <= 4294967295
        &&& self.nodes@[0].parent == NO_PARENT
        &&& forall|k: int| 1 <= k < self.nodes@.len() ==> (#[trigger] self.nodes@[k]).parent < k
        &&& forall|k: int|
            0 <= k < self.nodes@.len() && !flags_inline((#[trigger] self.nodes@[k]).flags) ==> self.nodes@[k].name_off
                + self.nodes@[k].name_len <= self.names@.len()
    }

    /// Builder invariant: the tree shape, and one child pair per non-root
    /// node, in index order.
    pub closed spec fn wf(self) -> bool {
        &&& self.tree_wf()
        &&& self.child_pairs@.len() + 1 == self.nodes@.len()
        &&& forall|k: int|
            0 <= k < self.child_pairs@.len() ==> #[trigger] self.child_pairs@[k] == (self.nodes@[k + 1].parent, (k + 1) as u32)
    }

    /// The invariant implies the tree shape.
    pub proof fn lemma_wf_tree(self)
        requires
            self.wf(),
        ensures
            self.tree_wf(),
    {
    }

    /// A builder holding only the root directory named `root_name`.
    pub fn new(root_name: &str) -> (b: Self)
        requires
            encode_utf8(root_name@).len() <= 65535,
        ensures
            b.wf(),
            b.tree_wf(),
            b.nodes@.len() == 1,
            b.nodes@[0].size == 0,
            b.nodes@[0].disk_usage == 0,
            flags_dir(b.nodes@[0].flags),
            flags_file_type(b.nodes@[0].flags) == FileType::Directory,
            b.name_of(0) == root_name@,
            b.names@.len() <= encode_utf8(root_name@).len(),
    {
        let mut names: Vec<u8> = Vec::new();
        let (off, len, name_flags, inline) = alloc_name_into(&mut names, root_name);
        let flags = pack_flags(true, FileType::Directory, name_flags != 0);
        let root = FileNode {
            size: 0,
            disk_usage: 0,
            parent: NO_PARENT,
            name_off: off,
            name_len: len,
            flags,
            inline_name: inline,
        };
        let mut nodes: Vec<FileNode> = Vec::new();
        nodes.push(root);
        let b = SnapshotBuilder { nodes, names, child_pairs: Vec::new() };
        proof {
            if name_flags == 0 {
                assert(b.names@.subrange(off as int, off + len) =~= encode_utf8(root_name@));
            }
            lemma_name_roundtrip(root, b.names@, root_name@);
        }
        b
    }

    pub fn len(&self) -> (n: usize)
        ensures
            n == self.nodes@.len(),
    {
        self.nodes.len()
    }

    pub fn is_empty(&self) -> (b: bool)
        ensures
            b == (self.nodes@.len() == 0),
    {
        self.nodes.len() == 0
    }

    /// Name of node `idx`.
    pub fn name(&self, idx: NodeIndex) -> (s: &str)
        requires
            idx < self.nodes@.len(),
        ensures
            s@ == self.name_of(idx as int),
    {
        node_name(&self.nodes[idx as usize], self.names.as_slice())
    }

    /// Adds a directory under `parent`; returns its index.
    pub fn push_dir(&mut self, parent: NodeIndex, name: &str) -> (idx: NodeIndex)
        requires
            old(self).wf(),
            parent < old(self).nodes@.len(),
            old(self).nodes@.len() < NO_PARENT as int,
            old(self).names@.len() + encode_utf8(name@).len() <= 4294967295,
            encode_utf8(name@).len() <= 65535,
        ensures
            Self::pushed(*old(self), *final(self), idx, parent, name@, true, FileType::Directory, 0, 0),
    {
        self.push_node(parent, name, true, FileType::Directory, 0, 0)
    }

    /// Adds a non-directory entry under `parent`; returns its index.
    pub fn push_file(
        &mut self,
        parent: NodeIndex,
        name: &str,
        file_type: FileType,
        size: u64,
        disk_usage: u64,
    ) -> (idx: NodeIndex)
        requires
            old(self).wf(),
            parent < old(self).nodes@.len(),
            old(self).nodes@.len() < NO_PARENT as int,
            old(self).names@.len() + encode_utf8(name@).len() <= 4294967295,
            encode_utf8(name@).len() <= 65535,
        ensures
            Self::pushed(*old(self), *final(self), idx, parent, name@, false, file_type, size, disk_usage),
    {
        self.push_node(parent, name, false, file_type, size, disk_usage)
    }

    /// `after` is `before` with one new last node carrying these attributes;
    /// every earlier node and its name are unchanged.
    pub open spec fn pushed(
        before: Self,
        after: Self,
        idx: NodeIndex,
        parent: NodeIndex,
        name: Seq<char>,
        is_dir: bool,
        file_type: FileType,
        size: u64,
        disk_usage: u64,
    ) -> bool {
        &&& after.wf()
        &&& after.tree_wf()
        &&& idx as int == before.nodes@.len()
        &&& after.nodes@.len() == before.nodes@.len() + 1
        &&& after.nodes@.subrange(0, idx as int) == before.nodes@
        &&& after.nodes@[idx as int].parent == parent
        &&& after.nodes@[idx as int].size == size
        &&& after.nodes@[idx as int].disk_usage == disk_usage
        &&& flags_dir(after.nodes@[idx as int].flags) == is_dir
        &&& flags_file_type(after.nodes@[idx as int].flags) == file_type
        &&& flags_inline(after.nodes@[idx as int].flags) == (encode_utf8(name).len() <= 12)
        &&& after.name_of(idx as int) == name
        &&& forall|j: int| 0 <= j < idx ==> #[trigger] after.name_of(j) == before.name_of(j)
        &&& after.names@.len() <= before.names@.len() + encode_utf8(name).len()
    }

    fn push_node(
        &mut self,
        parent: NodeIndex,
        name: &str,
        is_dir: bool,
        file_type: FileType,
        size: u64,
        disk_usage: u64,
    ) -> (idx: NodeIndex)
        requires
            old(self).wf(),
            parent < old(self).nodes@.len(),
            old(self).nodes@.len() < NO_PARENT as int,
            old(self).names@.len() + encode_utf8(name@).len() <= 4294967295,
            encode_utf8(name@).len() <= 65535,
        ensures
            Self::pushed(*old(self), *final(self), idx, parent, name@, is_dir, file_type, size, disk_usage),
    {
        let (off, len, name_flags, inline) = alloc_name_into(&mut self.names, name);
        let flags = pack_flags(is_dir, file_type, name_flags != 0);
        let idx = self.nodes.len() as NodeIndex;
        let node = FileNode { size, disk_usage, parent, name_off: off, name_len: len, flags, inline_name: inline };
        self.nodes.push(node);
        self.child_pairs.push((parent, idx));
        proof {
            if name_flags == 0 {
                assert(off as int == old(self).names@.len());
                assert(self.names@.subrange(off as int, off + len) =~= encode_utf8(name@));
            }
            lemma_name_roundtrip(node, self.names@, name@);
            assert(self.nodes@.subrange(0, idx as int) =~= old(self).nodes@);
            assert forall|j: int| 0 <= j < idx implies #[trigger] self.name_of(j) == old(self).name_of(j) by {
                let nd = old(self).nodes@[j];
                assert(self.nodes@[j] == nd);
                if !flags_inline(nd.flags) {
                    assert(name_bytes(nd, self.names@) =~= name_bytes(nd, old(self).names@));
                }
            }
            assert forall|k: int| 0 <= k < self.child_pairs@.len() implies #[trigger] self.child_pairs@[k] == (self.nodes@[k + 1].parent, (k + 1) as u32) by {
                if k < old(self).child_pairs@.len() {
                    assert(old(self).child_pairs@[k] == (old(self).nodes@[k + 1].parent, (k + 1) as u32));
                }
            }
        }
        idx
    }
}

/// A freshly encoded name decodes back to itself.
pub(crate) proof fn lemma_name_roundtrip(node: FileNode, names: Seq<u8>, name: Seq<char>)
    requires
        encode_utf8(name).len() <= 65535,
        node.name_len == encode_utf8(name).len(),
        flags_inline(node.flags) ==> node.inline_name@.subrange(0, node.name_len as int) == encode_utf8(name) && node.name_len <= 12,
        !flags_inline(node.flags) ==> node.name_off + node.name_len <= names.len() && names.subrange(
            node.name_off as int,
            node.name_off + node.name_len,
        ) == encode_utf8(name),
    ensures
        name_text(node, names) == name,
{
    encode_utf8_valid_utf8(name);
    encode_utf8_decode_utf8(name);
}


/// Children of `p` among the pairs: the child of every pair whose parent is
/// `p`, in pair order.
pub open spec fn pair_children(pairs: Seq<(u32, u32)>, p: int) -> Seq<u32>
    decreases pairs.len(),
{
    if pairs.len() == 0 {
        Seq::empty()
    } else {
        pair_children(pairs.drop_last(), p) + (if pairs.last().0 as int == p {
            seq![pairs.last().1]
        } else {
            Seq::empty()
        })
    }
}

/// Nodes among the first `upto` whose parent is `p`, in index order.
pub open spec fn child_list(parents: Seq<NodeIndex>, p: int, upto: int) -> Seq<u32>
    decreases upto,
{
    if upto <= 0 {
        Seq::empty()
    } else {
        child_list(parents, p, upto - 1) + (if parents[upto - 1] as int == p {
            seq![(upto - 1) as u32]
        } else {
            Seq::empty()
        })
    }
}

/// Number of pairs whose parent is below `m`.
pub open spec fn pairs_below(pairs: Seq<(u32, u32)>, m: int) -> nat
    decreases pairs.len(),
{
    if pairs.len() == 0 {
        0
    } else {
        pairs_below(pairs.drop_last(), m) + (if (pairs.last().0 as int) < m {
            1nat
        } else {
            0nat
        })
    }
}

/// Sum of the first `m` counts.
pub open spec fn count_prefix(counts: Seq<u32>, m: int) -> nat
    decreases m,
{
    if m <= 0 {
        0
    } else {
        count_prefix(counts, m - 1) + counts[m - 1] as nat
    }
}

proof fn lemma_pair_children_len(pairs: Seq<(u32, u32)>, p: int)
    ensures
        pair_children(pairs, p).len() <= pairs.len(),
    decreases pairs.len(),
{
    if pairs.len() > 0 {
        lemma_pair_children_len(pairs.drop_last(), p);
    }
}

proof fn lemma_below_step(pairs: Seq<(u32, u32)>, m: int)
    requires
        m >= 0,
    ensures
        pairs_below(pairs, m + 1) == pairs_below(pairs, m) + pair_children(pairs, m).len(),
        pairs_below(pairs, 0) == 0,
        pairs_below(pairs, m) <= pairs.len(),
    decreases pairs.len(),
{
    if pairs.len() > 0 {
        lemma_below_step(pairs.drop_last(), m);
    }
}

proof fn lemma_prefix_is_below(pairs: Seq<(u32, u32)>, counts: Seq<u32>, m: int)
    requires
        0 <= m <= counts.len(),
        forall|q: int| 0 <= q < counts.len() ==> #[trigger] counts[q] as int == pair_children(pairs, q).len(),
    ensures
        count_prefix(counts, m) == pairs_below(pairs, m),
    decreases m,
{
    if m == 0 {
        lemma_below_step(pairs, 0);
    } else {
        lemma_prefix_is_below(pairs, counts, m - 1);
        lemma_below_step(pairs, m - 1);
    }
}

proof fn lemma_prefix_mono(counts: Seq<u32>, a: int, b: int)
    requires
        0 <= a <= b <= counts.len(),
    ensures
        count_prefix(counts, a) + counts[a] <= count_prefix(counts, b) || a == b,
        count_prefix(counts, a) <= count_prefix(counts, b),
    decreases b - a,
{
    if a < b {
        lemma_prefix_mono(counts, a, b - 1);
    }
}

/// The pairs of a builder list the children of `p` as the nodes do.
proof fn lemma_pairs_match_nodes(pairs: Seq<(u32, u32)>, parents: Seq<NodeIndex>, p: int, k: int)
    requires
        0 <= k <= pairs.len(),
        pairs.len() + 1 == parents.len(),
        parents[0] == NO_PARENT,
        0 <= p < NO_PARENT,
        forall|i: int| 0 <= i < pairs.len() ==> #[trigger] pairs[i] == (parents[i + 1], (i + 1) as u32),
    ensures
        pair_children(pairs.take(k), p) == child_list(parents, p, k + 1),
    decreases k,
{
    if k == 0 {
        assert(pairs.take(0).len() == 0);
        assert(child_list(parents, p, 0) == Seq::<u32>::empty());
    } else {
        lemma_pairs_match_nodes(pairs, parents, p, k - 1);
        assert(pairs.take(k).drop_last() =~= pairs.take(k - 1));
        assert(pairs[k - 1] == (parents[k], k as u32));
    }
}


proof fn lemma_pair_children_take(pairs: Seq<(u32, u32)>, k: int, p: int)
    requires
        0 <= k < pairs.len(),
    ensures
        pair_children(pairs.take(k + 1), p) == pair_children(pairs.take(k), p) + (if pairs[k].0 as int == p {
            seq![pairs[k].1]
        } else {
            Seq::empty()
        }),
{
    assert(pairs.take(k + 1).drop_last() =~= pairs.take(k));
}

proof fn lemma_pair_children_prefix_len(pairs: Seq<(u32, u32)>, k: int, p: int)
    requires
        0 <= k <= pairs.len(),
    ensures
        pair_children(pairs.take(k), p).len() <= pair_children(pairs, p).len(),
    decreases pairs.len() - k,
{
    if k == pairs.len() {
        assert(pairs.take(k) =~= pairs);
    } else {
        let d = pairs.drop_last();
        lemma_pair_children_prefix_len(d, k, p);
        assert(d.take(k) =~= pairs.take(k));
    }
}

/// Compact child lists built from `(parent, child)` pairs: node `p`'s
/// children occupy `child_index[child_start[p] .. child_start[p] + child_count[p]]`,
/// in pair order.
pub struct ChildTables {
    pub child_index: Vec<NodeIndex>,
    pub child_start: Vec<u32>,
    pub child_count: Vec<u32>,
}

/// Groups the pairs by parent (a counting sort that keeps pair order).
pub fn build_child_tables(pairs: &Vec<(u32, u32)>, n: usize) -> (t: ChildTables)
    requires
        1 <= n <= 4294967295,
        pairs@.len() < 4294967295,
        forall|k: int| 0 <= k < pairs@.len() ==> (#[trigger] pairs@[k]).0 < n && pairs@[k].1 < n,
    ensures
        forall|i: int| 0 <= i < t.child_index@.len() ==> (#[trigger] t.child_index@[i] as int) < n,
        count_prefix(t.child_count@, n as int) == pairs@.len(),
        t.child_count@.len() == n,
        t.child_start@.len() == n,
        t.child_index@.len() == pairs@.len(),
        forall|p: int| 0 <= p < n ==> #[trigger] t.child_count@[p] as int == pair_children(pairs@, p).len(),
        forall|p: int| 0 <= p < n ==> #[trigger] t.child_start@[p] as int == count_prefix(t.child_count@, p),
        forall|p: int|
            0 <= p < n ==> t.child_index@.subrange(
                #[trigger] t.child_start@[p] as int,
                t.child_start@[p] + t.child_count@[p],
            ) == pair_children(pairs@, p),
{
    let np = pairs.len();
    let mut child_count: Vec<u32> = vec![0u32; n];
    let mut k: usize = 0;
    while k < np
        invariant
            np == pairs@.len(),
            np < 4294967295,
            k <= np,
            child_count@.len() == n,
            forall|j: int| 0 <= j < pairs@.len() ==> (#[trigger] pairs@[j]).0 < n,
            forall|p: int| 0 <= p < n ==> #[trigger] child_count@[p] as int == pair_children(pairs@.take(k as int), p).len(),
        decreases np - k,
    {
        let parent = pairs[k].0 as usize;
        proof {
            lemma_pair_children_len(pairs@.take(k as int), parent as int);
        }
        let c = child_count[parent];
        child_count.set(parent, c + 1);
        proof {
            assert forall|p: int| 0 <= p < n implies #[trigger] child_count@[p] as int == pair_children(pairs@.take(k + 1), p).len() by {
                lemma_pair_children_take(pairs@, k as int, p);
            }
        }
        k = k + 1;
    }
    assert(pairs@.take(np as int) =~= pairs@);
    let mut child_start: Vec<u32> = Vec::new();
    let mut total: u32 = 0;
    let mut q: usize = 0;
    while q < n
        invariant
            np == pairs@.len(),
            np < 4294967295,
            q <= n,
            child_count@.len() == n,
            child_start@.len() == q,
            total as int == count_prefix(child_count@, q as int),
            forall|p: int| 0 <= p < n ==> #[trigger] child_count@[p] as int == pair_children(pairs@, p).len(),
            forall|p: int| 0 <= p < q ==> #[trigger] child_start@[p] as int == count_prefix(child_count@, p),
        decreases n - q,
    {
        proof {
            lemma_prefix_is_below(pairs@, child_count@, (q + 1) as int);
            lemma_below_step(pairs@, (q + 1) as int);
        }
        child_start.push(total);
        total = total + child_count[q];
        q = q + 1;
    }
    proof {
        lemma_prefix_is_below(pairs@, child_count@, n as int);
        lemma_below_step(pairs@, n as int);
        assert forall|j: int| 0 <= j < np implies (pairs@[j].0 as int) < n by {}
        lemma_all_below(pairs@, n as int);
    }
    let mut child_index: Vec<u32> = vec![0u32; total as usize];
    let mut write_pos: Vec<u32> = child_start.clone();
    proof {
        assert(write_pos@ =~= child_start@);
        assert(pairs@.take(0) =~= Seq::<(u32, u32)>::empty());
        assert forall|p: int|
            0 <= p < n implies child_index@.subrange(#[trigger] child_start@[p] as int, write_pos@[p] as int) == pair_children(
                pairs@.take(0),
                p,
            ) by {
            lemma_prefix_mono(child_count@, p, n as int);
            assert(child_index@.subrange(child_start@[p] as int, write_pos@[p] as int) =~= Seq::<u32>::empty());
        }
    }
    let mut k: usize = 0;
    while k < np
        invariant
            np == pairs@.len(),
            k <= np,
            child_count@.len() == n,
            child_start@.len() == n,
            write_pos@.len() == n,
            child_index@.len() == total,
            1 <= n,
            forall|j: int| 0 <= j < pairs@.len() ==> (#[trigger] pairs@[j]).1 < n,
            forall|i: int| 0 <= i < child_index@.len() ==> (#[trigger] child_index@[i] as int) < n,
            total as int == count_prefix(child_count@, n as int),
            forall|j: int| 0 <= j < pairs@.len() ==> (#[trigger] pairs@[j]).0 < n,
            forall|p: int| 0 <= p < n ==> #[trigger] child_count@[p] as int == pair_children(pairs@, p).len(),
            forall|p: int| 0 <= p < n ==> #[trigger] child_start@[p] as int == count_prefix(child_count@, p),
            forall|p: int|
                0 <= p < n ==> #[trigger] write_pos@[p] as int == child_start@[p] + pair_children(pairs@.take(k as int), p).len(),
            forall|p: int|
                0 <= p < n ==> child_index@.subrange(#[trigger] child_start@[p] as int, write_pos@[p] as int) == pair_children(
                    pairs@.take(k as int),
                    p,
                ),
        decreases np - k,
    {
        let (parent, child) = pairs[k];
        let pu = parent as usize;
        let pos = write_pos[pu];
        proof {
            lemma_pair_children_prefix_len(pairs@, k as int, pu as int);
            lemma_pair_children_prefix_len(pairs@, (k + 1) as int, pu as int);
            lemma_pair_children_take(pairs@, k as int, pu as int);
            lemma_prefix_mono(child_count@, pu + 1, n as int);
        }
        let ghost before = child_index@;
        let ghost wbefore = write_pos@;
        child_index.set(pos as usize, child);
        write_pos.set(pu, pos + 1);
        proof {
            assert forall|p: int| 0 <= p < n implies #[trigger] write_pos@[p] as int == child_start@[p]
                + pair_children(pairs@.take(k + 1), p).len() by {
                lemma_pair_children_take(pairs@, k as int, p);
            }
            assert forall|p: int|
                0 <= p < n implies child_index@.subrange(#[trigger] child_start@[p] as int, write_pos@[p] as int)
                == pair_children(pairs@.take(k + 1), p) by {
                lemma_pair_children_take(pairs@, k as int, p);
                lemma_pair_children_prefix_len(pairs@, k as int, p);
                if p == pu as int {
                    assert(child_index@.subrange(child_start@[p] as int, write_pos@[p] as int) =~= before.subrange(
                        child_start@[p] as int,
                        wbefore[p] as int,
                    ).push(child));
                } else {
                    assert(write_pos@[p] == wbefore[p]);
                    assert(wbefore[p] <= child_start@[p] + child_count@[p]);
                    assert(count_prefix(child_count@, p + 1) == count_prefix(child_count@, p) + child_count@[p]);
                    assert(count_prefix(child_count@, pu + 1) == count_prefix(child_count@, pu as int) + child_count@[pu as int]);
                    if p < pu {
                        lemma_prefix_mono(child_count@, p + 1, pu as int);
                        assert(wbefore[p] <= pos);
                    } else {
                        lemma_prefix_mono(child_count@, pu + 1, p);
                        assert(pos < child_start@[p]);
                    }
                    lemma_prefix_mono(child_count@, p + 1, n as int);
                    assert(child_index@.subrange(child_start@[p] as int, write_pos@[p] as int) =~= before.subrange(
                        child_start@[p] as int,
                        wbefore[p] as int,
                    ));
                }
            }
        }
        k = k + 1;
    }
    proof {
        assert(pairs@.take(np as int) =~= pairs@);
    }
    ChildTables { child_index, child_start, child_count }
}

proof fn lemma_all_below(pairs: Seq<(u32, u32)>, m: int)
    requires
        forall|j: int| 0 <= j < pairs.len() ==> (#[trigger] pairs[j]).0 < m,
    ensures
        pairs_below(pairs, m) == pairs.len(),
    decreases pairs.len(),
{
    if pairs.len() > 0 {
        let d = pairs.drop_last();
        assert forall|j: int| 0 <= j < d.len() implies (#[trigger] d[j]).0 < m by {
            assert(d[j] == pairs[j]);
        }
        lemma_all_below(d, m);
    }
}


/// Lowercase hexadecimal digit of `d` (0..=15).
pub open spec fn hex_digit(d: nat) -> char {
    if d < 10 {
        crate::text::digit_char(d)
    } else if d == 10 {
        'a'
    } else if d == 11 {
        'b'
    } else if d == 12 {
        'c'
    } else if d == 13 {
        'd'
    } else if d == 14 {
        'e'
    } else {
        'f'
    }
}

/// Two lowercase hexadecimal digits per byte.
pub open spec fn hex_text(bytes: Seq<u8>) -> Seq<char>
    decreases bytes.len(),
{
    if bytes.len() == 0 {
        Seq::empty()
    } else {
        hex_text(bytes.drop_last()).push(hex_digit((bytes.last() / 16) as nat)).push(
            hex_digit((bytes.last() % 16) as nat),
        )
    }
}

fn hex_char(d: u8) -> (c: char)
    requires
        d < 16,
    ensures
        c == hex_digit(d as nat),
{
    if d < 10 {
        let v = crate::text::decimal_chars(d as u64);
        v[0]
    } else if d == 10 {
        'a'
    } else if d == 11 {
        'b'
    } else if d == 12 {
        'c'
    } else if d == 13 {
        'd'
    } else if d == 14 {
        'e'
    } else {
        'f'
    }
}

/// Lowercase hexadecimal encoding of `bytes`.
pub fn hex_encode(bytes: &[u8]) -> (s: String)
    ensures
        s@ == hex_text(bytes@),
{
    let mut s = String::new();
    let mut i: usize = 0;
    while i < bytes.len()
        invariant
            i <= bytes@.len(),
            s@ == hex_text(bytes@.take(i as int)),
        decreases bytes@.len() - i,
    {
        let b = bytes[i];
        crate::text::push_char(&mut s, hex_char(b / 16));
        crate::text::push_char(&mut s, hex_char(b % 16));
        proof {
            assert(bytes@.take(i + 1).drop_last() =~= bytes@.take(i as int));
        }
        i = i + 1;
    }
    proof {
        assert(bytes@.take(bytes@.len() as int) =~= bytes@);
    }
    s
}

/// SHA-256 digest of `data`, as computed by the `sha2` crate.
pub uninterp spec fn sha256_digest(data: Seq<u8>) -> Seq<u8>;

/// Wraps `sha2::Sha256::digest`: the 32-byte SHA-256 digest of `data`.
#[verifier::external_body]
fn sha256(data: &[u8]) -> (d: Vec<u8>)
    ensures
        d@ == sha256_digest(data@),
        d@.len() == 32,
{
    <sha2::Sha256 as sha2::Digest>::digest(data).to_vec()
}

/// Short identifier of a root path: hex of the first 4 bytes of the
/// SHA-256 of its UTF-8 bytes.
pub open spec fn root_hash_text(path: Seq<char>) -> Seq<char> {
    hex_text(sha256_digest(encode_utf8(path)).take(4))
}

/// Short identifier of a root path (8 hexadecimal digits).
pub fn hash_root_path(path: &str) -> (s: String)
    ensures
        s@ == root_hash_text(path@),
{
    let d = sha256(path.as_bytes());
    let head = vstd::slice::slice_subrange(d.as_slice(), 0, 4);
    hex_encode(head)
}

/// Number of nodes that are not directories.
pub open spec fn non_dir_count(nodes: Seq<FileNode>) -> nat
    decreases nodes.len(),
{
    if nodes.len() == 0 {
        0
    } else {
        non_dir_count(nodes.drop_last()) + (if flags_dir(nodes.last().flags) {
            0nat
        } else {
            1nat
        })
    }
}

/// In-memory file tree: compact nodes, a name blob, and compact child lists
/// (node `p`'s children are `child_index[child_start[p] ..][.. child_count[p]]`).
pub struct Snapshot {
    pub version: u32,
    /// Creation time, milliseconds since the Unix epoch.
    pub timestamp_ms: i64,
    pub root_path: String,
    pub root_path_hash: String,
    pub total_size: u64,
    pub total_disk_usage: u64,
    pub total_files: u64,
    pub nodes: Vec<FileNode>,
    pub names: Vec<u8>,
    pub child_index: Vec<NodeIndex>,
    pub child_start: Vec<u32>,
    pub child_count: Vec<u32>,
}

impl Snapshot {
    /// Children of node `p` (empty when its range is not inside the table).
    pub open spec fn children_of(self, p: int) -> Seq<NodeIndex> {
        if 0 <= p < self.child_start@.len() && p < self.child_count@.len() && self.child_start@[p]
            + self.child_count@[p] <= self.child_index@.len() {
            self.child_index@.subrange(self.child_start@[p] as int, self.child_start@[p] + self.child_count@[p])
        } else {
            Seq::empty()
        }
    }

    /// Text of the name of node `idx`.
    pub open spec fn name_of(self, idx: int) -> Seq<char> {
        name_text(self.nodes@[idx], self.names@)
    }

    /// Well-formedness: one child-table entry per node, child ranges inside
    /// the table, child indices naming nodes, at least a root.
    pub open spec fn wf(self) -> bool {
        &&& 1 <= self.nodes@.len() <= NO_PARENT as int
        &&& self.child_start@.len() == self.nodes@.len()
        &&& self.child_count@.len() == self.nodes@.len()
        &&& forall|p: int|
            0 <= p < self.nodes@.len() ==> #[trigger] self.child_start@[p] + self.child_count@[p]
                <= self.child_index@.len()
        &&& forall|i: int| 0 <= i < self.child_index@.len() ==> (#[trigger] self.child_index@[i] as int) < self.nodes@.len()
        &&& forall|p: int, q: int|
            0 <= p < self.nodes@.len() && 0 <= q < self.nodes@.len() && p != q ==> Self::disjoint(
                #[trigger] self.child_start@[p] as int,
                self.child_count@[p] as int,
                #[trigger] self.child_start@[q] as int,
                self.child_count@[q] as int,
            )
    }

    /// Two child ranges do not share a slot.
    pub open spec fn disjoint(s1: int, c1: int, s2: int, c2: int) -> bool {
        c1 == 0 || c2 == 0 || s1 + c1 <= s2 || s2 + c2 <= s1
    }

    /// Every child comes after its parent in the node table.
    pub open spec fn ordered(self) -> bool {
        forall|p: int, i: int|
            0 <= p < self.nodes@.len() && 0 <= i < self.children_of(p).len() ==> p < #[trigger] self.children_of(p)[i]
    }
}

impl SnapshotBuilder {
    /// Turns the builder into a snapshot. Each node's children are exactly
    /// the nodes that were pushed under it, in push order.
    pub fn finish(self, root_path: String, total_size: u64, total_disk_usage: u64) -> (snap: Snapshot)
        requires
            self.wf(),
        ensures
            snap.wf(),
            snap.version == SNAPSHOT_VERSION,
            snap.root_path@ == root_path@,
            snap.root_path_hash@ == root_hash_text(root_path@),
            snap.total_size == total_size,
            snap.total_disk_usage == total_disk_usage,
            snap.total_files == non_dir_count(self.nodes@),
            snap.nodes@ == self.nodes@,
            snap.names@ == self.names@,
            forall|p: int| 0 <= p < self.nodes@.len() ==> #[trigger] snap.children_of(p) == child_list(self.parents(), p, self.nodes@.len() as int),
            snap.ordered(),
    {
        let n = self.nodes.len();
        let tables = build_child_tables(&self.child_pairs, n);
        let mut total_files: u64 = 0;
        let mut i: usize = 0;
        while i < n
            invariant
                n == self.nodes@.len(),
                i <= n,
                n <= NO_PARENT,
                total_files as int == non_dir_count(self.nodes@.take(i as int)),
                total_files <= i,
            decreases n - i,
        {
            if !self.nodes[i].is_dir() {
                total_files = total_files + 1;
            }
            proof {
                assert(self.nodes@.take(i + 1).drop_last() =~= self.nodes@.take(i as int));
            }
            i = i + 1;
        }
        proof {
            assert(self.nodes@.take(n as int) =~= self.nodes@);
        }
        let root_path_hash = hash_root_path(root_path.as_str());
        let timestamp_ms = crate::time_args::now_signed();
        let ChildTables { child_index, child_start, child_count } = tables;
        let snap = Snapshot {
            version: SNAPSHOT_VERSION,
            timestamp_ms,
            root_path,
            root_path_hash,
            total_size,
            total_disk_usage,
            total_files,
            nodes: self.nodes,
            names: self.names,
            child_index,
            child_start,
            child_count,
        };
        proof {
            let parents = self.parents();
            assert forall|p: int| 0 <= p < n implies #[trigger] snap.children_of(p) == child_list(parents, p, n as int) by {
                lemma_prefix_mono(snap.child_count@, p + 1, n as int);
                assert(count_prefix(snap.child_count@, p + 1) == count_prefix(snap.child_count@, p) + snap.child_count@[p]);
                lemma_pairs_match_nodes(self.child_pairs@, parents, p, self.child_pairs@.len() as int);
                assert(self.child_pairs@.take(self.child_pairs@.len() as int) =~= self.child_pairs@);
            }
            assert forall|p: int| 0 <= p < n implies #[trigger] snap.child_start@[p] + snap.child_count@[p] <= snap.child_index@.len() by {
                lemma_prefix_mono(snap.child_count@, p + 1, n as int);
                assert(count_prefix(snap.child_count@, p + 1) == count_prefix(snap.child_count@, p) + snap.child_count@[p]);
            }
            assert forall|p: int, q: int| 0 <= p < n && 0 <= q < n && p != q implies Snapshot::disjoint(
                #[trigger] snap.child_start@[p] as int,
                snap.child_count@[p] as int,
                #[trigger] snap.child_start@[q] as int,
                snap.child_count@[q] as int,
            ) by {
                assert(count_prefix(snap.child_count@, p + 1) == count_prefix(snap.child_count@, p) + snap.child_count@[p]);
                assert(count_prefix(snap.child_count@, q + 1) == count_prefix(snap.child_count@, q) + snap.child_count@[q]);
                if p < q {
                    lemma_prefix_mono(snap.child_count@, p + 1, q);
                } else {
                    lemma_prefix_mono(snap.child_count@, q + 1, p);
                }
            }
            assert forall|p: int, i: int| 0 <= p < n && 0 <= i < snap.children_of(p).len() implies p < #[trigger] snap.children_of(p)[i] by {
                lemma_child_list_members(parents, p, n as int);
                let k = snap.children_of(p)[i] as int;
                assert(parents[k] == self.nodes@[k].parent);
                assert(parents[0] == NO_PARENT);
            }
        }
        snap
    }
}


/// Members of a child list are nodes before `upto` whose parent is `p`.
proof fn lemma_child_list_members(parents: Seq<NodeIndex>, p: int, upto: int)
    requires
        upto <= parents.len(),
        upto <= 0xFFFF_FFFF,
    ensures
        forall|i: int|
            0 <= i < child_list(parents, p, upto).len() ==> {
                let k = #[trigger] child_list(parents, p, upto)[i] as int;
                0 <= k < upto && parents[k] as int == p
            },
    decreases upto,
{
    if upto > 0 {
        lemma_child_list_members(parents, p, upto - 1);
        let prev = child_list(parents, p, upto - 1);
        assert forall|i: int| 0 <= i < child_list(parents, p, upto).len() implies {
            let k = #[trigger] child_list(parents, p, upto)[i] as int;
            0 <= k < upto && parents[k] as int == p
        } by {
            assert(child_list(parents, p, upto) == prev + (if parents[upto - 1] as int == p {
                seq![(upto - 1) as u32]
            } else {
                Seq::<u32>::empty()
            }));
            if i < prev.len() {
                assert(child_list(parents, p, upto)[i] == prev[i]);
            }
        }
    }
}

/// Character-wise equality of two strings.
pub fn str_eq(a: &str, b: &str) -> (r: bool)
    ensures
        r == (a@ == b@),
{
    let x = crate::text::chars_of(a);
    let y = crate::text::chars_of(b);
    crate::text::chars_eq(x.as_slice(), y.as_slice())
}

impl Snapshot {
    /// First child of `kids` (in order) whose name is `name`.
    pub open spec fn first_named(self, kids: Seq<NodeIndex>, name: Seq<char>) -> Option<NodeIndex>
        decreases kids.len(),
    {
        if kids.len() == 0 {
            None
        } else if self.name_of(kids[0] as int) == name {
            Some(kids[0])
        } else {
            self.first_named(kids.drop_first(), name)
        }
    }

    /// Node reached from `idx` by following the path components: the first
    /// must be `idx`'s own name, each next one a child's name.
    pub open spec fn path_target(self, idx: int, path: Seq<Seq<char>>) -> Option<NodeIndex>
        decreases path.len(),
    {
        if path.len() == 0 {
            None
        } else if self.name_of(idx) != path[0] {
            None
        } else if path.len() == 1 {
            Some(idx as NodeIndex)
        } else {
            match self.first_named(self.children_of(idx), path[1]) {
                None => None,
                Some(c) => self.path_target(c as int, path.drop_first()),
            }
        }
    }

    pub fn node_count(&self) -> (n: usize)
        ensures
            n == self.nodes@.len(),
    {
        self.nodes.len()
    }

    pub fn root(&self) -> (r: &FileNode)
        requires
            self.wf(),
        ensures
            *r == self.nodes@[0],
    {
        &self.nodes[0]
    }

    pub fn node(&self, idx: NodeIndex) -> (r: &FileNode)
        requires
            idx < self.nodes@.len(),
        ensures
            *r == self.nodes@[idx as int],
    {
        &self.nodes[idx as usize]
    }

    /// Name of node `idx`.
    pub fn name(&self, idx: NodeIndex) -> (s: &str)
        requires
            idx < self.nodes@.len(),
        ensures
            s@ == self.name_of(idx as int),
    {
        node_name(&self.nodes[idx as usize], self.names.as_slice())
    }

    /// Children of node `idx`.
    pub fn children(&self, idx: NodeIndex) -> (c: &[NodeIndex])
        requires
            self.child_count@.len() >= self.child_start@.len(),
        ensures
            c@ == self.children_of(idx as int),
    {
        let i = idx as usize;
        if i >= self.child_start.len() {
            return vstd::slice::slice_subrange(self.child_index.as_slice(), 0, 0);
        }
        let start = self.child_start[i] as u64;
        let count = self.child_count[i] as u64;
        let end = start + count;
        if end > self.child_index.len() as u64 {
            return vstd::slice::slice_subrange(self.child_index.as_slice(), 0, 0);
        }
        vstd::slice::slice_subrange(self.child_index.as_slice(), start as usize, end as usize)
    }

    /// Recorded number of children of `idx` (0 when out of range).
    pub fn children_len(&self, idx: NodeIndex) -> (n: usize)
        ensures
            n == (if (idx as int) < self.child_count@.len() {
                self.child_count@[idx as int] as int
            } else {
                0
            }),
    {
        if (idx as usize) < self.child_count.len() {
            self.child_count[idx as usize] as usize
        } else {
            0
        }
    }

    pub fn children_is_empty(&self, idx: NodeIndex) -> (b: bool)
        ensures
            b == ((idx as int) >= self.child_count@.len() || self.child_count@[idx as int] == 0),
    {
        self.children_len(idx) == 0
    }

    pub fn children_clone(&self, idx: NodeIndex) -> (v: Vec<NodeIndex>)
        requires
            self.child_count@.len() >= self.child_start@.len(),
        ensures
            v@ == self.children_of(idx as int),
    {
        vstd::slice::slice_to_vec(self.children(idx))
    }

    /// First child of `parent` named `name`.
    pub fn child_idx(&self, parent: NodeIndex, name: &str) -> (r: Option<NodeIndex>)
        requires
            self.wf(),
        ensures
            r == self.first_named(self.children_of(parent as int), name@),
    {
        let kids = self.children(parent);
        proof {
            assert(kids@.subrange(0, kids@.len() as int) =~= kids@);
        }
        let mut i: usize = 0;
        while i < kids.len()
            invariant
                self.wf(),
                kids@ == self.children_of(parent as int),
                i <= kids@.len(),
                self.first_named(kids@, name@) == self.first_named(kids@.subrange(i as int, kids@.len() as int), name@),
            decreases kids@.len() - i,
        {
            let c = kids[i];
            proof {
                if (parent as int) < self.nodes@.len() {
                    let st = self.child_start@[parent as int] as int;
                    assert(self.child_index@[st + i] == c);
                } else {
                    assert(kids@.len() == 0);
                }
                assert(kids@.subrange(i as int, kids@.len() as int).drop_first() =~= kids@.subrange(i + 1, kids@.len() as int));
            }
            if str_eq(self.name(c), name) {
                return Some(c);
            }
            i = i + 1;
        }
        None
    }

    /// Walks path components from `idx` (the first must be `idx`'s name).
    pub fn find_node(&self, idx: NodeIndex, target_path: &[String]) -> (r: Option<NodeIndex>)
        requires
            self.wf(),
            idx < self.nodes@.len(),
        ensures
            r == self.path_target(idx as int, target_path@.map_values(|s: String| s@)),
        decreases target_path@.len(),
    {
        let ghost path = target_path@.map_values(|s: String| s@);
        if target_path.len() == 0 {
            return None;
        }
        if !str_eq(self.name(idx), target_path[0].as_str()) {
            return None;
        }
        if target_path.len() == 1 {
            return Some(idx);
        }
        let tail = vstd::slice::slice_subrange(target_path, 1, target_path.len());
        proof {
            assert(tail@.map_values(|s: String| s@) =~= path.drop_first());
        }
        match self.child_idx(idx, target_path[1].as_str()) {
            None => None,
            Some(c) => {
                proof {
                    let kids = self.children_of(idx as int);
                    assert forall|i: int| 0 <= i < kids.len() implies (#[trigger] kids[i] as int) < self.nodes@.len() by {
                        let st = self.child_start@[idx as int] as int;
                        assert(kids[i] == self.child_index@[st + i]);
                    }
                    lemma_first_named_in(*self, kids, path[1]);
                }
                self.find_node(c, tail)
            },
        }
    }
}

proof fn lemma_first_named_in(snap: Snapshot, kids: Seq<NodeIndex>, name: Seq<char>)
    requires
        forall|i: int| 0 <= i < kids.len() ==> (#[trigger] kids[i] as int) < snap.nodes@.len(),
    ensures
        snap.first_named(kids, name) matches Some(c) ==> (c as int) < snap.nodes@.len(),
    decreases kids.len(),
{
    if kids.len() > 0 {
        let d = kids.drop_first();
        assert forall|i: int| 0 <= i < d.len() implies (#[trigger] d[i] as int) < snap.nodes@.len() by {
            assert(d[i] == kids[i + 1]);
        }
        lemma_first_named_in(snap, d, name);
    }
}


impl Snapshot {
    /// Appends a node with no children; returns its index.
    pub fn push_node(&mut self, node: FileNode) -> (idx: NodeIndex)
        requires
            old(self).wf(),
            old(self).nodes@.len() < NO_PARENT as int,
        ensures
            final(self).wf(),
            idx as int == old(self).nodes@.len(),
            final(self).nodes@ == old(self).nodes@.push(node),
            final(self).names@ == old(self).names@,
            final(self).child_index@ == old(self).child_index@,
            final(self).children_of(idx as int) == Seq::<NodeIndex>::empty(),
            forall|p: int| 0 <= p < old(self).nodes@.len() ==> #[trigger] final(self).children_of(p) == old(self).children_of(p),
    {
        let idx = self.nodes.len() as NodeIndex;
        self.nodes.push(node);
        self.child_start.push(0);
        self.child_count.push(0);
        proof {
            assert(self.children_of(idx as int) =~= Seq::<NodeIndex>::empty());
            assert forall|p: int| 0 <= p < old(self).nodes@.len() implies #[trigger] self.children_of(p) == old(self).children_of(p) by {
                assert(self.child_start@[p] == old(self).child_start@[p]);
                assert(self.child_count@[p] == old(self).child_count@[p]);
            }
            assert forall|p: int, q: int|
                0 <= p < self.nodes@.len() && 0 <= q < self.nodes@.len() && p != q implies Snapshot::disjoint(
                    #[trigger] self.child_start@[p] as int,
                    self.child_count@[p] as int,
                    #[trigger] self.child_start@[q] as int,
                    self.child_count@[q] as int,
                ) by {
                if p < old(self).nodes@.len() && q < old(self).nodes@.len() {
                    assert(old(self).child_start@[p] == self.child_start@[p]);
                    assert(old(self).child_start@[q] == self.child_start@[q]);
                }
            }
        }
        idx
    }

    /// Appends `child` to `parent`'s children, moving the parent's range to
    /// the end of the table when it is not already last.
    pub fn push_child(&mut self, parent: NodeIndex, child: NodeIndex)
        requires
            old(self).wf(),
            parent < old(self).nodes@.len(),
            child < old(self).nodes@.len(),
            old(self).child_index@.len() + old(self).child_count@[parent as int] + 1 <= 4294967295,
        ensures
            final(self).wf(),
            final(self).nodes@ == old(self).nodes@,
            final(self).names@ == old(self).names@,
            final(self).children_of(parent as int) == old(self).children_of(parent as int).push(child),
            forall|p: int| 0 <= p < old(self).nodes@.len() && p != parent ==> #[trigger] final(self).children_of(p) == old(self).children_of(p),
            final(self).child_index@.len() <= old(self).child_index@.len() + old(self).child_count@[parent as int] + 1,
    {
        let p = parent as usize;
        let start = self.child_start[p] as usize;
        let count = self.child_count[p] as usize;
        let end = start + count;
        let ghost old_len = self.child_index@.len();
        if end == self.child_index.len() {
            self.child_index.push(child);
            self.child_count.set(p, (count + 1) as u32);
        } else {
            let slice: Vec<NodeIndex> = vstd::slice::slice_to_vec(vstd::slice::slice_subrange(self.child_index.as_slice(), start, end));
            let new_start = self.child_index.len() as u32;
            self.child_index.extend_from_slice(slice.as_slice());
            self.child_index.push(child);
            self.child_start.set(p, new_start);
            self.child_count.set(p, (count + 1) as u32);
        }
        proof {
            assert(self.children_of(parent as int) =~= old(self).children_of(parent as int).push(child));
            assert forall|q: int| 0 <= q < old(self).nodes@.len() && q != parent implies #[trigger] self.children_of(q) == old(self).children_of(q) by {
                assert(self.child_start@[q] == old(self).child_start@[q]);
                assert(self.child_count@[q] == old(self).child_count@[q]);
                assert(self.children_of(q) =~= old(self).children_of(q));
            }
            assert forall|i: int| 0 <= i < self.child_index@.len() implies (#[trigger] self.child_index@[i] as int) < self.nodes@.len() by {
                if i < old_len {
                    assert(self.child_index@[i] == old(self).child_index@[i]);
                } else if i < self.child_index@.len() - 1 {
                    assert(self.child_index@[i] == old(self).child_index@[start + (i - old_len)]);
                }
            }
            assert forall|a: int, b: int|
                0 <= a < self.nodes@.len() && 0 <= b < self.nodes@.len() && a != b implies Snapshot::disjoint(
                    #[trigger] self.child_start@[a] as int,
                    self.child_count@[a] as int,
                    #[trigger] self.child_start@[b] as int,
                    self.child_count@[b] as int,
                ) by {
                assert(old(self).child_start@[a] + old(self).child_count@[a] <= old_len);
                assert(old(self).child_start@[b] + old(self).child_count@[b] <= old_len);
                assert(Snapshot::disjoint(
                    old(self).child_start@[a] as int,
                    old(self).child_count@[a] as int,
                    old(self).child_start@[b] as int,
                    old(self).child_count@[b] as int,
                ));
            }
        }
    }

    /// Replaces `parent`'s children with `new_children` (stored at the end
    /// of the table).
    pub fn set_children(&mut self, parent: NodeIndex, new_children: &[NodeIndex])
        requires
            old(self).wf(),
            parent < old(self).nodes@.len(),
            forall|i: int| 0 <= i < new_children@.len() ==> (#[trigger] new_children@[i] as int) < old(self).nodes@.len(),
            old(self).child_index@.len() + new_children@.len() <= 4294967295,
        ensures
            final(self).wf(),
            final(self).nodes@ == old(self).nodes@,
            final(self).names@ == old(self).names@,
            final(self).children_of(parent as int) == new_children@,
            forall|p: int| 0 <= p < old(self).nodes@.len() && p != parent ==> #[trigger] final(self).children_of(p) == old(self).children_of(p),
    {
        let p = parent as usize;
        let new_start = self.child_index.len() as u32;
        let ghost old_len = self.child_index@.len();
        self.child_index.extend_from_slice(new_children);
        self.child_start.set(p, new_start);
        self.child_count.set(p, new_children.len() as u32);
        proof {
            assert(self.children_of(parent as int) =~= new_children@);
            assert forall|q: int| 0 <= q < old(self).nodes@.len() && q != parent implies #[trigger] self.children_of(q) == old(self).children_of(q) by {
                assert(self.child_start@[q] == old(self).child_start@[q]);
                assert(self.child_count@[q] == old(self).child_count@[q]);
                assert(self.children_of(q) =~= old(self).children_of(q));
            }
            assert forall|i: int| 0 <= i < self.child_index@.len() implies (#[trigger] self.child_index@[i] as int) < self.nodes@.len() by {
                if i < old_len {
                    assert(self.child_index@[i] == old(self).child_index@[i]);
                } else {
                    assert(self.child_index@[i] == new_children@[i - old_len]);
                }
            }
            assert forall|a: int, b: int|
                0 <= a < self.nodes@.len() && 0 <= b < self.nodes@.len() && a != b implies Snapshot::disjoint(
                    #[trigger] self.child_start@[a] as int,
                    self.child_count@[a] as int,
                    #[trigger] self.child_start@[b] as int,
                    self.child_count@[b] as int,
                ) by {
                assert(old(self).child_start@[a] + old(self).child_count@[a] <= old_len);
                assert(old(self).child_start@[b] + old(self).child_count@[b] <= old_len);
                assert(Snapshot::disjoint(
                    old(self).child_start@[a] as int,
                    old(self).child_count@[a] as int,
                    old(self).child_start@[b] as int,
                    old(self).child_count@[b] as int,
                ));
            }
        }
    }

    /// Sets the size of node `idx`.
    pub fn set_size_of(&mut self, idx: NodeIndex, size: u64)
        requires
            idx < old(self).nodes@.len(),
        ensures
            *final(self) == (Snapshot { nodes: final(self).nodes, ..*old(self) }),
            final(self).nodes@ == old(self).nodes@.update(idx as int, FileNode { size, ..old(self).nodes@[idx as int] }),
    {
        let mut n = self.nodes[idx as usize];
        n.set_size(size);
        self.nodes.set(idx as usize, n);
    }

    /// Removes the child at position `pos` of `parent`'s list by moving the
    /// last child into its place; returns the removed child.
    pub fn swap_remove_child(&mut self, parent: NodeIndex, pos: usize) -> (r: Option<NodeIndex>)
        requires
            old(self).wf(),
            parent < old(self).nodes@.len(),
        ensures
            final(self).wf(),
            *final(self) == (Snapshot { child_index: final(self).child_index, child_count: final(self).child_count, ..*old(self) }),
            final(self).nodes@ == old(self).nodes@,
            final(self).names@ == old(self).names@,
            pos >= old(self).children_of(parent as int).len() ==> r is None && *final(self) == *old(self),
            pos < old(self).children_of(parent as int).len() ==> {
                let kids = old(self).children_of(parent as int);
                &&& r == Some(kids[pos as int])
                &&& final(self).children_of(parent as int) == kids.update(pos as int, kids.last()).drop_last()
            },
            forall|p: int| 0 <= p < old(self).nodes@.len() && p != parent ==> #[trigger] final(self).children_of(p) == old(self).children_of(p),
    {
        let p = parent as usize;
        let start = self.child_start[p] as usize;
        let count = self.child_count[p] as usize;
        let _table_len = self.child_index.len();
        if pos >= count {
            return None;
        }
        let last = start + count - 1;
        let removed = self.child_index[start + pos];
        let moved = self.child_index[last];
        self.child_index.set(start + pos, moved);
        self.child_count.set(p, (count - 1) as u32);
        proof {
            let kids = old(self).children_of(parent as int);
            assert(self.children_of(parent as int) =~= kids.update(pos as int, kids.last()).drop_last());
            assert forall|q: int| 0 <= q < old(self).nodes@.len() && q != parent implies #[trigger] self.children_of(q) == old(self).children_of(q) by {
                assert(self.child_start@[q] == old(self).child_start@[q]);
                assert(self.child_count@[q] == old(self).child_count@[q]);
                assert(Snapshot::disjoint(
                    old(self).child_start@[parent as int] as int,
                    old(self).child_count@[parent as int] as int,
                    old(self).child_start@[q] as int,
                    old(self).child_count@[q] as int,
                ));
                assert(self.children_of(q) =~= old(self).children_of(q));
            }
            assert forall|a: int, b: int|
                0 <= a < self.nodes@.len() && 0 <= b < self.nodes@.len() && a != b implies Snapshot::disjoint(
                    #[trigger] self.child_start@[a] as int,
                    self.child_count@[a] as int,
                    #[trigger] self.child_start@[b] as int,
                    self.child_count@[b] as int,
                ) by {
                assert(Snapshot::disjoint(
                    old(self).child_start@[a] as int,
                    old(self).child_count@[a] as int,
                    old(self).child_start@[b] as int,
                    old(self).child_count@[b] as int,
                ));
            }
        }
        Some(removed)
    }
}

/// `a + b`, or `u64::MAX` when that does not fit.
pub open spec fn sat_add(a: u64, b: u64) -> u64 {
    if a + b > u64::MAX {
        u64::MAX
    } else {
        (a + b) as u64
    }
}

/// Every node but the first has a parent before it (or none).
pub open spec fn parents_before(nodes: Seq<FileNode>) -> bool {
    forall|i: int| 1 <= i < nodes.len() ==> (#[trigger] nodes[i]).parent == NO_PARENT || (nodes[i].parent as int) < i
}

/// Which of a node's two amounts a roll-up adds into its parent.
pub open spec fn amount(n: FileNode, disk: bool) -> u64 {
    if disk {
        n.disk_usage
    } else {
        n.size
    }
}

/// `n` with the rolled amount set to `v`.
pub open spec fn with_amount(n: FileNode, disk: bool, v: u64) -> FileNode {
    if disk {
        FileNode { disk_usage: v, ..n }
    } else {
        FileNode { size: v, ..n }
    }
}

/// Node `i`'s amount added (saturating) into its parent's.
pub open spec fn roll_step(nodes: Seq<FileNode>, i: int, disk: bool) -> Seq<FileNode> {
    let p = nodes[i].parent;
    if p == NO_PARENT || p as int >= nodes.len() {
        nodes
    } else {
        nodes.update(p as int, with_amount(nodes[p as int], disk, sat_add(amount(nodes[p as int], disk), amount(nodes[i], disk))))
    }
}

/// The nodes after rolling up nodes `len - 1` down to `k` (each into its
/// parent, children before parents).
pub open spec fn rolled(nodes: Seq<FileNode>, k: int, disk: bool) -> Seq<FileNode>
    decreases nodes.len() - k,
{
    if k < 1 || k >= nodes.len() {
        nodes
    } else {
        roll_step(rolled(nodes, k + 1, disk), k, disk)
    }
}

/// Two nodes that differ at most in their size and disk usage.
pub open spec fn same_shape(a: FileNode, b: FileNode) -> bool {
    &&& a.parent == b.parent
    &&& a.name_off == b.name_off
    &&& a.name_len == b.name_len
    &&& a.flags == b.flags
    &&& a.inline_name == b.inline_name
}

proof fn lemma_rolled_shape(nodes: Seq<FileNode>, k: int, disk: bool)
    ensures
        rolled(nodes, k, disk).len() == nodes.len(),
        forall|j: int| 0 <= j < nodes.len() ==> same_shape(#[trigger] rolled(nodes, k, disk)[j], nodes[j]),
    decreases nodes.len() - k,
{
    if !(k < 1 || k >= nodes.len()) {
        lemma_rolled_shape(nodes, k + 1, disk);
    }
}

fn roll_up(nodes: &mut Vec<FileNode>, disk: bool)
    requires
        parents_before(old(nodes)@),
    ensures
        final(nodes)@ == rolled(old(nodes)@, 1, disk),
{
    let n = nodes.len();
    let mut i = n;
    proof {
        assert(rolled(nodes@, n as int, disk) == nodes@);
    }
    while i > 1
        invariant
            1 <= i <= n || n == 0 && i == 0,
            n == old(nodes)@.len(),
            parents_before(old(nodes)@),
            nodes@ == rolled(old(nodes)@, i as int, disk),
        decreases i,
    {
        i = i - 1;
        proof {
            lemma_rolled_shape(old(nodes)@, i + 1, disk);
            assert(same_shape(nodes@[i as int], old(nodes)@[i as int]));
        }
        let cur = nodes[i];
        if cur.parent != NO_PARENT {
            let p = cur.parent as usize;
            let mut pn = nodes[p];
            if disk {
                pn.disk_usage = pn.disk_usage.saturating_add(cur.disk_usage);
            } else {
                pn.size = pn.size.saturating_add(cur.size);
            }
            nodes.set(p, pn);
        }
        proof {
            assert(nodes@ =~= rolled(old(nodes)@, i as int, disk));
        }
    }
}

/// Adds each node's size into its parent's, from the last node to the
/// first, so that every directory ends up with the total size of what lies
/// below it (saturating at `u64::MAX`).
pub fn compute_size(nodes: &mut Vec<FileNode>)
    requires
        parents_before(old(nodes)@),
    ensures
        final(nodes)@ == rolled(old(nodes)@, 1, false),
{
    roll_up(nodes, false)
}

/// Same as `compute_size`, for disk usage.
pub fn compute_disk_usage(nodes: &mut Vec<FileNode>)
    requires
        parents_before(old(nodes)@),
    ensures
        final(nodes)@ == rolled(old(nodes)@, 1, true),
{
    roll_up(nodes, true)
}

/// Sum of the amounts of the nodes among `from .. to` whose parent is `p`.
pub open spec fn children_amount(nodes: Seq<FileNode>, p: int, from: int, to: int, disk: bool) -> int
    decreases to - from,
{
    if from >= to {
        0
    } else {
        (if nodes[from].parent != NO_PARENT && nodes[from].parent as int == p {
            amount(nodes[from], disk) as int
        } else {
            0
        }) + children_amount(nodes, p, from + 1, to, disk)
    }
}

proof fn lemma_rolled_settled(nodes: Seq<FileNode>, j: int, k: int, c: int, disk: bool)
    requires
        parents_before(nodes),
        1 <= j <= k <= c < nodes.len(),
    ensures
        rolled(nodes, j, disk)[c] == rolled(nodes, k, disk)[c],
    decreases k - j,
{
    if j < k {
        lemma_rolled_settled(nodes, j + 1, k, c, disk);
        lemma_rolled_shape(nodes, j + 1, disk);
        assert(same_shape(rolled(nodes, j + 1, disk)[j], nodes[j]));
    }
}

proof fn lemma_rollup_sum_from(nodes: Seq<FileNode>, k: int, q: int, disk: bool)
    requires
        parents_before(nodes),
        1 <= k <= nodes.len(),
        0 <= q < nodes.len(),
        (amount(rolled(nodes, k, disk)[q], disk) as int) < u64::MAX,
    ensures
        amount(rolled(nodes, k, disk)[q], disk) as int == amount(nodes[q], disk) as int + children_amount(
            rolled(nodes, 1, disk),
            q,
            k,
            nodes.len() as int,
            disk,
        ),
    decreases nodes.len() - k,
{
    let n = nodes.len() as int;
    let fin = rolled(nodes, 1, disk);
    lemma_rolled_shape(nodes, 1, disk);
    if k == n {
        assert(rolled(nodes, k, disk) == nodes);
    } else {
        let prev = rolled(nodes, k + 1, disk);
        lemma_rolled_shape(nodes, k + 1, disk);
        assert(same_shape(prev[k], nodes[k]));
        assert(same_shape(fin[k], nodes[k]));
        lemma_rolled_settled(nodes, 1, k, k, disk);
        let par = nodes[k].parent;
        assert(par == NO_PARENT || (par as int) < k);
        assert(rolled(nodes, k, disk)[k] == prev[k]);
        assert(fin[k] == prev[k]);
        if par != NO_PARENT && par as int == q {
            assert((par as int) < k);
            assert(amount(prev[q], disk) <= amount(rolled(nodes, k, disk)[q], disk));
            lemma_rollup_sum_from(nodes, k + 1, q, disk);
        } else {
            assert(rolled(nodes, k, disk)[q] == prev[q]);
            lemma_rollup_sum_from(nodes, k + 1, q, disk);
        }
    }
}

/// Law of the roll-up: once sizes (or disk usages) are rolled up, each
/// node's amount is its own plus the rolled-up amounts of its children,
/// whenever it did not saturate at `u64::MAX`.
pub proof fn law_rollup_sums(nodes: Seq<FileNode>, q: int, disk: bool)
    requires
        parents_before(nodes),
        0 <= q < nodes.len(),
        (amount(rolled(nodes, 1, disk)[q], disk) as int) < u64::MAX,
    ensures
        amount(rolled(nodes, 1, disk)[q], disk) as int == amount(nodes[q], disk) as int + children_amount(
            rolled(nodes, 1, disk),
            q,
            1,
            nodes.len() as int,
            disk,
        ),
{
    lemma_rollup_sum_from(nodes, 1, q, disk);
}

impl SnapshotBuilder {
    /// Rolls sizes and disk usages up the tree, so that each directory holds
    /// the totals of what lies below it. Names and shape are unchanged.
    pub fn roll_up_totals(&mut self)
        requires
            old(self).wf(),
        ensures
            final(self).wf(),
            final(self).nodes@ == rolled(rolled(old(self).nodes@, 1, false), 1, true),
            final(self).names@ == old(self).names@,
            forall|j: int| 0 <= j < old(self).nodes@.len() ==> #[trigger] final(self).name_of(j) == old(self).name_of(j),
    {
        let ghost before = self.nodes@;
        proof {
            assert forall|i: int| 1 <= i < before.len() implies (#[trigger] before[i]).parent == NO_PARENT || (before[i].parent
                as int) < i by {
                assert(self.tree_wf());
            }
        }
        compute_size(&mut self.nodes);
        let ghost mid = self.nodes@;
        proof {
            lemma_rolled_shape(before, 1, false);
            assert forall|i: int| 1 <= i < mid.len() implies (#[trigger] mid[i]).parent == NO_PARENT || (mid[i].parent as int)
                < i by {
                assert(same_shape(mid[i], before[i]));
            }
        }
        compute_disk_usage(&mut self.nodes);
        proof {
            lemma_rolled_shape(mid, 1, true);
            assert forall|j: int| 0 <= j < before.len() implies same_shape(#[trigger] self.nodes@[j], before[j]) by {
                assert(same_shape(self.nodes@[j], mid[j]));
                assert(same_shape(mid[j], before[j]));
            }
            assert forall|j: int| 0 <= j < before.len() implies #[trigger] name_bytes(self.nodes@[j], self.names@) == name_bytes(
                before[j],
                self.names@,
            ) by {
                assert(same_shape(self.nodes@[j], before[j]));
            }
        }
    }
}

impl SnapshotBuilder {
    /// Sets the root's size and disk usage; nothing else changes.
    pub fn set_root_totals(&mut self, size: u64, disk_usage: u64)
        requires
            old(self).wf(),
        ensures
            final(self).wf(),
            final(self).nodes@ == old(self).nodes@.update(0, FileNode { size, disk_usage, ..old(self).nodes@[0] }),
            final(self).names@ == old(self).names@,
            forall|j: int| 0 <= j < old(self).nodes@.len() ==> #[trigger] final(self).name_of(j) == old(self).name_of(j),
    {
        proof {
            self.lemma_wf_tree();
        }
        let mut root = self.nodes[0];
        root.size = size;
        root.disk_usage = disk_usage;
        self.nodes.set(0, root);
        proof {
            assert forall|j: int| 0 <= j < self.nodes@.len() implies #[trigger] name_bytes(self.nodes@[j], self.names@)
                == name_bytes(old(self).nodes@[j], self.names@) by {
                if j == 0 {
                    assert(self.nodes@[0].flags == old(self).nodes@[0].flags);
                }
            }
        }
    }
}

} // verus!
