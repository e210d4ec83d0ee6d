//! The virtual filesystem: a table of initramfs files, a mount table that
//! routes each path to the filesystem mounted at its longest matching
//! mount point, and the lookups built on them.

use vstd::prelude::*;
use vstd::slice::slice_subrange;
use vstd::string::StringSliceAdditionalSpecFns;
use vstd::utf8::{valid_utf8, decode_utf8};

use crate::posix::metadata::mode_type;
use crate::posix::{split_mode, FileType, Metadata};
use crate::text::str_from_utf8;

verus! {

/// Capacity of the initramfs file table.
pub const MAX_FILES: usize = 64;

/// Capacity of the mount table.
pub const MAX_MOUNTS: usize = 8;

/// Byte value of `/`.
pub const SLASH: u8 = 0x2F;

/// One file of the initramfs table.
#[derive(Clone, Copy)]
pub struct File {
    pub name: &'static str,
    pub content: &'static [u8],
    pub is_dir: bool,
}

/// A file handle that an ext2 filesystem hands out and reads through.
#[derive(Clone, Copy, PartialEq, Eq, Structural)]
pub struct FileRef {
    pub inode: u32,
}

/// Where the bytes of an opened file live.
#[derive(Clone, Copy)]
pub enum FileContent {
    Inline(&'static [u8]),
    Ext2(FileRef),
}

/// An opened file: its content and its metadata.
#[derive(Clone, Copy)]
pub struct OpenFile {
    pub content: FileContent,
    pub metadata: Metadata,
}

/// One entry of a directory listing: a file's name and metadata.
pub type Listed = (&'static str, Metadata);

/// A filesystem that can be mounted. Each operation takes a path relative
/// to the mount point, as bytes, and answers as its model says.
pub trait FileSystem {
    /// What `read` answers for `path`.
    spec fn read_spec(&self, path: Seq<u8>) -> Option<OpenFile>;

    /// What `metadata` answers for `path`.
    spec fn metadata_spec(&self, path: Seq<u8>) -> Option<Metadata>;

    /// What `list` answers for `path`.
    spec fn list_spec(&self, path: Seq<u8>) -> Seq<Listed>;

    fn name(&self) -> &'static str;

    fn read(&self, path: &[u8]) -> (r: Option<OpenFile>)
        ensures
            r == self.read_spec(path@),
    ;

    fn metadata(&self, path: &[u8]) -> (r: Option<Metadata>)
        ensures
            r == self.metadata_spec(path@),
    ;

    fn list(&self, path: &[u8]) -> (r: Vec<Listed>)
        ensures
            r@ == self.list_spec(path@),
    ;
}

// ---------------------------------------------------------------------
// Paths as bytes
// ---------------------------------------------------------------------

/// The first index at or after `i` that does not hold a `/`.
pub open spec fn skip_slashes(p: Seq<u8>, i: int) -> int
    decreases p.len() - i,
{
    if 0 <= i < p.len() && p[i] == SLASH {
        skip_slashes(p, i + 1)
    } else {
        i
    }
}

/// The end of `p[lo..hi]` once trailing `/` bytes are dropped.
pub open spec fn trim_end_slashes(p: Seq<u8>, lo: int, hi: int) -> int
    decreases hi - lo,
{
    if lo < hi && p[hi - 1] == SLASH {
        trim_end_slashes(p, lo, hi - 1)
    } else {
        hi
    }
}

/// `p` without its leading and trailing `/` bytes.
pub open spec fn trim_slashes(p: Seq<u8>) -> Seq<u8> {
    let lo = skip_slashes(p, 0);
    p.subrange(lo, trim_end_slashes(p, lo, p.len() as int))
}

/// `p` begins with `pre`.
pub open spec fn has_prefix(p: Seq<u8>, pre: Seq<u8>) -> bool {
    pre.len() <= p.len() && p.subrange(0, pre.len() as int) == pre
}

/// `p` ends with `suf`.
pub open spec fn has_suffix(p: Seq<u8>, suf: Seq<u8>) -> bool {
    suf.len() <= p.len() && p.subrange(p.len() - suf.len(), p.len() as int) == suf
}

pub proof fn lemma_skip_slashes(p: Seq<u8>, i: int)
    requires
        0 <= i <= p.len(),
    ensures
        i <= skip_slashes(p, i) <= p.len(),
        forall|j: int| i <= j < skip_slashes(p, i) ==> p[j] == SLASH,
        skip_slashes(p, i) < p.len() ==> p[skip_slashes(p, i)] != SLASH,
    decreases p.len() - i,
{
    if i < p.len() && p[i] == SLASH {
        lemma_skip_slashes(p, i + 1);
    }
}

pub proof fn lemma_trim_end_slashes(p: Seq<u8>, lo: int, hi: int)
    requires
        0 <= lo <= hi <= p.len(),
    ensures
        lo <= trim_end_slashes(p, lo, hi) <= hi,
    decreases hi - lo,
{
    if lo < hi && p[hi - 1] == SLASH {
        lemma_trim_end_slashes(p, lo, hi - 1);
    }
}

fn skip_slashes_exec(p: &[u8], i: usize) -> (r: usize)
    requires
        i <= p@.len(),
    ensures
        r == skip_slashes(p@, i as int),
        i <= r <= p@.len(),
{
    proof {
        lemma_skip_slashes(p@, i as int);
    }
    let mut j = i;
    while j < p.len() && p[j] == SLASH
        invariant
            i <= j <= p@.len(),
            skip_slashes(p@, j as int) == skip_slashes(p@, i as int),
        decreases p@.len() - j,
    {
        j = j + 1;
    }
    j
}

fn trim_end_slashes_exec(p: &[u8], lo: usize, hi: usize) -> (r: usize)
    requires
        lo <= hi <= p@.len(),
    ensures
        r == trim_end_slashes(p@, lo as int, hi as int),
        lo <= r <= hi,
{
    proof {
        lemma_trim_end_slashes(p@, lo as int, hi as int);
    }
    let mut j = hi;
    while j > lo && p[j - 1] == SLASH
        invariant
            lo <= j <= hi,
            hi <= p@.len(),
            trim_end_slashes(p@, lo as int, j as int) == trim_end_slashes(p@, lo as int, hi as int),
        decreases j,
    {
        j = j - 1;
    }
    j
}

/// `p` without leading and trailing `/`, as a sub-slice.
fn trim_slashes_exec(p: &[u8]) -> (r: &[u8])
    ensures
        r@ == trim_slashes(p@),
{
    let lo = skip_slashes_exec(p, 0);
    let hi = trim_end_slashes_exec(p, lo, p.len());
    slice_subrange(p, lo, hi)
}

fn same_bytes(a: &[u8], b: &[u8]) -> (r: bool)
    ensures
        r == (a@ == b@),
{
    if a.len() != b.len() {
        return false;
    }
    let mut i: usize = 0;
    while i < a.len()
        invariant
            i <= a@.len(),
            a@.len() == b@.len(),
            forall|j: int| 0 <= j < i ==> a@[j] == b@[j],
        decreases a@.len() - i,
    {
        if a[i] != b[i] {
            return false;
        }
        i = i + 1;
    }
    assert(a@ =~= b@);
    true
}

fn starts_with_bytes(p: &[u8], pre: &[u8]) -> (r: bool)
    ensures
        r == has_prefix(p@, pre@),
{
    if pre.len() > p.len() {
        return false;
    }
    same_bytes(slice_subrange(p, 0, pre.len()), pre)
}

fn ends_with_bytes(p: &[u8], suf: &[u8]) -> (r: bool)
    ensures
        r == has_suffix(p@, suf@),
{
    if suf.len() > p.len() {
        return false;
    }
    same_bytes(slice_subrange(p, p.len() - suf.len(), p.len()), suf)
}

// ---------------------------------------------------------------------
// The initramfs file table
// ---------------------------------------------------------------------

/// The bytes of a file's name.
pub open spec fn name_of(f: File) -> Seq<u8> {
    f.name.spec_bytes()
}

/// The first entry at or after `i` named `name`.
pub open spec fn find_named(t: Seq<(File, Metadata)>, name: Seq<u8>, i: int) -> Option<int>
    decreases t.len() - i,
{
    if i < 0 || i >= t.len() {
        None
    } else if name_of(t[i].0) == name {
        Some(i)
    } else {
        find_named(t, name, i + 1)
    }
}

/// The table after registering `file`: an entry of the same name is
/// replaced in place, else the file is appended while there is room, else
/// the table is unchanged.
pub open spec fn registered(t: Seq<(File, Metadata)>, file: File, meta: Metadata) -> Seq<(File, Metadata)> {
    match find_named(t, name_of(file), 0) {
        Some(k) => t.update(k, (file, meta)),
        None => if t.len() < MAX_FILES {
            t.push((file, meta))
        } else {
            t
        },
    }
}

/// The entry that `path` names: the path with its leading and trailing
/// `/` dropped equals the entry's name.
pub open spec fn lookup(t: Seq<(File, Metadata)>, path: Seq<u8>) -> Option<int> {
    find_named(t, trim_slashes(path), 0)
}

/// What the table answers to opening `path`.
pub open spec fn table_read(t: Seq<(File, Metadata)>, path: Seq<u8>) -> Option<OpenFile> {
    match lookup(t, path) {
        Some(k) => Some(OpenFile { content: FileContent::Inline(t[k].0.content), metadata: t[k].1 }),
        None => None,
    }
}

/// The entries among `t[i..]` whose name begins with `target`, in order.
pub open spec fn listed_from(t: Seq<(File, Metadata)>, target: Seq<u8>, i: int) -> Seq<Listed>
    decreases t.len() - i,
{
    if i < 0 || i >= t.len() {
        Seq::empty()
    } else if has_prefix(name_of(t[i].0), target) {
        seq![(t[i].0.name, t[i].1)] + listed_from(t, target, i + 1)
    } else {
        listed_from(t, target, i + 1)
    }
}

pub proof fn lemma_find_named(t: Seq<(File, Metadata)>, name: Seq<u8>, i: int)
    requires
        0 <= i,
    ensures
        match find_named(t, name, i) {
            Some(k) => i <= k < t.len() && name_of(t[k].0) == name,
            None => forall|j: int| i <= j < t.len() ==> name_of(#[trigger] t[j].0) != name,
        },
    decreases t.len() - i,
{
    if i < t.len() && name_of(t[i].0) != name {
        lemma_find_named(t, name, i + 1);
    }
}

/// What an entry holds, as plain values: name bytes, content bytes,
/// whether it is a directory, and its metadata.
pub type FileView = (Seq<u8>, Seq<u8>, bool, Metadata);

pub open spec fn file_view(e: (File, Metadata)) -> FileView {
    (name_of(e.0), e.0.content@, e.0.is_dir, e.1)
}

pub open spec fn table_view(t: Seq<(File, Metadata)>) -> Seq<FileView> {
    t.map_values(|e: (File, Metadata)| file_view(e))
}

/// The first entry at or after `i` of a table view named `name`.
pub open spec fn find_view(v: Seq<FileView>, name: Seq<u8>, i: int) -> Option<int>
    decreases v.len() - i,
{
    if i < 0 || i >= v.len() {
        None
    } else if v[i].0 == name {
        Some(i)
    } else {
        find_view(v, name, i + 1)
    }
}

/// `registered`, on table views.
pub open spec fn registered_view(v: Seq<FileView>, e: FileView) -> Seq<FileView> {
    match find_view(v, e.0, 0) {
        Some(k) => v.update(k, e),
        None => if v.len() < MAX_FILES {
            v.push(e)
        } else {
            v
        },
    }
}

pub proof fn lemma_find_view(t: Seq<(File, Metadata)>, name: Seq<u8>, i: int)
    ensures
        find_view(table_view(t), name, i) == find_named(t, name, i),
    decreases t.len() - i,
{
    if 0 <= i < t.len() {
        lemma_find_view(t, name, i + 1);
    }
}

pub proof fn lemma_registered_view(t: Seq<(File, Metadata)>, f: File, m: Metadata)
    ensures
        table_view(registered(t, f, m)) == registered_view(table_view(t), file_view((f, m))),
{
    lemma_find_view(t, name_of(f), 0);
    lemma_find_named(t, name_of(f), 0);
    assert(table_view(registered(t, f, m)) =~= registered_view(table_view(t), file_view((f, m))));
}

/// The initramfs: a table of at most `MAX_FILES` files, each name once.
pub struct FileTable {
    entries: Vec<(File, Metadata)>,
}

impl FileTable {
    pub closed spec fn view(&self) -> Seq<(File, Metadata)> {
        self.entries@
    }

    pub open spec fn wf(&self) -> bool {
        self.view().len() <= MAX_FILES
    }

    /// An empty table.
    pub fn new() -> (r: Self)
        ensures
            r.view() == Seq::<(File, Metadata)>::empty(),
            r.wf(),
    {
        FileTable { entries: Vec::new() }
    }

    /// The index of the first entry named `name`.
    fn find(&self, name: &[u8]) -> (r: Option<usize>)
        ensures
            r is None <==> find_named(self.view(), name@, 0) is None,
            r matches Some(k) ==> find_named(self.view(), name@, 0) == Some(k as int),
    {
        let mut i: usize = 0;
        while i < self.entries.len()
            invariant
                i <= self.entries@.len(),
                find_named(self.view(), name@, i as int) == find_named(self.view(), name@, 0),
            decreases self.entries@.len() - i,
        {
            if same_bytes(self.entries[i].0.name.as_bytes(), name) {
                return Some(i);
            }
            i = i + 1;
        }
        None
    }

    /// Register `file` (see `registered`).
    pub fn register(&mut self, file: File, meta: Metadata)
        requires
            old(self).wf(),
        ensures
            final(self).view() == registered(old(self).view(), file, meta),
            final(self).wf(),
    {
        proof {
            lemma_find_named(self.view(), name_of(file), 0);
        }
        match self.find(file.name.as_bytes()) {
            Some(k) => {
                self.entries.set(k, (file, meta));
            },
            None => {
                if self.entries.len() < MAX_FILES {
                    self.entries.push((file, meta));
                }
            },
        }
    }

    /// Number of files.
    pub fn len(&self) -> (r: usize)
        ensures
            r == self.view().len(),
    {
        self.entries.len()
    }

    /// The file at `index`, in registration order.
    pub fn entry(&self, index: usize) -> (r: Option<(File, Metadata)>)
        ensures
            r == (if index < self.view().len() {
                Some(self.view()[index as int])
            } else {
                None::<(File, Metadata)>
            }),
    {
        if index < self.entries.len() {
            Some(self.entries[index])
        } else {
            None
        }
    }
}

impl FileSystem for FileTable {
    open spec fn read_spec(&self, path: Seq<u8>) -> Option<OpenFile> {
        table_read(self.view(), path)
    }

    open spec fn metadata_spec(&self, path: Seq<u8>) -> Option<Metadata> {
        match lookup(self.view(), path) {
            Some(k) => Some(self.view()[k].1),
            None => None,
        }
    }

    open spec fn list_spec(&self, path: Seq<u8>) -> Seq<Listed> {
        listed_from(self.view(), trim_slashes(path), 0)
    }

    fn name(&self) -> &'static str {
        "initramfs"
    }

    fn read(&self, path: &[u8]) -> (r: Option<OpenFile>) {
        proof {
            lemma_find_named(self.view(), trim_slashes(path@), 0);
        }
        match self.find(trim_slashes_exec(path)) {
            Some(k) => {
                assert(lookup(self.view(), path@) == Some(k as int));
                let (file, meta) = self.entries[k];
                assert((file, meta) == self.view()[k as int]);
                Some(OpenFile { content: FileContent::Inline(file.content), metadata: meta })
            },
            None => None,
        }
    }

    fn metadata(&self, path: &[u8]) -> (r: Option<Metadata>) {
        proof {
            lemma_find_named(self.view(), trim_slashes(path@), 0);
        }
        match self.find(trim_slashes_exec(path)) {
            Some(k) => {
                assert(lookup(self.view(), path@) == Some(k as int));
                assert(self.entries@[k as int] == self.view()[k as int]);
                Some(self.entries[k].1)
            },
            None => None,
        }
    }

    fn list(&self, path: &[u8]) -> (r: Vec<Listed>) {
        let target = trim_slashes_exec(path);
        let mut out: Vec<Listed> = Vec::new();
        let mut i: usize = 0;
        while i < self.entries.len()
            invariant
                i <= self.entries@.len(),
                out@ + listed_from(self.view(), target@, i as int) == listed_from(self.view(), target@, 0),
            decreases self.entries@.len() - i,
        {
            let (file, meta) = self.entries[i];
            if starts_with_bytes(file.name.as_bytes(), target) {
                let ghost before = out@;
                out.push((file.name, meta));
                proof {
                    assert(before.push((file.name, meta)) + listed_from(self.view(), target@, i + 1)
                        =~= before + (seq![(file.name, meta)] + listed_from(self.view(), target@, i + 1)));
                }
            }
            i = i + 1;
        }
        assert(out@ + Seq::<Listed>::empty() =~= out@);
        out
    }
}

// ---------------------------------------------------------------------
// Mounts and the virtual filesystem
// ---------------------------------------------------------------------

/// Which filesystem a mount point leads to.
#[derive(Clone, Copy, PartialEq, Eq, Structural)]
pub enum MountTarget {
    /// The initramfs file table.
    Initramfs,
    /// The mounted filesystem with this index.
    Mounted(usize),
}

/// One mount: a normalized mount point and the filesystem behind it.
#[derive(Clone, Copy)]
pub struct MountEntry {
    pub mount_point: &'static [u8],
    pub fs: MountTarget,
}

/// Why a mount was refused.
#[derive(Debug, Clone, Copy, PartialEq, Eq, Structural)]
pub enum MountError {
    AlreadyMounted,
    TableFull,
}

/// The mount point as stored: `/` stays, any other loses its trailing `/`.
pub open spec fn normalized_mount(p: Seq<u8>) -> Seq<u8> {
    if p == seq![SLASH] {
        p
    } else {
        p.subrange(0, trim_end_slashes(p, 0, p.len() as int))
    }
}

/// The best mount after looking at mount `k` with mount point `mp`:
/// `(mount index, start of the relative path, matched length)`.
pub open spec fn resolve_step(mp: Seq<u8>, path: Seq<u8>, k: int, best: Option<(int, int, int)>) -> Option<(int, int, int)> {
    let absolute = path.len() > 0 && path[0] == SLASH;
    if mp == seq![SLASH] {
        let rel = if absolute { skip_slashes(path, 0) } else { 0 };
        match best {
            Some(b) => if b.2 <= 1 { Some((k, rel, 1)) } else { best },
            None => Some((k, rel, 1)),
        }
    } else if absolute && has_prefix(path, mp) {
        let rel = skip_slashes(path, mp.len() as int);
        match best {
            Some(b) => if mp.len() > b.2 { Some((k, rel, mp.len() as int)) } else { best },
            None => Some((k, rel, mp.len() as int)),
        }
    } else {
        best
    }
}

/// The mounts `mps[i..]` folded over `best`, in order.
pub open spec fn resolve_from(mps: Seq<Seq<u8>>, path: Seq<u8>, i: int, best: Option<(int, int, int)>) -> Option<(int, int, int)>
    decreases mps.len() - i,
{
    if i < 0 || i >= mps.len() {
        best
    } else {
        resolve_from(mps, path, i + 1, resolve_step(mps[i], path, i, best))
    }
}

/// The mount that serves `path` and where its relative path starts: the
/// root mount for a relative path, else the longest mount point that
/// prefixes the path (the root counting as length 1); none for `""`.
pub open spec fn resolve(mps: Seq<Seq<u8>>, path: Seq<u8>) -> Option<(int, int, int)> {
    if path.len() == 0 {
        None
    } else {
        resolve_from(mps, path, 0, None)
    }
}

pub proof fn lemma_resolve_from(mps: Seq<Seq<u8>>, path: Seq<u8>, i: int, best: Option<(int, int, int)>)
    requires
        0 <= i <= mps.len(),
        best matches Some(b) ==> 0 <= b.0 < i && 0 <= b.1 <= path.len(),
    ensures
        resolve_from(mps, path, i, best) matches Some(b) ==> 0 <= b.0 < mps.len() && 0 <= b.1 <= path.len(),
    decreases mps.len() - i,
{
    if i < mps.len() {
        let mp = mps[i];
        lemma_skip_slashes(path, 0);
        if mp.len() <= path.len() {
            lemma_skip_slashes(path, mp.len() as int);
        }
        lemma_resolve_from(mps, path, i + 1, resolve_step(mp, path, i, best));
    }
}

/// The virtual filesystem: the initramfs table, the mount table and the
/// filesystems mounted besides the initramfs.
pub struct Vfs<E> {
    files: FileTable,
    mounts: Vec<MountEntry>,
    mounted: Vec<E>,
}

impl<E: FileSystem> Vfs<E> {
    pub closed spec fn files(&self) -> Seq<(File, Metadata)> {
        self.files.view()
    }

    pub closed spec fn mount_points(&self) -> Seq<Seq<u8>> {
        self.mounts@.map_values(|m: MountEntry| m.mount_point@)
    }

    pub closed spec fn targets(&self) -> Seq<MountTarget> {
        self.mounts@.map_values(|m: MountEntry| m.fs)
    }

    pub closed spec fn mounted(&self) -> Seq<E> {
        self.mounted@
    }

    pub open spec fn wf(&self) -> bool {
        &&& self.files().len() <= MAX_FILES
        &&& self.mount_points().len() == self.targets().len()
        &&& self.mount_points().len() <= MAX_MOUNTS
        &&& forall|k: int| 0 <= k < self.targets().len() ==> (#[trigger] self.targets()[k] matches MountTarget::Mounted(j) ==> j < self.mounted().len())
    }

    /// The filesystem behind `target`, asked to read `rel`.
    pub open spec fn read_at(&self, target: MountTarget, rel: Seq<u8>) -> Option<OpenFile> {
        match target {
            MountTarget::Initramfs => table_read(self.files(), rel),
            MountTarget::Mounted(j) => self.mounted()[j as int].read_spec(rel),
        }
    }

    /// What opening `path` gives.
    pub open spec fn opened(&self, path: Seq<u8>) -> Option<OpenFile> {
        match resolve(self.mount_points(), path) {
            Some(b) => self.read_at(self.targets()[b.0], path.subrange(b.1, path.len() as int)),
            None => None,
        }
    }

    /// What `stat` of `path` gives.
    pub open spec fn stat_of(&self, path: Seq<u8>) -> Option<Metadata> {
        match resolve(self.mount_points(), path) {
            Some(b) => {
                let rel = path.subrange(b.1, path.len() as int);
                match self.targets()[b.0] {
                    MountTarget::Initramfs => match lookup(self.files(), rel) {
                        Some(k) => Some(self.files()[k].1),
                        None => None,
                    },
                    MountTarget::Mounted(j) => self.mounted()[j as int].metadata_spec(rel),
                }
            },
            None => None,
        }
    }

    /// What listing `path` gives.
    pub open spec fn listing(&self, path: Seq<u8>) -> Seq<Listed> {
        match resolve(self.mount_points(), path) {
            Some(b) => {
                let rel = path.subrange(b.1, path.len() as int);
                match self.targets()[b.0] {
                    MountTarget::Initramfs => listed_from(self.files(), trim_slashes(rel), 0),
                    MountTarget::Mounted(j) => self.mounted()[j as int].list_spec(rel),
                }
            },
            None => Seq::empty(),
        }
    }

    /// A filesystem with an empty file table and only the initramfs
    /// mounted at `/`.
    pub fn new() -> (r: Self)
        ensures
            r.wf(),
            r.files() == Seq::<(File, Metadata)>::empty(),
            r.mount_points() == seq![seq![SLASH]],
            r.targets() == seq![MountTarget::Initramfs],
            r.mounted() == Seq::<E>::empty(),
    {
        let mut mounts: Vec<MountEntry> = Vec::new();
        mounts.push(MountEntry { mount_point: root_mount_point(), fs: MountTarget::Initramfs });
        let r = Vfs { files: FileTable::new(), mounts, mounted: Vec::new() };
        proof {
            assert(r.mount_points() =~= seq![seq![SLASH]]);
            assert(r.targets() =~= seq![MountTarget::Initramfs]);
        }
        r
    }

    /// Mount `target` at `mount_point` (normalized, see
    /// `normalized_mount`): refused when that mount point is taken, or
    /// when all `MAX_MOUNTS` slots are.
    fn mount(&mut self, mount_point: &'static [u8], target: MountTarget) -> (r: Result<(), MountError>)
        requires
            old(self).wf(),
            target matches MountTarget::Mounted(j) ==> j < old(self).mounted().len(),
        ensures
            final(self).wf(),
            final(self).files() == old(self).files(),
            final(self).mounted() == old(self).mounted(),
            old(self).mount_points().contains(normalized_mount(mount_point@)) ==> r == Err::<(), MountError>(MountError::AlreadyMounted)
                && final(self).mount_points() == old(self).mount_points() && final(self).targets() == old(self).targets(),
            !old(self).mount_points().contains(normalized_mount(mount_point@)) && old(self).mount_points().len() >= MAX_MOUNTS
                ==> r == Err::<(), MountError>(MountError::TableFull)
                && final(self).mount_points() == old(self).mount_points() && final(self).targets() == old(self).targets(),
            !old(self).mount_points().contains(normalized_mount(mount_point@)) && old(self).mount_points().len() < MAX_MOUNTS
                ==> r == Ok::<(), MountError>(()) && final(self).mount_points() == old(self).mount_points().push(normalized_mount(mount_point@))
                && final(self).targets() == old(self).targets().push(target),
    {
        let normalized: &'static [u8] = if same_bytes(mount_point, root_mount_point()) {
            mount_point
        } else {
            let end = trim_end_slashes_exec(mount_point, 0, mount_point.len());
            slice_subrange(mount_point, 0, end)
        };
        assert(normalized@ == normalized_mount(mount_point@));
        let mut i: usize = 0;
        while i < self.mounts.len()
            invariant
                i <= self.mounts@.len(),
                self.mount_points().len() == self.mounts@.len(),
                self.wf(),
                self.mount_points() == old(self).mount_points(),
                self.targets() == old(self).targets(),
                self.files() == old(self).files(),
                self.mounted() == old(self).mounted(),
                normalized@ == normalized_mount(mount_point@),
                forall|j: int| 0 <= j < i ==> self.mount_points()[j] != normalized@,
            decreases self.mounts@.len() - i,
        {
            if same_bytes(self.mounts[i].mount_point, normalized) {
                assert(self.mount_points()[i as int] == normalized@);
                return Err(MountError::AlreadyMounted);
            }
            i = i + 1;
        }
        assert(!self.mount_points().contains(normalized@));
        if self.mounts.len() >= MAX_MOUNTS {
            return Err(MountError::TableFull);
        }
        let ghost old_mps = self.mount_points();
        let ghost old_targets = self.targets();
        self.mounts.push(MountEntry { mount_point: normalized, fs: target });
        proof {
            assert(self.mount_points() =~= old_mps.push(normalized@));
            assert(self.targets() =~= old_targets.push(target));
        }
        Ok(())
    }

    /// Mount `fs` at `/mnt/ext` and record the directories `mnt` and
    /// `mnt/ext` in the file table, whether or not the mount was taken.
    pub fn mount_ext(&mut self, fs: E) -> (r: Result<(), MountError>)
        requires
            old(self).wf(),
        ensures
            final(self).wf(),
            final(self).mounted() == old(self).mounted().push(fs),
            final(self).mount_points() == (if old(self).mount_points().contains(seq_ext_mount()) || old(self).mount_points().len() >= MAX_MOUNTS {
                old(self).mount_points()
            } else {
                old(self).mount_points().push(seq_ext_mount())
            }),
            final(self).targets() == (if old(self).mount_points().contains(seq_ext_mount()) || old(self).mount_points().len() >= MAX_MOUNTS {
                old(self).targets()
            } else {
                old(self).targets().push(MountTarget::Mounted(old(self).mounted().len() as usize))
            }),
            r == (if old(self).mount_points().contains(seq_ext_mount()) {
                Err(MountError::AlreadyMounted)
            } else if old(self).mount_points().len() >= MAX_MOUNTS {
                Err(MountError::TableFull)
            } else {
                Ok::<(), MountError>(())
            }),
            table_view(final(self).files()) == registered_view(registered_view(table_view(old(self).files()),
                (mnt_name(), Seq::empty(), true, mount_dir_metadata())), (mnt_ext_name(), Seq::empty(), true, mount_dir_metadata())),
    {
        let index = self.mounted.len();
        self.mounted.push(fs);
        proof {
            assert forall|k: int| 0 <= k < self.targets().len() implies (#[trigger] self.targets()[k] matches MountTarget::Mounted(j) ==> j < self.mounted().len()) by {}
        }
        assert(normalized_mount(seq_ext_mount()) == seq_ext_mount()) by {
            assert(seq_ext_mount().subrange(0, 8) =~= seq_ext_mount());
        }
        let r = self.mount(ext_mount_point(), MountTarget::Mounted(index));
        let meta = Metadata::empty().with_type(FileType::Directory);
        let meta = Metadata { nlink: 2, mode: meta.mode | 0o755, ..meta };
        assert(meta == mount_dir_metadata()) by {
            assert(0u16 | 0o755u16 == 0o755u16) by (bit_vector);
        }
        let f1 = File { name: "mnt", content: empty_bytes(), is_dir: true };
        let f2 = File { name: "mnt/ext", content: empty_bytes(), is_dir: true };
        proof {
            reveal_strlit("mnt");
            reveal_strlit("mnt/ext");
            vstd::string::is_ascii_spec_bytes("mnt");
            vstd::string::is_ascii_spec_bytes("mnt/ext");
            assert(name_of(f1) =~= mnt_name());
            assert(name_of(f2) =~= mnt_ext_name());
        }
        let ghost before = self.files();
        self.files.register(f1, meta);
        proof {
            lemma_registered_view(before, f1, meta);
        }
        let ghost middle = self.files();
        self.files.register(f2, meta);
        proof {
            lemma_registered_view(middle, f2, meta);
        }
        r
    }
}

/// `/mnt/ext`
pub open spec fn seq_ext_mount() -> Seq<u8> {
    seq![0x2Fu8, 0x6D, 0x6E, 0x74, 0x2F, 0x65, 0x78, 0x74]
}

/// `mnt`
pub open spec fn mnt_name() -> Seq<u8> {
    seq![0x6Du8, 0x6E, 0x74]
}

/// `mnt/ext`
pub open spec fn mnt_ext_name() -> Seq<u8> {
    seq![0x6Du8, 0x6E, 0x74, 0x2F, 0x65, 0x78, 0x74]
}

/// Metadata of the directories made for the ext2 mount.
pub open spec fn mount_dir_metadata() -> Metadata {
    Metadata { mode: 0o755, file_type: FileType::Directory, size: 0, nlink: 2, blocks: 0 }
}

fn root_mount_point() -> (r: &'static [u8])
    ensures
        r@ == seq![SLASH],
{
    let r: &'static [u8] = "/".as_bytes();
    proof {
        reveal_strlit("/");
        vstd::string::is_ascii_spec_bytes("/");
    }
    assert(r@ =~= seq![SLASH]);
    r
}

fn ext_mount_point() -> (r: &'static [u8])
    ensures
        r@ == seq_ext_mount(),
{
    let r: &'static [u8] = "/mnt/ext".as_bytes();
    proof {
        reveal_strlit("/mnt/ext");
        vstd::string::is_ascii_spec_bytes("/mnt/ext");
    }
    assert(r@ =~= seq_ext_mount());
    r
}

fn empty_bytes() -> (r: &'static [u8])
    ensures
        r@ == Seq::<u8>::empty(),
{
    let r: &'static [u8] = "".as_bytes();
    proof {
        reveal_strlit("");
        vstd::string::is_ascii_spec_bytes("");
    }
    assert(r@ =~= Seq::<u8>::empty());
    r
}


// ---------------------------------------------------------------------
// Resolution and the filesystem calls
// ---------------------------------------------------------------------

/// `best` as the integers that `resolve_from` folds.
pub open spec fn best_view(best: Option<(usize, usize, usize)>) -> Option<(int, int, int)> {
    match best {
        Some(b) => Some((b.0 as int, b.1 as int, b.2 as int)),
        None => None,
    }
}

impl<E: FileSystem> Vfs<E> {
    /// The mount that serves `path` and the start of the path relative to
    /// it (see `resolve`).
    fn resolve_mount(&self, path: &[u8]) -> (r: Option<(usize, usize)>)
        requires
            self.wf(),
        ensures
            r is None <==> resolve(self.mount_points(), path@) is None,
            r matches Some(x) ==> resolve(self.mount_points(), path@) matches Some(b) && b.0 == x.0 && b.1 == x.1
                && x.0 < self.mount_points().len() && x.1 <= path@.len(),
    {
        if path.len() == 0 {
            return None;
        }
        let absolute = path[0] == SLASH;
        let root = root_mount_point();
        let mut best: Option<(usize, usize, usize)> = None;
        let mut i: usize = 0;
        while i < self.mounts.len()
            invariant
                i <= self.mounts@.len(),
                self.mount_points().len() == self.mounts@.len(),
                path@.len() > 0,
                absolute == (path@[0] == SLASH),
                root@ == seq![SLASH],
                best matches Some(b) ==> b.0 < i && b.1 <= path@.len(),
                resolve_from(self.mount_points(), path@, i as int, best_view(best))
                    == resolve_from(self.mount_points(), path@, 0, None),
            decreases self.mounts@.len() - i,
        {
            let mp = self.mounts[i].mount_point;
            assert(mp@ == self.mount_points()[i as int]);
            let ghost before = best_view(best);
            if same_bytes(mp, root) {
                let rel = if absolute { skip_slashes_exec(path, 0) } else { 0 };
                let replace = match best {
                    Some(b) => b.2 <= 1,
                    None => true,
                };
                if replace {
                    best = Some((i, rel, 1));
                }
            } else if absolute && starts_with_bytes(path, mp) {
                let rel = skip_slashes_exec(path, mp.len());
                let replace = match best {
                    Some(b) => mp.len() > b.2,
                    None => true,
                };
                if replace {
                    best = Some((i, rel, mp.len()));
                }
            }
            assert(best_view(best) == resolve_step(mp@, path@, i as int, before));
            i = i + 1;
        }
        match best {
            Some(b) => Some((b.0, b.1)),
            None => None,
        }
    }
}

/// Metadata that `add_file_bytes` gives a file of `size` bytes: one
/// link, at least one 512-byte block, a directory or a regular file.
pub open spec fn file_metadata(size: u64, is_dir: bool) -> Metadata {
    Metadata {
        mode: 0,
        file_type: if is_dir { FileType::Directory } else { FileType::Regular },
        size,
        nlink: 1,
        blocks: block_count(size),
    }
}

/// `ceil(size / 512)`, at least one.
pub open spec fn block_count(size: u64) -> u64 {
    let b = size / 512 + (if size % 512 != 0 { 1int } else { 0int });
    if b < 1 { 1 } else { b as u64 }
}

fn block_count_exec(size: u64) -> (r: u64)
    ensures
        r == block_count(size),
{
    let b = size / 512 + if size % 512 != 0 { 1 } else { 0 };
    if b < 1 { 1 } else { b }
}

/// Register a file whose content is text (see `add_file_bytes`).
pub fn add_file<E: FileSystem>(vfs: &mut Vfs<E>, name: &'static str, content: &'static str, is_dir: bool)
    requires
        old(vfs).wf(),
    ensures
        final(vfs).wf(),
        table_view(final(vfs).files()) == registered_view(table_view(old(vfs).files()),
            (name.spec_bytes(), content.spec_bytes(), is_dir, file_metadata(content.spec_bytes().len() as u64, is_dir))),
        final(vfs).mount_points() == old(vfs).mount_points(),
        final(vfs).targets() == old(vfs).targets(),
        final(vfs).mounted() == old(vfs).mounted(),
{
    add_file_bytes(vfs, name, content.as_bytes(), is_dir);
}

/// Register a file with the metadata `file_metadata` gives it.
pub fn add_file_bytes<E: FileSystem>(vfs: &mut Vfs<E>, name: &'static str, content: &'static [u8], is_dir: bool)
    requires
        old(vfs).wf(),
    ensures
        final(vfs).wf(),
        table_view(final(vfs).files()) == registered_view(table_view(old(vfs).files()),
            (name.spec_bytes(), content@, is_dir, file_metadata(content@.len() as u64, is_dir))),
        final(vfs).mount_points() == old(vfs).mount_points(),
        final(vfs).targets() == old(vfs).targets(),
        final(vfs).mounted() == old(vfs).mounted(),
{
    let mut meta = Metadata::empty();
    meta.size = content.len() as u64;
    meta.blocks = block_count_exec(meta.size);
    meta.nlink = 1;
    meta = meta.with_type(if is_dir { FileType::Directory } else { FileType::Regular });
    add_file_with_metadata(vfs, name, content, is_dir, meta);
}

/// Register a file with the given metadata: a file of the same name is
/// replaced, else the file is appended while the table has room.
pub fn add_file_with_metadata<E: FileSystem>(
    vfs: &mut Vfs<E>,
    name: &'static str,
    content: &'static [u8],
    is_dir: bool,
    metadata: Metadata,
)
    requires
        old(vfs).wf(),
    ensures
        final(vfs).wf(),
        table_view(final(vfs).files()) == registered_view(table_view(old(vfs).files()),
            (name.spec_bytes(), content@, is_dir, metadata)),
        final(vfs).mount_points() == old(vfs).mount_points(),
        final(vfs).targets() == old(vfs).targets(),
        final(vfs).mounted() == old(vfs).mounted(),
{
    let file = File { name, content, is_dir };
    proof {
        lemma_registered_view(vfs.files(), file, metadata);
    }
    vfs.files.register(file, metadata);
}

/// Open `path` through the filesystem mounted where it leads.
pub fn open<E: FileSystem>(vfs: &Vfs<E>, path: &str) -> (r: Option<OpenFile>)
    requires
        vfs.wf(),
    ensures
        r == vfs.opened(path.spec_bytes()),
{
    let p = path.as_bytes();
    match vfs.resolve_mount(p) {
        Some((k, rel)) => {
            let relative = slice_subrange(p, rel, p.len());
            assert(vfs.mounts@[k as int].fs == vfs.targets()[k as int]);
            match vfs.mounts[k].fs {
                MountTarget::Initramfs => vfs.files.read(relative),
                MountTarget::Mounted(j) => vfs.mounted[j].read(relative),
            }
        },
        None => None,
    }
}

/// Metadata of `path`, from the filesystem mounted where it leads.
pub fn stat<E: FileSystem>(vfs: &Vfs<E>, path: &str) -> (r: Option<Metadata>)
    requires
        vfs.wf(),
    ensures
        r == vfs.stat_of(path.spec_bytes()),
{
    let p = path.as_bytes();
    match vfs.resolve_mount(p) {
        Some((k, rel)) => {
            let relative = slice_subrange(p, rel, p.len());
            assert(vfs.mounts@[k as int].fs == vfs.targets()[k as int]);
            match vfs.mounts[k].fs {
                MountTarget::Initramfs => vfs.files.metadata(relative),
                MountTarget::Mounted(j) => vfs.mounted[j].metadata(relative),
            }
        },
        None => None,
    }
}

/// The files that listing `path` gives, with their metadata, in order.
pub fn list_directory<E: FileSystem>(vfs: &Vfs<E>, path: &str) -> (r: Vec<Listed>)
    requires
        vfs.wf(),
    ensures
        r@ == vfs.listing(path.spec_bytes()),
{
    let p = path.as_bytes();
    match vfs.resolve_mount(p) {
        Some((k, rel)) => {
            let relative = slice_subrange(p, rel, p.len());
            assert(vfs.mounts@[k as int].fs == vfs.targets()[k as int]);
            match vfs.mounts[k].fs {
                MountTarget::Initramfs => vfs.files.list(relative),
                MountTarget::Mounted(j) => vfs.mounted[j].list(relative),
            }
        },
        None => Vec::new(),
    }
}

/// The bytes of `name`, where opening it gives inline content.
pub open spec fn inline_bytes(o: Option<OpenFile>) -> Option<&'static [u8]> {
    match o {
        Some(f) => match f.content {
            FileContent::Inline(b) => Some(b),
            FileContent::Ext2(_) => None,
        },
        None => None,
    }
}

/// The content of `name`, where it opens to inline bytes.
pub fn read_file_bytes<E: FileSystem>(vfs: &Vfs<E>, name: &str) -> (r: Option<&'static [u8]>)
    requires
        vfs.wf(),
    ensures
        r == inline_bytes(vfs.opened(name.spec_bytes())),
{
    if let Some(opened) = open(vfs, name) {
        if let FileContent::Inline(bytes) = opened.content {
            return Some(bytes);
        }
    }
    None
}

/// The content of `name` as text, where it opens to inline bytes that
/// are valid UTF-8.
pub fn read_file<E: FileSystem>(vfs: &Vfs<E>, name: &str) -> (r: Option<&'static str>)
    requires
        vfs.wf(),
    ensures
        r is Some <==> (inline_bytes(vfs.opened(name.spec_bytes())) matches Some(b) && valid_utf8(b@)),
        r matches Some(s) ==> (inline_bytes(vfs.opened(name.spec_bytes())) matches Some(b) && s@ == decode_utf8(b@)),
{
    match read_file_bytes(vfs, name) {
        Some(b) => str_from_utf8(b),
        None => None,
    }
}

/// Whether `name` has metadata in the filesystem mounted where it leads.
pub fn file_exists<E: FileSystem>(vfs: &Vfs<E>, name: &str) -> (r: bool)
    requires
        vfs.wf(),
    ensures
        r == vfs.stat_of(name.spec_bytes()) is Some,
{
    stat(vfs, name).is_some()
}


// ---------------------------------------------------------------------
// Loading the initramfs
// ---------------------------------------------------------------------

/// One entry of the initramfs archive.
#[derive(Clone, Copy)]
pub struct InitramfsEntry {
    pub name: &'static str,
    pub mode: u32,
    pub data: &'static [u8],
}

/// `name` without one leading `/`.
pub open spec fn stripped_name(name: Seq<u8>) -> Seq<u8> {
    if name.len() > 0 && name[0] == SLASH {
        name.drop_first()
    } else {
        name
    }
}

/// Metadata that loading gives an archive entry: the permission bits and
/// kind of its mode, its size, one link, its blocks.
pub open spec fn entry_metadata(e: InitramfsEntry) -> Metadata {
    Metadata {
        mode: (e.mode & 0o7777) as u16,
        file_type: mode_type(e.mode),
        size: e.data@.len() as u64,
        nlink: 1,
        blocks: block_count(e.data@.len() as u64),
    }
}

/// The table entry that an archive entry becomes.
pub open spec fn entry_view(e: InitramfsEntry) -> FileView {
    (stripped_name(e.name.spec_bytes()), e.data@, mode_type(e.mode) == FileType::Directory, entry_metadata(e))
}

/// The table after loading the first `n` archive entries, in order.
pub open spec fn loaded(es: Seq<InitramfsEntry>, n: int) -> Seq<FileView>
    decreases n,
{
    if n <= 0 || n > es.len() {
        Seq::empty()
    } else {
        registered_view(loaded(es, n - 1), entry_view(es[n - 1]))
    }
}

/// `.ext2`, `.ext3` or `.ext4` ends the name of a regular file: an image
/// that can be mounted.
pub open spec fn is_disk_image(e: InitramfsEntry) -> bool {
    let name = stripped_name(e.name.spec_bytes());
    &&& mode_type(e.mode) == FileType::Regular
    &&& (has_suffix(name, seq![0x2Eu8, 0x65, 0x78, 0x74, 0x32]) || has_suffix(name, seq![0x2Eu8, 0x65, 0x78, 0x74, 0x33])
        || has_suffix(name, seq![0x2Eu8, 0x65, 0x78, 0x74, 0x34]))
}

/// The data of the first disk image among `es[i..]`.
pub open spec fn first_image(es: Seq<InitramfsEntry>, i: int) -> Option<&'static [u8]>
    decreases es.len() - i,
{
    if i < 0 || i >= es.len() {
        None
    } else if is_disk_image(es[i]) {
        Some(es[i].data)
    } else {
        first_image(es, i + 1)
    }
}

fn strip_slash(name: &'static str) -> (r: &'static str)
    ensures
        r.spec_bytes() == stripped_name(name.spec_bytes()),
{
    let b = name.as_bytes();
    if b.len() > 0 && b[0] == SLASH {
        proof {
            vstd::utf8::encode_utf8_valid_utf8(name@);
            reveal_with_fuel(vstd::utf8::is_char_boundary, 2);
            assert(vstd::utf8::is_char_boundary(name.spec_bytes(), 1));
        }
        let (_, rest) = name.split_at(1);
        assert(rest.spec_bytes() =~= stripped_name(name.spec_bytes()));
        rest
    } else {
        name
    }
}

fn image_suffix(name: &[u8]) -> (r: bool)
    ensures
        r == (has_suffix(name@, seq![0x2Eu8, 0x65, 0x78, 0x74, 0x32]) || has_suffix(name@, seq![0x2Eu8, 0x65, 0x78, 0x74, 0x33])
            || has_suffix(name@, seq![0x2Eu8, 0x65, 0x78, 0x74, 0x34])),
{
    let e2 = ".ext2".as_bytes();
    let e3 = ".ext3".as_bytes();
    let e4 = ".ext4".as_bytes();
    proof {
        reveal_strlit(".ext2");
        reveal_strlit(".ext3");
        reveal_strlit(".ext4");
        vstd::string::is_ascii_spec_bytes(".ext2");
        vstd::string::is_ascii_spec_bytes(".ext3");
        vstd::string::is_ascii_spec_bytes(".ext4");
        assert(e2@ =~= seq![0x2Eu8, 0x65, 0x78, 0x74, 0x32]);
        assert(e3@ =~= seq![0x2Eu8, 0x65, 0x78, 0x74, 0x33]);
        assert(e4@ =~= seq![0x2Eu8, 0x65, 0x78, 0x74, 0x34]);
    }
    ends_with_bytes(name, e2) || ends_with_bytes(name, e3) || ends_with_bytes(name, e4)
}

/// Build the filesystem from the initramfs archive: the initramfs at `/`,
/// each entry registered in order, and the first disk image found, for
/// the caller to parse and hand to `Vfs::mount_ext`.
pub fn init<E: FileSystem>(entries: &[InitramfsEntry]) -> (r: (Vfs<E>, Option<&'static [u8]>))
    ensures
        r.0.wf(),
        table_view(r.0.files()) == loaded(entries@, entries@.len() as int),
        r.0.mount_points() == seq![seq![SLASH]],
        r.0.targets() == seq![MountTarget::Initramfs],
        r.0.mounted() == Seq::<E>::empty(),
        r.1 == first_image(entries@, 0),
{
    let mut vfs: Vfs<E> = Vfs::new();
    let mut candidate: Option<&'static [u8]> = None;
    let mut i: usize = 0;
    assert(table_view(vfs.files()) =~= loaded(entries@, 0));
    while i < entries.len()
        invariant
            i <= entries@.len(),
            vfs.wf(),
            table_view(vfs.files()) == loaded(entries@, i as int),
            vfs.mount_points() == seq![seq![SLASH]],
            vfs.targets() == seq![MountTarget::Initramfs],
            vfs.mounted() == Seq::<E>::empty(),
            candidate is None ==> first_image(entries@, i as int) == first_image(entries@, 0),
            candidate is Some ==> candidate == first_image(entries@, 0),
        decreases entries@.len() - i,
    {
        let entry = entries[i];
        let name = strip_slash(entry.name);
        let (mode, file_type) = split_mode(entry.mode);
        let mut meta = Metadata::empty().with_mode(mode).with_type(file_type);
        meta.size = entry.data.len() as u64;
        meta.nlink = 1;
        meta.blocks = block_count_exec(meta.size);
        let is_dir = file_type == FileType::Directory;
        assert(meta == entry_metadata(entry));
        add_file_with_metadata(&mut vfs, name, entry.data, is_dir, meta);
        if candidate.is_none() && file_type == FileType::Regular && image_suffix(name.as_bytes()) {
            candidate = Some(entry.data);
        }
        i = i + 1;
    }
    (vfs, candidate)
}


// ---------------------------------------------------------------------
// Laws
// ---------------------------------------------------------------------

/// A file just registered is what its name opens (leading and trailing
/// `/` aside), whenever the table held its name or had room for it.
pub proof fn law_read_after_register(t: Seq<(File, Metadata)>, f: File, m: Metadata, path: Seq<u8>)
    requires
        find_named(t, name_of(f), 0) is Some || t.len() < MAX_FILES,
        trim_slashes(path) == name_of(f),
    ensures
        table_read(registered(t, f, m), path) == Some(OpenFile { content: FileContent::Inline(f.content), metadata: m }),
{
    lemma_find_named(t, name_of(f), 0);
    let r = registered(t, f, m);
    match find_named(t, name_of(f), 0) {
        Some(k) => {
            lemma_find_named(r, name_of(f), 0);
            assert forall|j: int| 0 <= j < k implies name_of(#[trigger] r[j].0) != name_of(f) by {
                lemma_find_named_before(t, name_of(f), 0, j);
            }
            lemma_find_named_first(r, name_of(f), k);
        },
        None => {
            let k = t.len() as int;
            assert forall|j: int| 0 <= j < k implies name_of(#[trigger] r[j].0) != name_of(f) by {}
            lemma_find_named_first(r, name_of(f), k);
        },
    }
}

/// Registering a file leaves what every other name opens unchanged.
pub proof fn law_register_keeps_others(t: Seq<(File, Metadata)>, f: File, m: Metadata, path: Seq<u8>)
    requires
        trim_slashes(path) != name_of(f),
    ensures
        table_read(registered(t, f, m), path) == table_read(t, path),
{
    let name = trim_slashes(path);
    let r = registered(t, f, m);
    lemma_find_named(t, name_of(f), 0);
    lemma_find_named_same(t, r, name, 0);
}

/// Before the first entry of a name, no entry has it.
proof fn lemma_find_named_before(t: Seq<(File, Metadata)>, name: Seq<u8>, i: int, j: int)
    requires
        0 <= i <= j,
        find_named(t, name, i) matches Some(k) && j < k,
    ensures
        name_of(t[j].0) != name,
    decreases j - i,
{
    if i < j {
        lemma_find_named_before(t, name, i + 1, j);
    }
}

/// An entry named `name` with none before it is the first found.
proof fn lemma_find_named_first(t: Seq<(File, Metadata)>, name: Seq<u8>, k: int)
    requires
        0 <= k < t.len(),
        name_of(t[k].0) == name,
        forall|j: int| 0 <= j < k ==> name_of(#[trigger] t[j].0) != name,
    ensures
        find_named(t, name, 0) == Some(k),
{
    lemma_find_named_first_from(t, name, 0, k);
}

proof fn lemma_find_named_first_from(t: Seq<(File, Metadata)>, name: Seq<u8>, i: int, k: int)
    requires
        0 <= i <= k < t.len(),
        name_of(t[k].0) == name,
        forall|j: int| 0 <= j < k ==> name_of(#[trigger] t[j].0) != name,
    ensures
        find_named(t, name, i) == Some(k),
    decreases k - i,
{
    if i < k {
        lemma_find_named_first_from(t, name, i + 1, k);
    }
}

/// Two tables that agree on the names before the first entry of `name`,
/// and on that entry, find the same entry.
proof fn lemma_find_named_same(t: Seq<(File, Metadata)>, r: Seq<(File, Metadata)>, name: Seq<u8>, i: int)
    requires
        0 <= i,
        r.len() >= t.len(),
        forall|j: int| 0 <= j < t.len() ==> (name_of(#[trigger] r[j].0) == name) == (name_of(t[j].0) == name),
        forall|j: int| 0 <= j < t.len() && name_of(t[j].0) == name ==> #[trigger] r[j] == t[j],
        forall|j: int| t.len() <= j < r.len() ==> name_of(#[trigger] r[j].0) != name,
    ensures
        find_named(r, name, i) == find_named(t, name, i),
        (match find_named(t, name, i) {
            Some(k) => Some(OpenFile { content: FileContent::Inline(r[k].0.content), metadata: r[k].1 }),
            None => None::<OpenFile>,
        }) == (match find_named(t, name, i) {
            Some(k) => Some(OpenFile { content: FileContent::Inline(t[k].0.content), metadata: t[k].1 }),
            None => None::<OpenFile>,
        }),
    decreases r.len() - i,
{
    if i < r.len() {
        lemma_find_named_same(t, r, name, i + 1);
    }
}


/// The length by which mount point `mp` matches `path`: 1 for the root,
/// which serves every path, the mount point's length where it prefixes an
/// absolute path; none otherwise.
pub open spec fn match_len(mp: Seq<u8>, path: Seq<u8>) -> Option<int> {
    if mp == seq![SLASH] {
        Some(1)
    } else if path.len() > 0 && path[0] == SLASH && has_prefix(path, mp) {
        Some(mp.len() as int)
    } else {
        None
    }
}

/// What the mounts before `i` give: the best holds the longest match so
/// far, and there is none only when nothing matched.
pub open spec fn best_so_far(mps: Seq<Seq<u8>>, path: Seq<u8>, i: int, best: Option<(int, int, int)>) -> bool {
    match best {
        Some(b) => 0 <= b.0 < i && match_len(mps[b.0], path) == Some(b.2)
            && forall|j: int| 0 <= j < i && (#[trigger] match_len(mps[j], path)) is Some ==> match_len(mps[j], path)->0 <= b.2,
        None => forall|j: int| 0 <= j < i ==> (#[trigger] match_len(mps[j], path)) is None,
    }
}

proof fn lemma_resolve_best(mps: Seq<Seq<u8>>, path: Seq<u8>, i: int, best: Option<(int, int, int)>)
    requires
        0 <= i <= mps.len(),
        best_so_far(mps, path, i, best),
    ensures
        best_so_far(mps, path, mps.len() as int, resolve_from(mps, path, i, best)),
    decreases mps.len() - i,
{
    if i < mps.len() {
        let next = resolve_step(mps[i], path, i, best);
        assert(best_so_far(mps, path, i + 1, next));
        lemma_resolve_best(mps, path, i + 1, next);
    }
}

/// A path is served by the mount point that matches it longest: the
/// chosen mount matches the path, no mount matches it longer, and a path
/// is served by none only when no mount matches it (or it is empty).
pub proof fn law_resolve_longest(mps: Seq<Seq<u8>>, path: Seq<u8>)
    ensures
        resolve(mps, path) matches Some(b) ==> (match_len(mps[b.0], path) == Some(b.2)
            && forall|j: int| 0 <= j < mps.len() && (#[trigger] match_len(mps[j], path)) is Some ==> match_len(mps[j], path)->0 <= b.2),
        path.len() > 0 && resolve(mps, path) is None ==> forall|j: int| 0 <= j < mps.len() ==> (#[trigger] match_len(mps[j], path)) is None,
{
    if path.len() > 0 {
        lemma_resolve_best(mps, path, 0, None);
    }
}

} // verus!
