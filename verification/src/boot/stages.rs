//! Boot stage management for rootfs initialization
//!
//! A multi-stage boot process similar to Linux:
//! 1. Bootloader Stage (GRUB/Multiboot2)
//! 2. Kernel Init Stage (hardware detection, memory setup, initramfs unpacking)
//! 3. Initramfs Stage (/proc, /sys mounting, device detection, root mounting)
//! 4. Root Switch Stage (pivot_root, chroot to new root)
//! 5. Real Root Stage (remount rw, mount /usr, /home, start init)
//! 6. User Space Stage (login, shell, services)
//!
//! This module keeps the boot state and decides each stage; the kernel
//! creates the directories and mounts the file systems.

use vstd::prelude::*;
use vstd::string::StringSliceAdditionalSpecFns;
use crate::boot::uefi::BlockDeviceInfo;
use crate::bootinfo::{first_at, pci_device_by_location, PciBarInfo, PciDeviceInfo};

verus! {

/// Boot stage enumeration
#[derive(Debug, Clone, Copy, PartialEq, Eq, Structural)]
pub enum BootStage {
    /// Stage 1: Bootloader has loaded kernel and initramfs
    Bootloader,
    /// Stage 2: Kernel is initializing (hardware, memory, GDT, IDT)
    KernelInit,
    /// Stage 3: Initramfs is active, preparing for real root
    InitramfsStage,
    /// Stage 4: Switching from initramfs to real root
    RootSwitch,
    /// Stage 5: Real root is mounted, starting init
    RealRoot,
    /// Stage 6: User space is active
    UserSpace,
    /// Emergency mode due to boot failure
    Emergency,
}

/// Room for the values of the command line arguments.
pub const CMDLINE_ARENA_SIZE: usize = 512;

/// Boot configuration parsed from kernel command line
pub struct BootConfig {
    /// Root device (e.g., "/dev/vda1", "UUID=...", "LABEL=...")
    pub root_device: Option<Vec<u8>>,
    /// Root filesystem type (e.g., "ext2", "ext4")
    pub root_fstype: Option<Vec<u8>>,
    /// Root mount options (e.g., "rw", "ro")
    pub root_options: Option<Vec<u8>>,
    /// Init program path
    pub init_path: Option<Vec<u8>>,
    /// Emergency mode flag
    pub emergency: bool,
}

/// What the boot configuration holds, and the bytes of the argument
/// arena used so far.
pub struct ConfigView {
    pub root_device: Option<Seq<u8>>,
    pub root_fstype: Option<Seq<u8>>,
    pub root_options: Option<Seq<u8>>,
    pub init_path: Option<Seq<u8>>,
    pub emergency: bool,
    pub arena_used: nat,
}

pub open spec fn opt_view(o: Option<Vec<u8>>) -> Option<Seq<u8>> {
    match o {
        Some(v) => Some(v@),
        None => None,
    }
}

impl BootConfig {
    pub fn new() -> (r: Self)
        ensures
            r.root_device is None && r.root_fstype is None && r.root_options is None
                && r.init_path is None && !r.emergency,
    {
        Self {
            root_device: None,
            root_fstype: None,
            root_options: None,
            init_path: None,
            emergency: false,
        }
    }

    /// A copy of the configuration.
    pub fn copy(&self) -> (r: Self)
        ensures
            opt_view(r.root_device) == opt_view(self.root_device),
            opt_view(r.root_fstype) == opt_view(self.root_fstype),
            opt_view(r.root_options) == opt_view(self.root_options),
            opt_view(r.init_path) == opt_view(self.init_path),
            r.emergency == self.emergency,
    {
        BootConfig {
            root_device: copy_opt(&self.root_device),
            root_fstype: copy_opt(&self.root_fstype),
            root_options: copy_opt(&self.root_options),
            init_path: copy_opt(&self.init_path),
            emergency: self.emergency,
        }
    }
}

fn copy_opt(o: &Option<Vec<u8>>) -> (r: Option<Vec<u8>>)
    ensures
        opt_view(r) == opt_view(*o),
{
    match o {
        Some(v) => Some(copy_bytes(v.as_slice())),
        None => None,
    }
}

fn copy_bytes(s: &[u8]) -> (r: Vec<u8>)
    ensures
        r@ == s@,
{
    let mut out: Vec<u8> = Vec::new();
    let mut i: usize = 0;
    while i < s.len()
        invariant
            i <= s@.len(),
            out@ == s@.take(i as int),
        decreases s@.len() - i,
    {
        out.push(s[i]);
        i = i + 1;
    }
    assert(out@ =~= s@);
    out
}

/// Global boot state
pub struct BootState {
    current_stage: BootStage,
    config: BootConfig,
    arena_used: usize,
    initramfs_mounted: bool,
    real_root_mounted: bool,
    proc_mounted: bool,
    sys_mounted: bool,
    dev_mounted: bool,
}

/// The file systems whose mounting the boot tracks.
#[derive(Debug, Clone, Copy, PartialEq, Eq, Structural)]
pub enum MountFlags {
    Initramfs,
    Proc,
    Sys,
    Dev,
    Rootfs,
}

/// The tracked file system a name stands for: "initramfs", "proc",
/// "sys", "dev" or "rootfs".
pub open spec fn fs_of(name: Seq<u8>) -> Option<MountFlags> {
    if name == seq![105u8, 110u8, 105u8, 116u8, 114u8, 97u8, 109u8, 102u8, 115u8] {
        Some(MountFlags::Initramfs)
    } else if name == seq![112u8, 114u8, 111u8, 99u8] {
        Some(MountFlags::Proc)
    } else if name == seq![115u8, 121u8, 115u8] {
        Some(MountFlags::Sys)
    } else if name == seq![100u8, 101u8, 118u8] {
        Some(MountFlags::Dev)
    } else if name == seq![114u8, 111u8, 111u8, 116u8, 102u8, 115u8] {
        Some(MountFlags::Rootfs)
    } else {
        None
    }
}

impl BootState {
    pub closed spec fn stage(&self) -> BootStage {
        self.current_stage
    }

    pub closed spec fn config(&self) -> ConfigView {
        ConfigView {
            root_device: opt_view(self.config.root_device),
            root_fstype: opt_view(self.config.root_fstype),
            root_options: opt_view(self.config.root_options),
            init_path: opt_view(self.config.init_path),
            emergency: self.config.emergency,
            arena_used: self.arena_used as nat,
        }
    }

    pub closed spec fn mounted(&self, f: MountFlags) -> bool {
        match f {
            MountFlags::Initramfs => self.initramfs_mounted,
            MountFlags::Proc => self.proc_mounted,
            MountFlags::Sys => self.sys_mounted,
            MountFlags::Dev => self.dev_mounted,
            MountFlags::Rootfs => self.real_root_mounted,
        }
    }

    pub closed spec fn wf(&self) -> bool {
        self.arena_used <= CMDLINE_ARENA_SIZE
    }

    /// The boot state when the bootloader hands over.
    pub fn new() -> (r: Self)
        ensures
            r.wf(),
            r.stage() == BootStage::Bootloader,
            r.config() == (ConfigView {
                root_device: None,
                root_fstype: None,
                root_options: None,
                init_path: None,
                emergency: false,
                arena_used: 0,
            }),
            forall|f: MountFlags| !#[trigger] r.mounted(f),
    {
        BootState {
            current_stage: BootStage::Bootloader,
            config: BootConfig::new(),
            arena_used: 0,
            initramfs_mounted: false,
            real_root_mounted: false,
            proc_mounted: false,
            sys_mounted: false,
            dev_mounted: false,
        }
    }
}

/// Initialize boot stage management: the kernel is initializing.
pub fn init(st: &mut BootState)
    ensures
        final(st).stage() == BootStage::KernelInit,
        final(st).config() == old(st).config(),
        forall|f: MountFlags| #[trigger] final(st).mounted(f) == old(st).mounted(f),
        old(st).wf() ==> final(st).wf(),
{
    st.current_stage = BootStage::KernelInit;
}

/// Get current boot stage
pub fn current_stage(st: &BootState) -> (r: BootStage)
    ensures
        r == st.stage(),
{
    st.current_stage
}

/// Advance to next boot stage
pub fn advance_stage(st: &mut BootState, next_stage: BootStage)
    ensures
        final(st).stage() == next_stage,
        final(st).config() == old(st).config(),
        forall|f: MountFlags| #[trigger] final(st).mounted(f) == old(st).mounted(f),
        old(st).wf() ==> final(st).wf(),
{
    st.current_stage = next_stage;
}

/// The whitespace bytes that separate command line arguments.
pub open spec fn is_ws(b: u8) -> bool {
    b == 32 || b == 9 || b == 10 || b == 11 || b == 12 || b == 13
}

/// The arguments of a command line: its maximal runs of
/// non-whitespace bytes.
pub open spec fn split_ws(s: Seq<u8>) -> Seq<Seq<u8>>
    decreases s.len(),
{
    if s.len() == 0 {
        Seq::empty()
    } else if is_ws(s.last()) {
        split_ws(s.drop_last())
    } else {
        let t = split_ws(s.drop_last());
        if s.drop_last().len() == 0 || is_ws(s.drop_last().last()) {
            t.push(seq![s.last()])
        } else {
            t.update(t.len() - 1, t.last().push(s.last()))
        }
    }
}

/// The value stored for an argument: itself if the arena has room, else
/// "(overflow)".
pub open spec fn stored(c: ConfigView, v: Seq<u8>) -> (Seq<u8>, nat) {
    if c.arena_used + v.len() <= CMDLINE_ARENA_SIZE {
        (v, c.arena_used + v.len())
    } else {
        (seq![40u8, 111u8, 118u8, 101u8, 114u8, 102u8, 108u8, 111u8, 119u8, 41u8], c.arena_used)
    }
}

pub open spec fn key_root() -> Seq<u8> {
    seq![114u8, 111u8, 111u8, 116u8, 61u8]
}

pub open spec fn key_rootfstype() -> Seq<u8> {
    seq![114u8, 111u8, 111u8, 116u8, 102u8, 115u8, 116u8, 121u8, 112u8, 101u8, 61u8]
}

pub open spec fn key_rootflags() -> Seq<u8> {
    seq![114u8, 111u8, 111u8, 116u8, 102u8, 108u8, 97u8, 103u8, 115u8, 61u8]
}

pub open spec fn key_init() -> Seq<u8> {
    seq![105u8, 110u8, 105u8, 116u8, 61u8]
}

pub open spec fn has_prefix(s: Seq<u8>, p: Seq<u8>) -> bool {
    p.len() <= s.len() && s.take(p.len() as int) == p
}

/// Whether an argument asks for emergency mode: "emergency", "single"
/// or "1".
pub open spec fn is_emergency_arg(t: Seq<u8>) -> bool {
    t == seq![101u8, 109u8, 101u8, 114u8, 103u8, 101u8, 110u8, 99u8, 121u8] || t == seq![
        115u8,
        105u8,
        110u8,
        103u8,
        108u8,
        101u8,
    ] || t == seq![49u8]
}

/// The configuration after one argument.
pub open spec fn apply_arg(c: ConfigView, t: Seq<u8>) -> ConfigView {
    if has_prefix(t, key_root()) {
        let (v, u) = stored(c, t.skip(5));
        ConfigView { root_device: Some(v), arena_used: u, ..c }
    } else if has_prefix(t, key_rootfstype()) {
        let (v, u) = stored(c, t.skip(11));
        ConfigView { root_fstype: Some(v), arena_used: u, ..c }
    } else if has_prefix(t, key_rootflags()) {
        let (v, u) = stored(c, t.skip(10));
        ConfigView { root_options: Some(v), arena_used: u, ..c }
    } else if has_prefix(t, key_init()) {
        let (v, u) = stored(c, t.skip(5));
        ConfigView { init_path: Some(v), arena_used: u, ..c }
    } else if is_emergency_arg(t) {
        ConfigView { emergency: true, ..c }
    } else {
        c
    }
}

/// The configuration after a sequence of arguments, in order.
pub open spec fn apply_args(c: ConfigView, ts: Seq<Seq<u8>>) -> ConfigView
    decreases ts.len(),
{
    if ts.len() == 0 {
        c
    } else {
        apply_arg(apply_args(c, ts.drop_last()), ts.last())
    }
}

fn is_ws_byte(b: u8) -> (r: bool)
    ensures
        r == is_ws(b),
{
    b == 32 || b == 9 || b == 10 || b == 11 || b == 12 || b == 13
}

/// `t` starts with `p`.
fn starts_with(t: &[u8], p: &[u8]) -> (r: bool)
    ensures
        r == has_prefix(t@, p@),
{
    if p.len() > t.len() {
        return false;
    }
    let mut i: usize = 0;
    while i < p.len()
        invariant
            i <= p@.len() <= t@.len(),
            forall|k: int| 0 <= k < i ==> t@[k] == p@[k],
        decreases p@.len() - i,
    {
        if t[i] != p[i] {
            assert(t@.take(p@.len() as int)[i as int] != p@[i as int]);
            return false;
        }
        i = i + 1;
    }
    assert(t@.take(p@.len() as int) =~= p@);
    true
}

/// Store an argument's value in the arena.
fn store_value(st: &mut BootState, v: &[u8]) -> (r: Vec<u8>)
    requires
        old(st).wf(),
    ensures
        final(st).wf(),
        (r@, final(st).arena_used as nat) == stored(old(st).config(), v@),
        final(st).config == old(st).config,
        final(st).current_stage == old(st).current_stage,
        final(st).initramfs_mounted == old(st).initramfs_mounted,
        final(st).proc_mounted == old(st).proc_mounted,
        final(st).sys_mounted == old(st).sys_mounted,
        final(st).dev_mounted == old(st).dev_mounted,
        final(st).real_root_mounted == old(st).real_root_mounted,
{
    if v.len() <= CMDLINE_ARENA_SIZE - st.arena_used {
        st.arena_used = st.arena_used + v.len();
        copy_bytes(v)
    } else {
        let o: [u8; 10] = [40u8, 111u8, 118u8, 101u8, 114u8, 102u8, 108u8, 111u8, 119u8, 41u8];
        let r = copy_bytes(o.as_slice());
        assert(r@ =~= seq![40u8, 111u8, 118u8, 101u8, 114u8, 102u8, 108u8, 111u8, 119u8, 41u8]);
        r
    }
}

fn tail(t: &[u8], n: usize) -> (r: &[u8])
    requires
        n <= t@.len(),
    ensures
        r@ == t@.skip(n as int),
{
    let (_a, b) = t.split_at(n);
    b
}

/// Apply one argument to the configuration.
fn apply_one(st: &mut BootState, t: &[u8])
    requires
        old(st).wf(),
    ensures
        final(st).wf(),
        final(st).config() == apply_arg(old(st).config(), t@),
        final(st).current_stage == old(st).current_stage,
        forall|f: MountFlags| #[trigger] final(st).mounted(f) == old(st).mounted(f),
{
    let root: [u8; 5] = [114u8, 111u8, 111u8, 116u8, 61u8];
    let fstype: [u8; 11] = [114u8, 111u8, 111u8, 116u8, 102u8, 115u8, 116u8, 121u8, 112u8, 101u8, 61u8];
    let flags: [u8; 10] = [114u8, 111u8, 111u8, 116u8, 102u8, 108u8, 97u8, 103u8, 115u8, 61u8];
    let init: [u8; 5] = [105u8, 110u8, 105u8, 116u8, 61u8];
    let emergency: [u8; 9] = [101u8, 109u8, 101u8, 114u8, 103u8, 101u8, 110u8, 99u8, 121u8];
    let single: [u8; 6] = [115u8, 105u8, 110u8, 103u8, 108u8, 101u8];
    let one: [u8; 1] = [49u8];
    assert(root@ =~= key_root());
    assert(fstype@ =~= key_rootfstype());
    assert(flags@ =~= key_rootflags());
    assert(init@ =~= key_init());
    assert(emergency@ =~= seq![101u8, 109u8, 101u8, 114u8, 103u8, 101u8, 110u8, 99u8, 121u8]);
    assert(single@ =~= seq![115u8, 105u8, 110u8, 103u8, 108u8, 101u8]);
    assert(one@ =~= seq![49u8]);
    if starts_with(t, root.as_slice()) {
        let v = store_value(st, tail(t, 5));
        st.config.root_device = Some(v);
    } else if starts_with(t, fstype.as_slice()) {
        let v = store_value(st, tail(t, 11));
        st.config.root_fstype = Some(v);
    } else if starts_with(t, flags.as_slice()) {
        let v = store_value(st, tail(t, 10));
        st.config.root_options = Some(v);
    } else if starts_with(t, init.as_slice()) {
        let v = store_value(st, tail(t, 5));
        st.config.init_path = Some(v);
    } else if bytes_eq(t, emergency.as_slice()) || bytes_eq(t, single.as_slice()) || bytes_eq(
        t,
        one.as_slice(),
    ) {
        st.config.emergency = true;
    }
}

fn bytes_eq(a: &[u8], b: &[u8]) -> (r: bool)
    ensures
        r == (a@ == b@),
{
    if a.len() != b.len() {
        return false;
    }
    let r = starts_with(a, b);
    assert(a@.take(b@.len() as int) =~= a@);
    r
}

/// Set boot configuration from kernel command line
///
/// The arguments are the runs of non-whitespace bytes.  `root=`,
/// `rootfstype=`, `rootflags=` and `init=` set the root device, its file
/// system type, its mount options and the init program; their values go
/// into a 512-byte arena, and one that no longer fits is recorded as
/// "(overflow)".  "emergency", "single" and "1" ask for emergency mode.
/// Other arguments are ignored.
pub fn parse_boot_config(st: &mut BootState, cmdline: &str)
    requires
        old(st).wf(),
    ensures
        final(st).wf(),
        final(st).config() == apply_args(old(st).config(), split_ws(vstd::utf8::encode_utf8(cmdline@))),
        final(st).stage() == old(st).stage(),
        forall|f: MountFlags| #[trigger] final(st).mounted(f) == old(st).mounted(f),
{
    let s = cmdline.as_bytes();
    let ghost s0 = s@;
    let mut cur: Vec<u8> = Vec::new();
    let mut i: usize = 0;
    while i < s.len()
        invariant
            i <= s@.len(),
            s@ == s0,
            st.wf(),
            st.current_stage == old(st).current_stage,
            forall|f: MountFlags| #[trigger] st.mounted(f) == old(st).mounted(f),
            cur@.len() > 0 <==> (i > 0 && !is_ws(s0[i - 1])),
            cur@.len() > 0 ==> split_ws(s0.take(i as int)).len() > 0 && split_ws(
                s0.take(i as int),
            ).last() == cur@ && st.config() == apply_args(
                old(st).config(),
                split_ws(s0.take(i as int)).drop_last(),
            ),
            cur@.len() == 0 ==> st.config() == apply_args(old(st).config(), split_ws(s0.take(i as int))),
        decreases s@.len() - i,
    {
        let b = s[i];
        proof {
            assert(s0.take(i + 1).drop_last() =~= s0.take(i as int));
            assert(s0.take(i + 1).last() == b);
        }
        if is_ws_byte(b) {
            if cur.len() > 0 {
                let ghost t = split_ws(s0.take(i as int));
                apply_one(st, cur.as_slice());
                proof {
                    assert(t.drop_last().push(t.last()) =~= t);
                }
                cur = Vec::new();
            }
        } else {
            proof {
                let t = split_ws(s0.take(i as int));
                if cur@.len() > 0 {
                    assert(split_ws(s0.take(i + 1)) == t.update(t.len() - 1, t.last().push(b)));
                    assert(split_ws(s0.take(i + 1)).drop_last() =~= t.drop_last());
                } else {
                    assert(split_ws(s0.take(i + 1)) == t.push(seq![b]));
                    assert(split_ws(s0.take(i + 1)).drop_last() =~= t);
                }
            }
            cur.push(b);
            proof {
                if cur@.len() == 1 {
                    assert(cur@ =~= seq![b]);
                }
            }
        }
        i = i + 1;
    }
    assert(s0.take(i as int) =~= s0);
    if cur.len() > 0 {
        let ghost t = split_ws(s0);
        apply_one(st, cur.as_slice());
        proof {
            assert(t.drop_last().push(t.last()) =~= t);
        }
    }
}

/// Get boot configuration
pub fn boot_config(st: &BootState) -> (r: BootConfig)
    ensures
        opt_view(r.root_device) == st.config().root_device,
        opt_view(r.root_fstype) == st.config().root_fstype,
        opt_view(r.root_options) == st.config().root_options,
        opt_view(r.init_path) == st.config().init_path,
        r.emergency == st.config().emergency,
{
    st.config.copy()
}

/// The tracked file system named by `fs_type`.
fn fs_named(fs_type: &str) -> (r: Option<MountFlags>)
    ensures
        r == fs_of(vstd::utf8::encode_utf8(fs_type@)),
{
    let b = fs_type.as_bytes();
    let initramfs: [u8; 9] = [105u8, 110u8, 105u8, 116u8, 114u8, 97u8, 109u8, 102u8, 115u8];
    let proc_: [u8; 4] = [112u8, 114u8, 111u8, 99u8];
    let sys: [u8; 3] = [115u8, 121u8, 115u8];
    let dev: [u8; 3] = [100u8, 101u8, 118u8];
    let rootfs: [u8; 6] = [114u8, 111u8, 111u8, 116u8, 102u8, 115u8];
    assert(initramfs@ =~= seq![105u8, 110u8, 105u8, 116u8, 114u8, 97u8, 109u8, 102u8, 115u8]);
    assert(proc_@ =~= seq![112u8, 114u8, 111u8, 99u8]);
    assert(sys@ =~= seq![115u8, 121u8, 115u8]);
    assert(dev@ =~= seq![100u8, 101u8, 118u8]);
    assert(rootfs@ =~= seq![114u8, 111u8, 111u8, 116u8, 102u8, 115u8]);
    if bytes_eq(b, initramfs.as_slice()) {
        Some(MountFlags::Initramfs)
    } else if bytes_eq(b, proc_.as_slice()) {
        Some(MountFlags::Proc)
    } else if bytes_eq(b, sys.as_slice()) {
        Some(MountFlags::Sys)
    } else if bytes_eq(b, dev.as_slice()) {
        Some(MountFlags::Dev)
    } else if bytes_eq(b, rootfs.as_slice()) {
        Some(MountFlags::Rootfs)
    } else {
        None
    }
}

fn set_mounted(st: &mut BootState, f: MountFlags)
    ensures
        forall|g: MountFlags| #[trigger] final(st).mounted(g) == (g == f || old(st).mounted(g)),
        final(st).stage() == old(st).stage(),
        final(st).config() == old(st).config(),
        old(st).wf() ==> final(st).wf(),
{
    match f {
        MountFlags::Initramfs => st.initramfs_mounted = true,
        MountFlags::Proc => st.proc_mounted = true,
        MountFlags::Sys => st.sys_mounted = true,
        MountFlags::Dev => st.dev_mounted = true,
        MountFlags::Rootfs => st.real_root_mounted = true,
    }
}

/// Whether the file system named `name` counts as mounted in `st` (an
/// unknown name never does).
pub open spec fn mounted_as(st: BootState, name: Seq<u8>) -> bool {
    match fs_of(name) {
        Some(f) => st.mounted(f),
        None => false,
    }
}

/// `n` is `o` with the file system named `name` marked mounted.
pub open spec fn marked(o: BootState, n: BootState, name: Seq<u8>) -> bool {
    forall|g: MountFlags| #[trigger] n.mounted(g) == (fs_of(name) == Some(g) || o.mounted(g))
}

/// Mark filesystem as mounted; an unknown name is ignored.
pub fn mark_mounted(st: &mut BootState, fs_type: &str)
    ensures
        marked(*old(st), *final(st), vstd::utf8::encode_utf8(fs_type@)),
        forall|g: MountFlags| #[trigger] final(st).mounted(g) == (fs_of(
            vstd::utf8::encode_utf8(fs_type@),
        ) == Some(g) || old(st).mounted(g)),
        final(st).stage() == old(st).stage(),
        final(st).config() == old(st).config(),
        old(st).wf() ==> final(st).wf(),
{
    match fs_named(fs_type) {
        Some(f) => set_mounted(st, f),
        None => {},
    }
}

/// Check if filesystem is mounted; an unknown name is not.
pub fn is_mounted(st: &BootState, fs_type: &str) -> (r: bool)
    ensures
        r == mounted_as(*st, vstd::utf8::encode_utf8(fs_type@)),
        r == match fs_of(vstd::utf8::encode_utf8(fs_type@)) {
            Some(f) => st.mounted(f),
            None => false,
        },
{
    match fs_named(fs_type) {
        Some(MountFlags::Initramfs) => st.initramfs_mounted,
        Some(MountFlags::Proc) => st.proc_mounted,
        Some(MountFlags::Sys) => st.sys_mounted,
        Some(MountFlags::Dev) => st.dev_mounted,
        Some(MountFlags::Rootfs) => st.real_root_mounted,
        None => false,
    }
}

/// Enter emergency mode; the kernel then reports the reason and tries an
/// emergency shell.
pub fn enter_emergency_mode(st: &mut BootState)
    ensures
        final(st).stage() == BootStage::Emergency,
        final(st).config() == old(st).config(),
        forall|f: MountFlags| #[trigger] final(st).mounted(f) == old(st).mounted(f),
        old(st).wf() ==> final(st).wf(),
{
    advance_stage(st, BootStage::Emergency);
}

/// Stage 3: Initramfs stage
///
/// /proc, /sys and /dev are mounted (the kernel creates their
/// directories and device nodes).  The root device, if one is given, is
/// taken to be present.
pub fn initramfs_stage(st: &mut BootState) -> (r: Result<(), &'static str>)
    ensures
        r is Ok,
        final(st).stage() == BootStage::InitramfsStage,
        final(st).config() == old(st).config(),
        forall|g: MountFlags| #[trigger] final(st).mounted(g) == (g == MountFlags::Proc || g
            == MountFlags::Sys || g == MountFlags::Dev || old(st).mounted(g)),
        old(st).wf() ==> final(st).wf(),
{
    advance_stage(st, BootStage::InitramfsStage);
    set_mounted(st, MountFlags::Proc);
    set_mounted(st, MountFlags::Sys);
    set_mounted(st, MountFlags::Dev);
    Ok(())
}

/// What the kernel found when mounting the root: a disk image for the
/// root device, the ext2 module, the image parsed as ext2, and the mount
/// at /sysroot.  It stops at the first step that fails.
pub struct RootMountSteps {
    pub image_found: bool,
    pub ext2_loaded: bool,
    pub ext2_parsed: bool,
    pub mounted: bool,
}

/// The bytes "ext2".
pub open spec fn ext2_name() -> Seq<u8> {
    seq![101u8, 120u8, 116u8, 50u8]
}

/// Stage 4: Mount real root filesystem at /sysroot
///
/// Without a root device the initramfs stays the root.  The root file
/// system type defaults to ext2, the only type supported.
pub fn mount_real_root(st: &mut BootState, steps: &RootMountSteps) -> (r: Result<(), &'static str>)
    ensures
        final(st).config() == old(st).config(),
        old(st).wf() ==> final(st).wf(),
        old(st).config().root_device is None ==> r is Ok && final(st).stage() == BootStage::RealRoot
            && forall|g: MountFlags| #[trigger] final(st).mounted(g) == old(st).mounted(g),
        old(st).config().root_device is Some ==> {
            let fstype = match old(st).config().root_fstype {
                Some(t) => t,
                None => ext2_name(),
            };
            &&& final(st).stage() == old(st).stage()
            &&& r is Ok <==> (steps.image_found && fstype == ext2_name() && steps.ext2_loaded
                && steps.ext2_parsed && steps.mounted)
            &&& !steps.image_found ==> (r matches Err(e) && e@ == "Block device not found"@)
            &&& steps.image_found && fstype != ext2_name() ==> (r matches Err(e) && e@ == "Unsupported filesystem type"@)
            &&& steps.image_found && fstype == ext2_name() && !steps.ext2_loaded ==> (r matches Err(e) && e@ == "ext2 module not loaded"@)
            &&& steps.image_found && fstype == ext2_name() && steps.ext2_loaded && !steps.ext2_parsed ==> (r matches Err(e) && e@ == "Invalid ext2 filesystem"@)
            &&& steps.image_found && fstype == ext2_name() && steps.ext2_loaded && steps.ext2_parsed && !steps.mounted ==> (r matches Err(e) && e@ == "Mount failed"@)
            &&& forall|g: MountFlags| #[trigger] final(st).mounted(g) == (old(st).mounted(g) || (
            r is Ok && g == MountFlags::Rootfs))
        },
{
    if st.config.root_device.is_none() {
        advance_stage(st, BootStage::RealRoot);
        return Ok(());
    }
    let ext2: [u8; 4] = [101u8, 120u8, 116u8, 50u8];
    assert(ext2@ =~= ext2_name());
    let is_ext2 = match &st.config.root_fstype {
        Some(t) => bytes_eq(t.as_slice(), ext2.as_slice()),
        None => true,
    };
    if !steps.image_found {
        return Err("Block device not found");
    }
    if is_ext2 {
        if !steps.ext2_loaded {
            return Err("ext2 module not loaded");
        }
        if !steps.ext2_parsed {
            return Err("Invalid ext2 filesystem");
        }
        if !steps.mounted {
            return Err("Mount failed");
        }
        set_mounted(st, MountFlags::Rootfs);
        Ok(())
    } else {
        Err("Unsupported filesystem type")
    }
}

/// Stage 5: Pivot to real root
///
/// The root must be mounted at /sysroot and an ext2 file system
/// registered; `remounted` is whether the kernel remounted it at /.
pub fn pivot_to_real_root(st: &mut BootState, ext2_ready: bool, remounted: bool) -> (r: Result<(), &'static str>)
    ensures
        final(st).config() == old(st).config(),
        forall|g: MountFlags| #[trigger] final(st).mounted(g) == old(st).mounted(g),
        old(st).wf() ==> final(st).wf(),
        r is Ok <==> old(st).mounted(MountFlags::Rootfs) && ext2_ready && remounted,
        !old(st).mounted(MountFlags::Rootfs) ==> (r matches Err(e) && e@ == "Root not mounted"@),
        old(st).mounted(MountFlags::Rootfs) && !ext2_ready ==> (r matches Err(e) && e@ == "No filesystem to pivot to"@),
        old(st).mounted(MountFlags::Rootfs) && ext2_ready && !remounted ==> (r matches Err(e) && e@ == "Remount failed"@),
        final(st).stage() == if r is Ok {
            BootStage::RealRoot
        } else {
            BootStage::RootSwitch
        },
{
    advance_stage(st, BootStage::RootSwitch);
    assert(st.mounted(MountFlags::Rootfs) == old(st).mounted(MountFlags::Rootfs));
    if !st.real_root_mounted {
        return Err("Root not mounted");
    }
    if !ext2_ready {
        return Err("No filesystem to pivot to");
    }
    if !remounted {
        return Err("Remount failed");
    }
    advance_stage(st, BootStage::RealRoot);
    Ok(())
}

/// Stage 6: Start init process in real root; user space follows (the
/// kernel processes /etc/fstab in between).
pub fn start_real_root_init(st: &mut BootState) -> (r: Result<(), &'static str>)
    ensures
        r is Ok,
        final(st).stage() == BootStage::UserSpace,
        final(st).config() == old(st).config(),
        forall|g: MountFlags| #[trigger] final(st).mounted(g) == old(st).mounted(g),
        old(st).wf() ==> final(st).wf(),
{
    advance_stage(st, BootStage::RealRoot);
    advance_stage(st, BootStage::UserSpace);
    Ok(())
}


// ---------------------------------------------------------------------
// Finding the root device
// ---------------------------------------------------------------------

/// Where the root file system's bytes come from.
#[derive(Clone, Copy, Debug, PartialEq, Eq, Structural)]
pub enum RootSource {
    /// The image the loader staged in memory.
    Staged,
    /// The MMIO window of a block device: its base and byte length.
    Mmio { base: u64, len: usize },
    /// The initramfs file /rootfs.ext2.
    RootfsExt2,
    /// The initramfs file /disk.ext2.
    DiskExt2,
    /// The initramfs entry with this index.
    Entry(usize),
}

/// A BAR that maps memory at a nonzero base.
pub open spec fn mmio_bar_ok(b: PciBarInfo) -> bool {
    b.base != 0 && !b.io_space
}

/// The first memory BAR among `bars[i..]`.
pub open spec fn first_mmio_bar(bars: Seq<PciBarInfo>, i: int) -> Option<int>
    decreases bars.len() - i,
{
    if i < 0 || i >= bars.len() {
        None
    } else if mmio_bar_ok(bars[i]) {
        Some(i)
    } else {
        first_mmio_bar(bars, i + 1)
    }
}

/// The bytes a block device holds, saturating: `(last_block + 1) *
/// block_size`.
pub open spec fn device_bytes(d: BlockDeviceInfo) -> usize {
    let blocks = if (d.last_block as usize) as int + 1 > usize::MAX { usize::MAX as int } else { (d.last_block as usize) + 1 };
    (if blocks * d.block_size > usize::MAX { usize::MAX as int } else { blocks * d.block_size }) as usize
}

/// The MMIO window of the first block device among `blocks[i..]` whose
/// PCI device has a memory BAR: that BAR's base and the device's bytes.
pub open spec fn block_window(blocks: Seq<BlockDeviceInfo>, pcis: Seq<PciDeviceInfo>, i: int) -> Option<(u64, usize)>
    decreases blocks.len() - i,
{
    if i < 0 || i >= blocks.len() {
        None
    } else {
        let d = blocks[i];
        match first_at(pcis, pcis.len() as int, d.pci_segment, d.pci_bus, d.pci_device, d.pci_function) {
            Some(k) => match first_mmio_bar(pcis[k].bars@, 0) {
                Some(b) => Some((pcis[k].bars@[b].base, device_bytes(d))),
                None => block_window(blocks, pcis, i + 1),
            },
            None => block_window(blocks, pcis, i + 1),
        }
    }
}

/// A disk image name: it ends with `.ext2` or `.img`.
pub open spec fn image_name(n: Seq<u8>) -> bool {
    (n.len() >= 5 && n.subrange(n.len() - 5, n.len() as int) == seq![0x2Eu8, 0x65, 0x78, 0x74, 0x32])
        || (n.len() >= 4 && n.subrange(n.len() - 4, n.len() as int) == seq![0x2Eu8, 0x69, 0x6D, 0x67])
}

/// The first initramfs entry among `names[i..]` that is a disk image.
pub open spec fn first_image_entry(names: Seq<&'static str>, i: int) -> Option<int>
    decreases names.len() - i,
{
    if i < 0 || i >= names.len() {
        None
    } else if image_name(names[i].spec_bytes()) {
        Some(i)
    } else {
        first_image_entry(names, i + 1)
    }
}

/// Where the root device's bytes come from, tried in order: the image the
/// loader staged; the MMIO window of a block device the loader found;
/// the initramfs files /rootfs.ext2 and /disk.ext2; the first initramfs
/// entry named `*.ext2` or `*.img`.
pub open spec fn root_source(
    staged: bool,
    blocks: Seq<BlockDeviceInfo>,
    pcis: Seq<PciDeviceInfo>,
    rootfs_ext2: bool,
    disk_ext2: bool,
    names: Seq<&'static str>,
) -> Option<RootSource> {
    if staged {
        Some(RootSource::Staged)
    } else {
        match block_window(blocks, pcis, 0) {
            Some((base, len)) => Some(RootSource::Mmio { base, len }),
            None => if rootfs_ext2 {
                Some(RootSource::RootfsExt2)
            } else if disk_ext2 {
                Some(RootSource::DiskExt2)
            } else {
                match first_image_entry(names, 0) {
                    Some(k) => Some(RootSource::Entry(k as usize)),
                    None => None,
                }
            },
        }
    }
}

fn first_mmio_bar_exec(bars: &Vec<PciBarInfo>) -> (r: Option<usize>)
    ensures
        r is None <==> first_mmio_bar(bars@, 0) is None,
        r matches Some(b) ==> first_mmio_bar(bars@, 0) == Some(b as int) && b < bars@.len(),
{
    let mut i: usize = 0;
    while i < bars.len()
        invariant
            i <= bars@.len(),
            first_mmio_bar(bars@, i as int) == first_mmio_bar(bars@, 0),
        decreases bars@.len() - i,
    {
        if bars[i].base != 0 && !bars[i].io_space {
            return Some(i);
        }
        i = i + 1;
    }
    None
}

fn device_bytes_exec(d: BlockDeviceInfo) -> (r: usize)
    ensures
        r == device_bytes(d),
{
    let blocks = match (d.last_block as usize).checked_add(1) {
        Some(n) => n,
        None => usize::MAX,
    };
    match blocks.checked_mul(d.block_size as usize) {
        Some(n) => n,
        None => usize::MAX,
    }
}

fn image_name_exec(name: &str) -> (r: bool)
    ensures
        r == image_name(name.spec_bytes()),
{
    let n = name.as_bytes();
    let ext2: [u8; 5] = [0x2E, 0x65, 0x78, 0x74, 0x32];
    let img: [u8; 4] = [0x2E, 0x69, 0x6D, 0x67];
    assert(ext2@ =~= seq![0x2Eu8, 0x65, 0x78, 0x74, 0x32]);
    assert(img@ =~= seq![0x2Eu8, 0x69, 0x6D, 0x67]);
    let a = n.len() >= 5 && bytes_eq(vstd::slice::slice_subrange(n, n.len() - 5, n.len()), ext2.as_slice());
    let b = n.len() >= 4 && bytes_eq(vstd::slice::slice_subrange(n, n.len() - 4, n.len()), img.as_slice());
    a || b
}

/// Scan for the root device's bytes (see `root_source`); the error when
/// nothing holds them.
pub fn scan_for_block_device(
    staged: bool,
    blocks: &[BlockDeviceInfo],
    pcis: &[PciDeviceInfo],
    rootfs_ext2: bool,
    disk_ext2: bool,
    names: &[&'static str],
) -> (r: Result<RootSource, &'static str>)
    ensures
        r == (match root_source(staged, blocks@, pcis@, rootfs_ext2, disk_ext2, names@) {
            Some(src) => Ok(src),
            None => Err::<RootSource, &'static str>("Block device not found"),
        }),
{
    if staged {
        return Ok(RootSource::Staged);
    }
    let mut i: usize = 0;
    while i < blocks.len()
        invariant
            i <= blocks@.len(),
            block_window(blocks@, pcis@, i as int) == block_window(blocks@, pcis@, 0),
            !staged,
        decreases blocks@.len() - i,
    {
        let d = blocks[i];
        match pci_device_by_location(pcis, d.pci_segment, d.pci_bus, d.pci_device, d.pci_function) {
            Some(k) => {
                match first_mmio_bar_exec(&pcis[k].bars) {
                    Some(b) => {
                        let base = pcis[k].bars[b].base;
                        let len = device_bytes_exec(d);
                        return Ok(RootSource::Mmio { base, len });
                    },
                    None => {},
                }
            },
            None => {},
        }
        i = i + 1;
    }
    if rootfs_ext2 {
        return Ok(RootSource::RootfsExt2);
    }
    if disk_ext2 {
        return Ok(RootSource::DiskExt2);
    }
    let mut j: usize = 0;
    while j < names.len()
        invariant
            j <= names@.len(),
            first_image_entry(names@, j as int) == first_image_entry(names@, 0),
            block_window(blocks@, pcis@, 0) is None,
            !staged && !rootfs_ext2 && !disk_ext2,
        decreases names@.len() - j,
    {
        if image_name_exec(names[j]) {
            return Ok(RootSource::Entry(j));
        }
        j = j + 1;
    }
    Err("Block device not found")
}

/// Law: marking a file system mounted twice is marking it once, and
/// marking never clears a flag; an unknown name changes nothing.
pub proof fn law_mark_mounted(a: BootState, b: BootState, c: BootState, name: Seq<u8>)
    requires
        marked(a, b, name),
        marked(b, c, name),
    ensures
        forall|g: MountFlags| #[trigger] c.mounted(g) == b.mounted(g),
        forall|g: MountFlags| a.mounted(g) ==> #[trigger] b.mounted(g),
        fs_of(name) is None ==> forall|g: MountFlags| #[trigger] b.mounted(g) == a.mounted(g),
{
}

/// Law: after marking `s` mounted, `s` counts as mounted when it names one
/// of the tracked file systems, every other name counts as before, and an
/// unknown name never counts.
pub proof fn law_is_mounted_after_mark(a: BootState, b: BootState, s: Seq<u8>, t: Seq<u8>)
    requires
        marked(a, b, s),
    ensures
        fs_of(s) is Some ==> mounted_as(b, s),
        t != s ==> mounted_as(b, t) == mounted_as(a, t),
        fs_of(t) is None ==> !mounted_as(b, t),
{
    if t != s {
        match fs_of(t) {
            Some(g) => {
                assert(fs_of(s) != Some(g));
            },
            None => {},
        }
    }
}

} // verus!
