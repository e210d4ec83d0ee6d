use nexaos::fs::{
    add_file, add_file_bytes, add_file_with_metadata, file_exists, init, list_directory, open, read_file,
    read_file_bytes, stat, File, FileContent, FileTable, InitramfsEntry, MountError, Vfs, MAX_FILES,
};
use nexaos::posix::{FileType, Metadata};

fn fresh() -> Vfs<FileTable> {
    Vfs::new()
}

#[test]
fn added_file_reads_back() {
    let mut vfs = fresh();
    add_file(&mut vfs, "etc/hostname", "nexa", false);
    assert_eq!(read_file(&vfs, "/etc/hostname"), Some("nexa"));
    assert_eq!(read_file(&vfs, "etc/hostname"), Some("nexa"));
    assert_eq!(read_file(&vfs, "/etc/hostname/"), Some("nexa"));
    assert!(file_exists(&vfs, "/etc/hostname"));
    assert!(!file_exists(&vfs, "/etc/passwd"));
}

#[test]
fn metadata_of_added_file() {
    let mut vfs = fresh();
    let content: &'static [u8] = &[7u8; 513];
    add_file_bytes(&mut vfs, "data.bin", content, false);
    let meta = stat(&vfs, "/data.bin").unwrap();
    assert_eq!(meta.size, 513);
    assert_eq!(meta.blocks, 2);
    assert_eq!(meta.nlink, 1);
    assert_eq!(meta.file_type, FileType::Regular);
    add_file_bytes(&mut vfs, "empty", &[], true);
    let meta = stat(&vfs, "/empty").unwrap();
    assert_eq!(meta.blocks, 1);
    assert_eq!(meta.file_type, FileType::Directory);
}

#[test]
fn same_name_replaces() {
    let mut vfs = fresh();
    add_file(&mut vfs, "motd", "one", false);
    add_file(&mut vfs, "other", "x", false);
    add_file(&mut vfs, "motd", "two", false);
    assert_eq!(read_file(&vfs, "/motd"), Some("two"));
    assert_eq!(read_file(&vfs, "/other"), Some("x"));
    assert_eq!(list_directory(&vfs, "/").len(), 2);
}

#[test]
fn full_table_ignores_new_names() {
    let mut vfs = fresh();
    let names: Vec<&'static str> =
        (0..MAX_FILES + 1).map(|i| &*Box::leak(format!("f{}", i).into_boxed_str())).collect();
    for n in &names {
        add_file(&mut vfs, n, "x", false);
    }
    assert!(file_exists(&vfs, "/f0"));
    assert!(file_exists(&vfs, &format!("/f{}", MAX_FILES - 1)));
    assert!(!file_exists(&vfs, &format!("/f{}", MAX_FILES)));
    // A known name is still replaced when the table is full.
    add_file(&mut vfs, "f3", "y", false);
    assert_eq!(read_file(&vfs, "/f3"), Some("y"));
}

#[test]
fn listing_filters_by_prefix() {
    let mut vfs = fresh();
    add_file(&mut vfs, "bin/sh", "", false);
    add_file(&mut vfs, "bin/ls", "", false);
    add_file(&mut vfs, "etc/fstab", "", false);
    let bin: Vec<&str> = list_directory(&vfs, "/bin").iter().map(|e| e.0).collect();
    assert_eq!(bin, vec!["bin/sh", "bin/ls"]);
    assert_eq!(list_directory(&vfs, "/").len(), 3);
    assert_eq!(list_directory(&vfs, "").len(), 0);
}

#[test]
fn empty_path_opens_nothing() {
    let mut vfs = fresh();
    add_file(&mut vfs, "a", "b", false);
    assert!(open(&vfs, "").is_none());
    assert!(stat(&vfs, "").is_none());
}

#[test]
fn invalid_utf8_is_not_text() {
    let mut vfs = fresh();
    let bad: &'static [u8] = &[0xFF, 0xFE];
    add_file_bytes(&mut vfs, "bad", bad, false);
    assert_eq!(read_file_bytes(&vfs, "/bad"), Some(bad));
    assert_eq!(read_file(&vfs, "/bad"), None);
}

#[test]
fn metadata_is_kept_as_given() {
    let mut vfs = fresh();
    let meta = Metadata { mode: 0o640, file_type: FileType::Character, size: 0, nlink: 1, blocks: 0 };
    add_file_with_metadata(&mut vfs, "dev/fb0", &[], false, meta);
    assert_eq!(stat(&vfs, "/dev/fb0"), Some(meta));
}

#[test]
fn mounted_filesystem_serves_its_prefix() {
    let mut image = FileTable::new();
    image.register(
        File { name: "hello.txt", content: b"from ext", is_dir: false },
        Metadata { mode: 0o644, file_type: FileType::Regular, size: 8, nlink: 1, blocks: 1 },
    );
    let mut vfs = fresh();
    add_file(&mut vfs, "mnt/extra", "root file", false);
    assert_eq!(vfs.mount_ext(image), Ok(()));
    assert_eq!(read_file(&vfs, "/mnt/ext/hello.txt"), Some("from ext"));
    assert_eq!(read_file(&vfs, "/mnt/ext//hello.txt"), Some("from ext"));
    assert!(read_file(&vfs, "/hello.txt").is_none());
    assert_eq!(vfs.mount_ext(FileTable::new()), Err(MountError::AlreadyMounted));
    assert!(file_exists(&vfs, "/mnt"));
    // "/mnt/ext" itself is served by the mounted filesystem; the initramfs
    // directory entry is reached by the relative path.
    assert!(file_exists(&vfs, "mnt/ext"));
    assert!(!file_exists(&vfs, "/mnt/ext"));
    // The longest mount point wins: "/mnt/ext" also prefixes "/mnt/extra".
    assert!(open(&vfs, "/mnt/extra").is_none());
    assert!(open(&vfs, "mnt/extra").is_some());
}

#[test]
fn init_loads_entries_and_finds_image() {
    let entries = [
        InitramfsEntry { name: "/init", mode: 0o100755, data: b"#!" },
        InitramfsEntry { name: "/etc", mode: 0o040755, data: &[] },
        InitramfsEntry { name: "/rootfs.ext2", mode: 0o100644, data: b"EXT2" },
        InitramfsEntry { name: "/disk.ext4", mode: 0o100644, data: b"EXT4" },
    ];
    let (vfs, image): (Vfs<FileTable>, _) = init(&entries);
    assert_eq!(image, Some(&b"EXT2"[..]));
    let meta = stat(&vfs, "/etc").unwrap();
    assert_eq!(meta.file_type, FileType::Directory);
    assert_eq!(meta.mode, 0o755);
    let init_meta = stat(&vfs, "/init").unwrap();
    assert_eq!(init_meta.size, 2);
    assert_eq!(init_meta.mode, 0o755);
    match open(&vfs, "/init").unwrap().content {
        FileContent::Inline(b) => assert_eq!(b, b"#!"),
        FileContent::Ext2(_) => panic!("inline content expected"),
    }
}

#[test]
fn init_without_image() {
    let entries = [InitramfsEntry { name: "/dir.ext2", mode: 0o040755, data: &[] }];
    let (_vfs, image): (Vfs<FileTable>, _) = init(&entries);
    assert_eq!(image, None);
}
