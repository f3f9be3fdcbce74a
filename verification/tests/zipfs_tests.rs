use std::io::Write;
use wasm_sandbox::hostfs::VfsManager;
use wasm_sandbox::vfsdo::{NodeMode, NodeType};
use wasm_sandbox::vfsops::{INode, Stream, VfsError, VfsVolume};
use wasm_sandbox::zipfs::{volume, volume_from_entries, ZipVolume};

fn sample_zip() -> Vec<u8> {
    let options = zip::write::SimpleFileOptions::default()
        .compression_method(zip::CompressionMethod::Stored);
    let mut w = zip::ZipWriter::new(std::io::Cursor::new(Vec::new()));
    w.add_directory("docs", options).unwrap();
    w.start_file("hello.txt", options).unwrap();
    w.write_all(b"hi there").unwrap();
    w.start_file("docs/readme.md", options).unwrap();
    w.write_all(b"docs!").unwrap();
    w.finish().unwrap().into_inner()
}

fn sample_volume() -> ZipVolume {
    volume(sample_zip()).unwrap()
}

#[test]
fn archive_listing() {
    let vol = sample_volume();
    let root = vol.root().unwrap();
    let mut names = root.read_dir().unwrap();
    names.sort();
    assert_eq!(names, vec!["docs".to_string(), "hello.txt".to_string()]);

    let docs = root.lookup("docs").unwrap().unwrap();
    assert_eq!(docs.read_dir().unwrap(), vec!["readme.md".to_string()]);
    let (t, m) = docs.mode();
    assert_eq!(t, NodeType::Dir);
    assert_eq!(m, NodeMode::Ro);

    let file = root.lookup("hello.txt").unwrap().unwrap();
    let (t, m) = file.mode();
    assert_eq!(t, NodeType::File);
    assert_eq!(m, NodeMode::Ro);

    assert!(root.lookup("absent").unwrap().is_none());
}

#[test]
fn archive_read_through_manager() {
    let mut vfs: VfsManager<ZipVolume> = VfsManager::new();
    vfs.bind("/in".to_string(), NodeMode::Ro, sample_volume()).unwrap();

    let fd = vfs.open(0, "hello.txt", NodeMode::Ro, false).unwrap();
    assert_eq!(vfs.read(fd, 100, 0).unwrap(), b"hi there".to_vec());
    assert_eq!(vfs.read(fd, 5, 3).unwrap(), b"there".to_vec());
    assert_eq!(vfs.read(fd, 4, 100).unwrap(), Vec::<u8>::new());
    vfs.close(fd).unwrap();

    let fd = vfs.open(0, "docs/readme.md", NodeMode::Ro, false).unwrap();
    assert_eq!(vfs.read(fd, 100, 0).unwrap(), b"docs!".to_vec());
    vfs.close(fd).unwrap();

    let info = vfs.lookup(0, "docs/readme.md").unwrap().unwrap();
    assert_eq!(info.n_type, NodeType::File);
    assert_eq!(info.n_mode, NodeMode::Ro);
    assert!(vfs.lookup(0, "docs/absent").unwrap().is_none());
}

#[test]
fn archive_rejects_writes() {
    let mut vfs: VfsManager<ZipVolume> = VfsManager::new();
    vfs.bind("/in".to_string(), NodeMode::Ro, sample_volume()).unwrap();

    // the registry refuses by the declared mode, whatever the path
    assert_eq!(vfs.mkdir(0, "newdir").unwrap_err(), VfsError::PermissionDenied);
    assert_eq!(vfs.mkdir(0, "docs/x").unwrap_err(), VfsError::PermissionDenied);

    // opening for writing is refused by the backend
    assert_eq!(
        vfs.open(0, "hello.txt", NodeMode::Rw, false).unwrap_err(),
        VfsError::PermissionDenied
    );
    assert_eq!(
        vfs.open(0, "hello.txt", NodeMode::Wo, false).unwrap_err(),
        VfsError::PermissionDenied
    );

    // and so is writing through an open read-only stream
    let fd = vfs.open(0, "hello.txt", NodeMode::Ro, false).unwrap();
    assert_eq!(vfs.write(fd, b"x", 0).unwrap_err(), VfsError::PermissionDenied);

    // the backend node itself refuses directory creation
    let vol = sample_volume();
    let mut root = vol.root().unwrap();
    assert_eq!(root.mkdir("d").unwrap_err(), VfsError::PermissionDenied);
}

#[test]
fn dotdot_never_escapes_the_volume() {
    let vol = sample_volume();
    let root = vol.root().unwrap();

    // `..` at the volume root resolves to the root itself, repeatedly
    let mut node = root;
    for _ in 0..8 {
        node = node.lookup("..").unwrap().unwrap();
    }
    let mut names = node.read_dir().unwrap();
    names.sort();
    assert_eq!(names, vec!["docs".to_string(), "hello.txt".to_string()]);
    assert!(node.lookup("hello.txt").unwrap().is_some());

    // from a subdirectory, `..` climbs exactly one level and stops there
    let docs = node.lookup("docs").unwrap().unwrap();
    let up = docs.lookup("..").unwrap().unwrap();
    assert!(up.lookup("hello.txt").unwrap().is_some());
    let up_up = up.lookup("..").unwrap().unwrap();
    assert!(up_up.lookup("hello.txt").unwrap().is_some());

    // `.` stays in place
    let here = docs.lookup(".").unwrap().unwrap();
    assert_eq!(here.read_dir().unwrap(), vec!["readme.md".to_string()]);
}

#[test]
fn index_synthesizes_ancestors() {
    // no directory entries at all: the tree still gets them
    let vol = volume_from_entries(vec![(
        "d/e/f.txt".to_string(),
        false,
        b"deep".to_vec(),
    )]);
    let root = vol.root().unwrap();
    assert_eq!(root.read_dir().unwrap(), vec!["d".to_string()]);
    let d = root.lookup("d").unwrap().unwrap();
    assert_eq!(d.read_dir().unwrap(), vec!["e".to_string()]);
    let e = d.lookup("e").unwrap().unwrap();
    let f = e.lookup("f.txt").unwrap().unwrap();
    let (t, _) = f.mode();
    assert_eq!(t, NodeType::File);
}

#[test]
fn index_discards_unsafe_components() {
    // `..` and `.` in entry names are discarded, not interpreted
    let vol = volume_from_entries(vec![
        ("a/../b.txt".to_string(), false, b"x".to_vec()),
        ("./c.txt".to_string(), false, b"y".to_vec()),
        ("".to_string(), true, Vec::new()),
    ]);
    let root = vol.root().unwrap();
    let mut names = root.read_dir().unwrap();
    names.sort();
    assert_eq!(names, vec!["a".to_string(), "c.txt".to_string()]);
    let a = root.lookup("a").unwrap().unwrap();
    assert_eq!(a.read_dir().unwrap(), vec!["b.txt".to_string()]);
}

#[test]
fn index_forces_file_ancestors_to_directories() {
    let vol = volume_from_entries(vec![
        ("x".to_string(), false, b"old".to_vec()),
        ("x/y".to_string(), false, b"new".to_vec()),
    ]);
    let root = vol.root().unwrap();
    let x = root.lookup("x").unwrap().unwrap();
    let (t, _) = x.mode();
    assert_eq!(t, NodeType::Dir);
    assert_eq!(x.read_dir().unwrap(), vec!["y".to_string()]);
}

#[test]
fn garbage_bytes_are_not_an_archive() {
    assert_eq!(
        volume(b"this is not an archive".to_vec()).unwrap_err(),
        VfsError::InvalidInput
    );
    assert_eq!(volume(Vec::new()).unwrap_err(), VfsError::InvalidInput);
}
