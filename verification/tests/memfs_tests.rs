use wasm_sandbox::error::Error;
use wasm_sandbox::memfs::MemFS;
use wasm_sandbox::vfs::VirtualFS;

#[test]
fn create_dir() {
    let mut fs = MemFS::new();
    fs.create_dir("/tmp").unwrap();
    fs.create_dir("/tmp/a").unwrap();
    fs.create_dir("/tmp/a/b").unwrap();
    fs.create_dir("/dev").unwrap();

    assert!(fs.is_dir("/tmp").unwrap());
    assert!(fs.is_dir("/tmp/a").unwrap());
    assert!(fs.is_dir("/tmp/a/b").unwrap());
    assert!(fs.is_dir("/dev").unwrap());

    assert_eq!(
        fs.create_dir("/tmp/c/d").unwrap_err(),
        Error::NotFound("c".to_owned())
    );
    assert_eq!(fs.create_dir("/").unwrap_err(), Error::IsRoot);
    assert_eq!(
        fs.create_dir("tmp/a/c").unwrap_err(),
        Error::InvalidPath("tmp/a/c".to_owned())
    );
}

#[test]
fn create_dir_all() {
    let mut fs = MemFS::new();
    fs.create_dir_all("/tmp/a/b/c").unwrap();

    assert!(fs.is_dir("/tmp").unwrap());
    assert!(fs.is_dir("/tmp/a").unwrap());
    assert!(fs.is_dir("/tmp/a/b").unwrap());
    assert!(fs.is_dir("/tmp/a/b/c").unwrap());

    assert!(fs.create_dir_all("/").is_ok());
}

#[test]
fn create_dir_all_repeat() {
    let mut fs = MemFS::new();
    fs.create_dir_all("/x/y/z").unwrap();
    assert!(fs.create_dir_all("/x/y/z").is_ok());
    assert!(fs.is_dir("/x").unwrap());
    assert!(fs.is_dir("/x/y").unwrap());
    assert!(fs.is_dir("/x/y/z").unwrap());
}

#[test]
fn create_file() {
    let mut fs = MemFS::new();
    fs.create_dir("/tmp").unwrap();
    fs.create_file("/tmp/a").unwrap();
    fs.create_file("/b").unwrap();
    fs.create_dir("/dev").unwrap();
    fs.create_file("/dev/random").unwrap();

    assert!(fs.is_file("/tmp/a").unwrap());
    assert!(fs.is_file("/b").unwrap());
    assert!(fs.is_file("/dev/random").unwrap());

    assert_eq!(fs.create_file("/").unwrap_err(), Error::IsRoot);
    assert_eq!(
        fs.create_file("c").unwrap_err(),
        Error::InvalidPath("c".to_owned())
    );
    assert_eq!(
        fs.create_file("/d/c").unwrap_err(),
        Error::NotFound("d".to_owned())
    );
}

#[test]
fn open_file() {
    let mut fs = MemFS::new();
    fs.create_file("/test").unwrap();

    assert!(fs.is_file("/test").unwrap());
    assert!(fs.open_file("/test").is_ok());

    assert_eq!(fs.open_file("/").unwrap_err(), Error::IsRoot);
    assert_eq!(
        fs.open_file("/bbb").unwrap_err(),
        Error::NotFound("bbb".to_owned())
    );
    assert_eq!(
        fs.open_file("bbb").unwrap_err(),
        Error::InvalidPath("bbb".to_owned())
    );
}

#[test]
fn read() {
    let mut fs = MemFS::new();
    let mut file = fs.create_file("/test.txt").unwrap();
    file.write_all(&mut fs, b"Hello world!").unwrap();

    let contents = file.read_to_end(&fs).unwrap();
    assert_eq!(contents, b"Hello world!".to_vec());

    // once read, need to reset to read again
    let contents = file.read_to_end(&fs).unwrap();
    assert!(contents.is_empty());

    file.reset();
    let contents = file.read_to_end(&fs).unwrap();
    assert_eq!(contents, b"Hello world!".to_vec());
}

#[test]
fn write() {
    let mut fs = MemFS::new();
    let mut file = fs.create_file("/test.txt").unwrap();

    file.write_all(&mut fs, b"Hello world!").unwrap();
    assert_eq!(file.read_to_end(&fs).unwrap(), b"Hello world!".to_vec());

    file.write_all(&mut fs, b" This is a test...").unwrap();
    file.reset();
    assert_eq!(
        file.read_to_end(&fs).unwrap(),
        b"Hello world! This is a test...".to_vec()
    );
}

#[test]
fn replace_directory_discards_children() {
    let mut fs = MemFS::new();
    fs.create_dir("/tmp").unwrap();
    fs.create_file("/tmp/a").unwrap();
    assert!(fs.is_file("/tmp/a").unwrap());

    fs.create_dir("/tmp").unwrap();
    assert!(fs.is_dir("/tmp").unwrap());
    assert!(!fs.is_file("/tmp/a").unwrap());
    assert!(!fs.is_dir("/tmp/a").unwrap());
}

#[test]
fn write_then_read_round_trip() {
    let mut vfs = VirtualFS::new();
    vfs.write_file("/f.bin", &[7u8, 0, 255, 42]).unwrap();
    assert_eq!(vfs.read_file("/f.bin").unwrap(), vec![7u8, 0, 255, 42]);
}

#[test]
fn open_never_created_is_not_found() {
    let fs = MemFS::new();
    assert_eq!(
        fs.open_file("/never/made").unwrap_err(),
        Error::NotFound("never".to_owned())
    );
    assert_eq!(fs.open_file("/").unwrap_err(), Error::IsRoot);
}

#[test]
fn stale_handle_reports_not_found() {
    let mut fs = MemFS::new();
    fs.create_dir("/d").unwrap();
    let mut file = fs.create_file("/d/f").unwrap();
    file.write_all(&mut fs, b"x").unwrap();

    // replacing the parent directory discards the file the handle named
    fs.create_dir("/d").unwrap();
    assert_eq!(
        file.read_to_end(&fs).unwrap_err(),
        Error::NotFound("f".to_owned())
    );
    assert_eq!(
        file.write_all(&mut fs, b"y").unwrap_err(),
        Error::NotFound("f".to_owned())
    );
}
