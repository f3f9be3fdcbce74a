use wasm_sandbox::error::Error;
use wasm_sandbox::memfs::MemFS;

#[test]
fn sanitize_path() {
    assert_eq!(
        Ok("out.txt".to_string()),
        wasm_sandbox::vfs::sanitize_path("../../../out.txt")
    );

    assert_eq!(
        Ok("out.txt".to_string()),
        wasm_sandbox::vfs::sanitize_path("out/../../../out.txt")
    );

    assert_eq!(
        Ok("out/out.txt".to_string()),
        wasm_sandbox::vfs::sanitize_path("out/../out/../out/../out/out.txt")
    );
}

#[test]
fn vfs_sanitize_path() {
    assert_eq!(
        Ok("out.txt".to_string()),
        wasm_sandbox::vfs::sanitize_path("../../../out.txt")
    );

    assert_eq!(
        Ok("out.txt".to_string()),
        wasm_sandbox::vfs::sanitize_path("out/../../../out.txt")
    );

    assert_eq!(
        Ok("out/out.txt".to_string()),
        wasm_sandbox::vfs::sanitize_path("out/../out/../out/../out/out.txt")
    );
}

#[test]
fn sanitize_path_idempotent() {
    for case in ["../../../out.txt", "out/../../../out.txt", "a/b/./c", "out/out.txt", ""] {
        let once = wasm_sandbox::vfs::sanitize_path(case).unwrap();
        let twice = wasm_sandbox::vfs::sanitize_path(&once).unwrap();
        assert_eq!(once, twice);
    }
}

fn segs(parts: &[&str]) -> Vec<String> {
    parts.iter().map(|s| s.to_string()).collect()
}

#[test]
fn normalize_path() {
    assert!(MemFS::normalize_path("tmp/").is_err());
    assert!(MemFS::normalize_path("a.txt").is_err());
    assert!(MemFS::normalize_path(".").is_err());
    assert!(MemFS::normalize_path("").is_err());
    assert!(MemFS::normalize_path(" ").is_err());

    assert_eq!(MemFS::normalize_path("/").unwrap(), segs(&[]));
    assert_eq!(MemFS::normalize_path("//").unwrap(), segs(&[]));
    assert_eq!(MemFS::normalize_path("/../").unwrap(), segs(&[]));
    assert_eq!(MemFS::normalize_path("/./").unwrap(), segs(&[]));
    assert_eq!(MemFS::normalize_path("/.././").unwrap(), segs(&[]));
    assert_eq!(MemFS::normalize_path("/tmp/../").unwrap(), segs(&[]));
    assert_eq!(MemFS::normalize_path("/tmp/a/../").unwrap(), segs(&["tmp"]));
}

#[test]
fn resolve_parent() {
    assert_eq!(MemFS::resolve_parent("/").unwrap_err(), Error::IsRoot);
    assert_eq!(
        MemFS::resolve_parent("tmp").unwrap_err(),
        Error::InvalidPath("tmp".to_owned())
    );

    assert_eq!(
        MemFS::resolve_parent("/tmp").unwrap(),
        (segs(&[]), "tmp".to_owned())
    );
    assert_eq!(
        MemFS::resolve_parent("/tmp/a/b/c").unwrap(),
        (segs(&["tmp", "a", "b"]), "c".to_owned())
    );
}
