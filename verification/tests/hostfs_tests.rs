use wasm_sandbox::hostfs::VfsManager;
use wasm_sandbox::safepath::SafePath;
use wasm_sandbox::vfsdo::{NodeMode, NodeType};
use wasm_sandbox::vfsops::{INode, Stream, VfsError, VfsVolume};

struct TestVolume;

#[derive(Clone)]
struct TestNode {
    depth: usize,
}

struct TestStream {
    data: Vec<u8>,
}

impl VfsVolume for TestVolume {
    type INode = TestNode;

    fn root(&self) -> Result<TestNode, VfsError> {
        Ok(TestNode { depth: 0 })
    }
}

impl INode for TestNode {
    type Stream = TestStream;

    fn mode(&self) -> (NodeType, NodeMode) {
        (NodeType::Dir, NodeMode::Rw)
    }

    fn open(
        &self,
        _name: &str,
        _mode: NodeMode,
        _create_new: bool,
    ) -> Result<TestStream, VfsError> {
        Ok(TestStream { data: vec![1, 2, 3] })
    }

    fn mkdir(&mut self, _name: &str) -> Result<TestNode, VfsError> {
        Ok(TestNode { depth: self.depth + 1 })
    }

    fn lookup(&self, _name: &str) -> Result<Option<TestNode>, VfsError> {
        Ok(Some(TestNode { depth: self.depth + 1 }))
    }

    fn read_dir(&self) -> Result<Vec<String>, VfsError> {
        Ok(vec!["a".to_string(), "b".to_string()])
    }
}

impl Stream for TestStream {
    fn read(&mut self, len: usize, position: u64) -> Result<Vec<u8>, VfsError> {
        let start = (position as usize).min(self.data.len());
        let end = (start + len).min(self.data.len());
        Ok(self.data[start..end].to_vec())
    }

    fn write(&mut self, buf: &[u8], _position: u64) -> Result<u64, VfsError> {
        self.data.extend_from_slice(buf);
        Ok(buf.len() as u64)
    }

    fn close(&mut self) -> Result<(), VfsError> {
        Ok(())
    }
}

#[test]
fn descriptor_table_exhaustion() {
    let mut vfs: VfsManager<TestVolume> = VfsManager::new();
    vfs.bind("/mnt".to_string(), NodeMode::Rw, TestVolume).unwrap();

    let mut fds = Vec::new();
    for i in 0..64 {
        let fd = vfs.open(0, "file.txt", NodeMode::Rw, false).unwrap();
        assert_eq!(fd, i as u32);
        fds.push(fd);
    }
    // the sixty-fifth concurrent descriptor is refused
    assert_eq!(
        vfs.open(0, "file.txt", NodeMode::Rw, false).unwrap_err(),
        VfsError::ResourceExhausted
    );

    // closing one frees its slot for reuse
    vfs.close(17).unwrap();
    let fd = vfs.open(0, "file.txt", NodeMode::Rw, false).unwrap();
    assert_eq!(fd, 17);
}

#[test]
fn descriptor_errors() {
    let mut vfs: VfsManager<TestVolume> = VfsManager::new();
    vfs.bind("/mnt".to_string(), NodeMode::Rw, TestVolume).unwrap();

    assert_eq!(vfs.close(0).unwrap_err(), VfsError::InvalidInput);
    assert_eq!(vfs.close(64).unwrap_err(), VfsError::InvalidInput);
    assert_eq!(vfs.read(5, 10, 0).unwrap_err(), VfsError::InvalidInput);
    assert_eq!(vfs.write(5, b"x", 0).unwrap_err(), VfsError::InvalidInput);

    assert_eq!(
        vfs.open(3, "file.txt", NodeMode::Rw, false).unwrap_err(),
        VfsError::InvalidInput
    );
    assert_eq!(vfs.lookup(3, "x").unwrap_err(), VfsError::InvalidInput);
    assert_eq!(vfs.readdir(3, "x").unwrap_err(), VfsError::InvalidInput);
    assert_eq!(vfs.mkdir(3, "x").unwrap_err(), VfsError::InvalidInput);
}

#[test]
fn read_write_through_descriptor() {
    let mut vfs: VfsManager<TestVolume> = VfsManager::new();
    vfs.bind("/mnt".to_string(), NodeMode::Rw, TestVolume).unwrap();
    let fd = vfs.open(0, "file.txt", NodeMode::Rw, false).unwrap();
    assert_eq!(vfs.read(fd, 2, 1).unwrap(), vec![2, 3]);
    assert_eq!(vfs.write(fd, b"zz", 0).unwrap(), 2);
    vfs.close(fd).unwrap();
}

#[test]
fn read_only_volume_rejects_mkdir() {
    let mut vfs: VfsManager<TestVolume> = VfsManager::new();
    vfs.bind("/ro".to_string(), NodeMode::Ro, TestVolume).unwrap();
    // refused before any path resolution, whatever the path
    assert_eq!(vfs.mkdir(0, "a/b").unwrap_err(), VfsError::PermissionDenied);
    assert_eq!(vfs.mkdir(0, "").unwrap_err(), VfsError::PermissionDenied);
    assert_eq!(
        vfs.mkdir(0, "bad:name").unwrap_err(),
        VfsError::PermissionDenied
    );
}

#[test]
fn volume_listing() {
    let mut vfs: VfsManager<TestVolume> = VfsManager::new();
    vfs.bind("/a".to_string(), NodeMode::Ro, TestVolume).unwrap();
    vfs.bind("/b".to_string(), NodeMode::Rw, TestVolume).unwrap();
    let infos = vfs.volumes();
    assert_eq!(infos.len(), 2);
    assert_eq!(infos[0].id, 0);
    assert_eq!(infos[0].mount_point, "/a");
    assert_eq!(infos[0].mode, NodeMode::Ro);
    assert_eq!(infos[1].id, 1);
    assert_eq!(infos[1].mount_point, "/b");
    assert_eq!(infos[1].mode, NodeMode::Rw);
}

#[test]
fn mode_combination_is_most_restrictive() {
    assert_eq!(NodeMode::Ro.combine(NodeMode::Ro), Some(NodeMode::Ro));
    assert_eq!(NodeMode::Wo.combine(NodeMode::Wo), Some(NodeMode::Wo));
    assert_eq!(NodeMode::Rw.combine(NodeMode::Rw), Some(NodeMode::Rw));
    assert_eq!(NodeMode::Rw.combine(NodeMode::Ro), Some(NodeMode::Ro));
    assert_eq!(NodeMode::Ro.combine(NodeMode::Rw), Some(NodeMode::Ro));
    assert_eq!(NodeMode::Rw.combine(NodeMode::Wo), Some(NodeMode::Wo));
    assert_eq!(NodeMode::Ro.combine(NodeMode::Wo), None);
    assert_eq!(NodeMode::Wo.combine(NodeMode::Ro), None);
}

#[test]
fn mode_strings() {
    assert_eq!(NodeMode::Ro.as_str(), "ro");
    assert_eq!(NodeMode::Rw.as_str(), "rw");
    assert_eq!(NodeMode::Wo.as_str(), "wo");
    assert_eq!(NodeMode::parse("ro"), Some(NodeMode::Ro));
    assert_eq!(NodeMode::parse("rw"), Some(NodeMode::Rw));
    assert_eq!(NodeMode::parse("wo"), Some(NodeMode::Wo));
    assert_eq!(NodeMode::parse("rx"), None);
    assert_eq!(NodeMode::parse(""), None);
}

#[test]
fn safe_path_parts() {
    let parts = SafePath::from_str("/a/b/c.txt").parts().unwrap();
    let names: Vec<&str> = parts.iter().map(|p| p.name()).collect();
    assert_eq!(names, vec!["a", "b", "c.txt"]);
    assert!(!parts[0].is_last());
    assert!(!parts[1].is_last());
    assert!(parts[2].is_last());

    // a trailing separator leaves no terminal part
    let parts = SafePath::from_str("a/").parts().unwrap();
    assert_eq!(parts.len(), 1);
    assert!(!parts[0].is_last());

    assert_eq!(
        SafePath::from_str("a:b").parts().unwrap_err(),
        VfsError::InvalidInput
    );
    assert_eq!(
        SafePath::from_str("a\\b").parts().unwrap_err(),
        VfsError::InvalidInput
    );
    assert_eq!(
        SafePath::from_str("a\u{7}b").parts().unwrap_err(),
        VfsError::InvalidInput
    );
}

#[test]
fn malformed_paths_are_refused_before_the_backend() {
    let mut vfs: VfsManager<TestVolume> = VfsManager::new();
    vfs.bind("/mnt".to_string(), NodeMode::Rw, TestVolume).unwrap();

    for bad in ["a:b", "a\\b", "a\u{1}b"] {
        assert_eq!(vfs.lookup(0, bad).unwrap_err(), VfsError::InvalidInput);
        assert_eq!(vfs.readdir(0, bad).unwrap_err(), VfsError::InvalidInput);
        assert_eq!(vfs.mkdir(0, bad).unwrap_err(), VfsError::InvalidInput);
        assert_eq!(
            vfs.open(0, bad, NodeMode::Rw, false).unwrap_err(),
            VfsError::InvalidInput
        );
    }
}

#[test]
fn paths_without_a_terminal_segment_are_refused() {
    let mut vfs: VfsManager<TestVolume> = VfsManager::new();
    vfs.bind("/mnt".to_string(), NodeMode::Rw, TestVolume).unwrap();

    // the empty path names no segment to create or open
    assert_eq!(vfs.mkdir(0, "").unwrap_err(), VfsError::InvalidInput);
    assert_eq!(vfs.mkdir(0, "/").unwrap_err(), VfsError::InvalidInput);
    assert_eq!(
        vfs.open(0, "", NodeMode::Rw, false).unwrap_err(),
        VfsError::InvalidInput
    );

    // a trailing separator leaves no terminal segment either
    assert!(vfs.mkdir(0, "a/").is_err());
    assert!(vfs.open(0, "a/", NodeMode::Rw, false).is_err());
}
