use wasm_sandbox::error::Error;
use wasm_sandbox::load::Bytes;
use wasm_sandbox::sandbox::{collect_outputs, exec_args_script, pre_run_script, stage_entries, wasm_binary_preamble, StageEntry};
use wasm_sandbox::vfs::VirtualFS;

#[test]
fn exec_args_script_exact() {
    let args = vec!["a".to_string(), "b c".to_string()];
    assert_eq!(
        exec_args_script(&args),
        "Module['arguments'] = [ 'a', 'b c' ];"
    );
    assert_eq!(
        exec_args_script(&Vec::new()),
        "Module['arguments'] = [  ];"
    );
    assert_eq!(
        exec_args_script(&vec!["x".to_string()]),
        "Module['arguments'] = [ 'x' ];"
    );
}

#[test]
fn pre_run_script_exact() {
    let entries = vec![
        StageEntry { path: "/data".to_string(), data: None },
        StageEntry { path: "/data/in.txt".to_string(), data: Some(b"abc".to_vec()) },
    ];
    assert_eq!(
        pre_run_script(&entries),
        "\n        Module['preRun'] = function() {\n        FS.mkdir('/data');\n\tFS.writeFile('/data/in.txt', new Uint8Array(readFile('/data/in.txt')));\n};"
    );
    assert_eq!(
        wasm_binary_preamble(),
        "Module['wasmBinary'] = readFile('/main.wasm');"
    );
}

#[test]
fn staging_is_parent_before_child() {
    let mut vfs = VirtualFS::new();
    let entries = vec![
        StageEntry { path: "/data".to_string(), data: None },
        StageEntry { path: "/data/in.txt".to_string(), data: Some(b"abc".to_vec()) },
    ];
    stage_entries(&mut vfs, &entries).unwrap();
    assert_eq!(vfs.read_file("/data/in.txt").unwrap(), b"abc".to_vec());
}

#[test]
fn staging_fails_on_missing_parent() {
    let mut vfs = VirtualFS::new();
    let entries = vec![StageEntry {
        path: "/data/in.txt".to_string(),
        data: Some(b"abc".to_vec()),
    }];
    assert_eq!(
        stage_entries(&mut vfs, &entries).unwrap_err(),
        Error::NotFound("data".to_owned())
    );
}

#[test]
fn guest_run_round_trip() {
    // stage an input file, run a guest that reverses it, extract the output
    let mut vfs = VirtualFS::new();
    let entries = vec![StageEntry { path: "/in.txt".to_string(), data: Some(b"abc".to_vec()) }];
    stage_entries(&mut vfs, &entries).unwrap();

    // the guest program: read in.txt, write the reversed bytes to out.txt
    let input = vfs.read_file("/in.txt").unwrap();
    let reversed: Vec<u8> = input.iter().rev().cloned().collect();
    vfs.write_file("/out.txt", &reversed).unwrap();

    let outputs = collect_outputs(&vfs, &vec!["out.txt".to_string()]).unwrap();
    assert_eq!(outputs.len(), 1);
    assert_eq!(outputs[0].0, "out.txt");
    assert_eq!(outputs[0].1, b"cba".to_vec());
}

#[test]
fn missing_output_fails_extraction() {
    let mut vfs = VirtualFS::new();
    vfs.write_file("/present.txt", b"x").unwrap();
    let names = vec!["present.txt".to_string(), "absent.txt".to_string()];
    assert!(collect_outputs(&vfs, &names).is_err());
}

#[test]
fn output_paths_are_confined() {
    let mut vfs = VirtualFS::new();
    vfs.write_file("/out.txt", b"data").unwrap();
    // a name that tries to climb out of the root is clamped back inside
    let outputs = collect_outputs(&vfs, &vec!["../../../out.txt".to_string()]).unwrap();
    assert_eq!(outputs[0].0, "out.txt");
    assert_eq!(outputs[0].1, b"data".to_vec());
}

#[test]
fn bytes_from_reader() {
    let data: &[u8] = b"wasm binary";
    let bytes = Bytes::from_reader(data).unwrap();
    assert_eq!(bytes.as_slice(), b"wasm binary");

    let owned: Bytes = vec![1u8, 2, 3].into();
    assert_eq!(owned.as_slice(), &[1, 2, 3]);
}

#[test]
fn guest_error_messages() {
    assert_eq!(
        Error::NotFound("tmp".to_string()).message(),
        "file not found: tmp"
    );
    assert_eq!(
        Error::InvalidPath("a:b".to_string()).message(),
        "invalid path: a:b"
    );
    assert_eq!(Error::IsRoot.message(), "file is root");
    assert_eq!(
        Error::AlreadyExists("x".to_string()).message(),
        "file already exists: x"
    );
}
