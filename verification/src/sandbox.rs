//! The bridge between the host and the guest script engine, in the part
//! that needs no host I/O: building the argument script handed to the
//! engine, staging entries into the guest file tree parent-before-child,
//! and collecting the declared output files back out of the tree.

use crate::error::{ErrView, Error};
use crate::memfs::{create_all_post, create_err, file_at, fs_set, norm_segs, FsEntry, FsMap, FsPath};
use crate::normpath::{
    clean_path, clean_segs, is_abs, lemma_abs_norm, lemma_clean_segs_plain, lemma_clean_slash_free,
    split_slash,
};
use crate::vfs::{sanitize_path, VirtualFS};
use vstd::prelude::*;

verus! {

/// One argument quoted for the guest: `'arg'`.
pub open spec fn quoted(a: Seq<char>) -> Seq<char> {
    "'"@ + a + "'"@
}

/// All arguments quoted and joined with `, `.
pub open spec fn quoted_args(args: Seq<Seq<char>>) -> Seq<char>
    decreases args.len(),
{
    if args.len() == 0 {
        Seq::empty()
    } else if args.len() == 1 {
        quoted(args[0])
    } else {
        quoted_args(args.drop_last()) + ", "@ + quoted(args.last())
    }
}

/// The script line that hands the guest program its arguments.
pub open spec fn exec_args_script_spec(args: Seq<Seq<char>>) -> Seq<char> {
    "Module['arguments'] = [ "@ + quoted_args(args) + " ];"@
}

/// Builds the script line that hands the guest program its arguments,
/// each quoted, joined with `, `.
pub fn exec_args_script(args: &Vec<String>) -> (r: String)
    ensures
        r@ == exec_args_script_spec(args.deep_view()),
{
    let mut body = String::new();
    let mut i: usize = 0;
    proof {
        assert(args.deep_view().take(0) =~= Seq::<Seq<char>>::empty());
    }
    while i < args.len()
        invariant
            i <= args@.len(),
            body@ == quoted_args(args.deep_view().take(i as int)),
        decreases args@.len() - i,
    {
        if i > 0 {
            body.append(", ");
        }
        body.append("'");
        body.append(args[i].as_str());
        body.append("'");
        proof {
            let pre = args.deep_view().take(i as int);
            let cur = args.deep_view().take(i + 1);
            assert(cur.drop_last() =~= pre);
            assert(cur.last() == args.deep_view()[i as int]);
            if i == 0 {
                assert(cur.len() == 1);
                assert(cur[0] == args.deep_view()[0]);
                assert(body@ =~= quoted(cur[0]));
            } else {
                assert(body@ =~= quoted_args(pre) + ", "@ + quoted(cur.last()));
            }
        }
        i += 1;
    }
    proof {
        assert(args.deep_view().take(args@.len() as int) =~= args.deep_view());
    }
    let mut s = String::from_str("Module['arguments'] = [ ");
    s.append(body.as_str());
    s.append(" ];");
    s
}

/// One entry to stage into the guest tree: a directory, or a file with
/// its contents. Entries are staged in order, so a parent directory must
/// come before what is below it.
pub struct StageEntry {
    pub path: String,
    pub data: Option<Vec<u8>>,
}

impl StageEntry {
    /// The entry's destination path.
    pub open spec fn path_view(&self) -> Seq<char> {
        self.path@
    }

    /// The entry's contents; a directory has none.
    pub open spec fn data_view(&self) -> Option<Seq<u8>> {
        match self.data {
            Some(ref d) => Some(d@),
            None => None,
        }
    }
}

/// One entry staged: a directory is created with its missing ancestors, a
/// file replaces whatever its path held.
pub open spec fn stage_one(m: FsMap, path: Seq<char>, data: Option<Seq<u8>>) -> FsMap {
    match data {
        None => create_all_post(m, norm_segs(path)),
        Some(d) => fs_set(m, norm_segs(path), FsEntry::File(d)),
    }
}

/// The tree after staging a list of entries in order.
pub open spec fn stage_post(m: FsMap, entries: Seq<StageEntry>) -> FsMap
    decreases entries.len(),
{
    if entries.len() == 0 {
        m
    } else {
        stage_one(
            stage_post(m, entries.drop_last()),
            entries.last().path_view(),
            entries.last().data_view(),
        )
    }
}

/// Why staging an entry failed on a given tree.
pub open spec fn stage_err(m: FsMap, e: StageEntry, err: ErrView) -> bool {
    match e.data_view() {
        None => !is_abs(e.path_view()) && err == (ErrView::InvalidPath(e.path_view())),
        Some(_) => create_err(m, e.path_view(), err),
    }
}

/// Stages entries into the guest tree, in order: directories are created
/// with their missing ancestors, files are written whole. The first entry
/// that cannot be staged stops the walk with its error.
pub fn stage_entries(fs: &mut VirtualFS, entries: &Vec<StageEntry>) -> (r: Result<(), Error>)
    requires
        old(fs).wf(),
    ensures
        final(fs).wf(),
        match r {
            Ok(()) => final(fs)@ == stage_post(old(fs)@, entries@),
            Err(e) => exists|i: int|
                0 <= i < entries@.len() && final(fs)@ == stage_post(old(fs)@, #[trigger] entries@.take(i))
                    && stage_err(final(fs)@, entries@[i], e@),
        },
{
    let ghost m0 = fs@;
    let mut i: usize = 0;
    proof {
        assert(entries@.take(0) =~= Seq::<StageEntry>::empty());
    }
    while i < entries.len()
        invariant
            fs.wf(),
            i <= entries@.len(),
            fs@ == stage_post(m0, entries@.take(i as int)),
            m0 == old(fs)@,
        decreases entries@.len() - i,
    {
        let entry = &entries[i];
        let ghost pre = fs@;
        let step = match entry.data {
            None => fs.create_dir_all(entry.path.as_str()),
            Some(ref d) => fs.write_file(entry.path.as_str(), d.as_slice()),
        };
        proof {
            assert(entries@.take(i + 1).drop_last() =~= entries@.take(i as int));
            assert(entries@.take(i + 1).last() == entries@[i as int]);
        }
        match step {
            Ok(()) => {},
            Err(e) => {
                proof {
                    assert(fs@ == pre);
                    assert(stage_err(fs@, entries@[i as int], e@));
                }
                return Err(e);
            },
        }
        i += 1;
    }
    proof {
        assert(entries@.take(entries@.len() as int) =~= entries@);
    }
    Ok(())
}

/// The script line a staged entry contributes to the guest's set-up
/// function: directories are created, files are loaded back out of the
/// tree into the engine's own file system.
pub open spec fn stage_line(path: Seq<char>, is_file: bool) -> Seq<char> {
    if is_file {
        "\n\tFS.writeFile('"@ + path + "', new Uint8Array(readFile('"@ + path + "')));"@
    } else {
        "FS.mkdir('"@ + path + "');"@
    }
}

/// The lines of all staged entries, in staging order.
pub open spec fn stage_lines(entries: Seq<StageEntry>) -> Seq<char>
    decreases entries.len(),
{
    if entries.len() == 0 {
        Seq::empty()
    } else {
        stage_lines(entries.drop_last()) + stage_line(
            entries.last().path_view(),
            entries.last().data_view() is Some,
        )
    }
}

/// The guest's set-up script: a function that recreates every staged
/// entry inside the engine's own file system before the program runs.
pub open spec fn pre_run_script_spec(entries: Seq<StageEntry>) -> Seq<char> {
    "\n        Module['preRun'] = function() {\n        "@ + stage_lines(entries) + "\n};"@
}

/// Builds the guest's set-up script for the staged entries.
pub fn pre_run_script(entries: &Vec<StageEntry>) -> (r: String)
    ensures
        r@ == pre_run_script_spec(entries@),
{
    let mut body = String::new();
    let mut i: usize = 0;
    proof {
        assert(entries@.take(0) =~= Seq::<StageEntry>::empty());
    }
    while i < entries.len()
        invariant
            i <= entries@.len(),
            body@ == stage_lines(entries@.take(i as int)),
        decreases entries@.len() - i,
    {
        let entry = &entries[i];
        match entry.data {
            Some(_) => {
                body.append("\n\tFS.writeFile('");
                body.append(entry.path.as_str());
                body.append("', new Uint8Array(readFile('");
                body.append(entry.path.as_str());
                body.append("')));");
            },
            None => {
                body.append("FS.mkdir('");
                body.append(entry.path.as_str());
                body.append("');");
            },
        }
        proof {
            assert(entries@.take(i + 1).drop_last() =~= entries@.take(i as int));
            assert(entries@.take(i + 1).last() == entries@[i as int]);
            assert(body@ =~= stage_lines(entries@.take(i as int)) + stage_line(
                entries@[i as int].path_view(),
                entries@[i as int].data_view() is Some,
            ));
        }
        i += 1;
    }
    proof {
        assert(entries@.take(entries@.len() as int) =~= entries@);
    }
    let mut s = String::from_str("\n        Module['preRun'] = function() {\n        ");
    s.append(body.as_str());
    s.append("\n};");
    s
}

/// The script line that hands the engine the staged program binary.
pub fn wasm_binary_preamble() -> (r: String)
    ensures
        r@ == "Module['wasmBinary'] = readFile('/main.wasm');"@,
{
    String::from_str("Module['wasmBinary'] = readFile('/main.wasm');")
}

/// The normalized segments of an output name, confined below the virtual
/// root.
pub open spec fn out_segs(name: Seq<char>) -> FsPath {
    clean_segs(split_slash(name))
}

/// Collects the declared output files out of the guest tree: each name is
/// sanitized, looked up, and read whole; the whole operation fails if any
/// named output was never written.
pub fn collect_outputs(fs: &VirtualFS, names: &Vec<String>) -> (r: Result<
    Vec<(String, Vec<u8>)>,
    Error,
>)
    requires
        fs.wf(),
    ensures
        match r {
            Ok(v) => {
                &&& v@.len() == names@.len()
                &&& forall|i: int|
                    0 <= i < names@.len() ==> {
                        &&& file_at(fs@, out_segs(names@[i]@))
                        &&& (#[trigger] v@[i]).0@ == clean_path(names@[i]@)
                        &&& v@[i].1@ == fs@[out_segs(names@[i]@)].data()
                    }
            },
            Err(_) => exists|i: int|
                0 <= i < names@.len() && !file_at(fs@, out_segs(#[trigger] names@[i]@)),
        },
{
    let mut out: Vec<(String, Vec<u8>)> = Vec::new();
    let mut i: usize = 0;
    while i < names.len()
        invariant
            fs.wf(),
            i <= names@.len(),
            out@.len() == i,
            forall|k: int|
                0 <= k < i ==> file_at(fs@, out_segs(#[trigger] names@[k]@)),
            forall|k: int|
                0 <= k < i ==> (#[trigger] out@[k]).0@ == clean_path(names@[k]@),
            forall|k: int|
                0 <= k < i ==> (#[trigger] out@[k]).1@ == fs@[out_segs(names@[k]@)].data(),
        decreases names@.len() - i,
    {
        let rel = match sanitize_path(names[i].as_str()) {
            Ok(s) => s,
            Err(_) => {
                proof {
                    assert(false);
                }
                return Err(Error::IsRoot);
            },
        };
        let mut abs = String::from_str("/");
        abs.append(rel.as_str());
        proof {
            reveal_strlit("/");
            let cleaned = out_segs(names@[i as int]@);
            lemma_clean_segs_plain(split_slash(names@[i as int]@));
            lemma_clean_slash_free(names@[i as int]@);
            lemma_abs_norm(cleaned);
            assert(abs@ =~= seq!['/'] + clean_path(names@[i as int]@));
            assert(norm_segs(abs@) == cleaned);
        }
        let data = match fs.get_file_contents(abs.as_str()) {
            Ok(d) => d,
            Err(_) => {
                proof {
                    fs.lemma_wf();
                    if file_at(fs@, out_segs(names@[i as int]@)) {
                        if out_segs(names@[i as int]@).len() == 0 {
                            assert(out_segs(names@[i as int]@) =~= Seq::<Seq<char>>::empty());
                            assert(fs@[Seq::<Seq<char>>::empty()] is Dir);
                        }
                        assert(false);
                    }
                }
                return Err(Error::NotFound(names[i].clone()));
            },
        };
        let ghost preout = out@;
        let ghost rel_view = rel@;
        let ghost data_view = data@;
        out.push((rel, data));
        proof {
            assert(out@.len() == preout.len() + 1);
            assert(out@[i as int].0@ == rel_view);
            assert(out@[i as int].1@ == data_view);
            assert forall|k: int| 0 <= k < i implies out@[k] == preout[k] by {}
        }
        i += 1;
    }
    Ok(out)
}

} // verus!
