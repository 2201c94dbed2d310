use vstd::prelude::*;
use crate::paths::{
    is_under, join, join_path, temp_name, temp_name_of, mirror_dir, mirror_dir_of, mirror_name,
    mirror_name_of, mirror_path_of, mirror_path, asset_dir, asset_dir_of,
    lemma_mirror_path_injective,
};
use crate::plan::RemovalStep;

verus! {

/// One filesystem operation of the mirror or the asset store.
#[derive(Debug)]
pub enum FsStep {
    /// Create a directory and its missing ancestors.
    CreateDirAll(String),
    /// Create a file that must not exist yet, and write the text to it.
    CreateNew(String, String),
    /// Force a file's content to durable storage.
    SyncFile(String),
    /// Rename the first path onto the second, replacing a file there in one
    /// step; a directory there makes it fail.
    Rename(String, String),
    /// Force a directory's entries to durable storage, where the platform
    /// allows it; best effort: its failure is ignored.
    SyncDir(String),
    /// Remove a file; best effort, and a missing file is no error.
    RemoveFile(String),
    /// Remove a directory and all it holds; best effort, and a missing
    /// directory is no error.
    RemoveTree(String),
}

/// What a filesystem operation names.
pub enum FsOp {
    CreateDirAll(Seq<char>),
    CreateNew(Seq<char>, Seq<char>),
    SyncFile(Seq<char>),
    Rename(Seq<char>, Seq<char>),
    SyncDir(Seq<char>),
    RemoveFile(Seq<char>),
    RemoveTree(Seq<char>),
}

impl View for FsStep {
    type V = FsOp;

    open spec fn view(&self) -> FsOp {
        match self {
            FsStep::CreateDirAll(d) => FsOp::CreateDirAll(d@),
            FsStep::CreateNew(p, t) => FsOp::CreateNew(p@, t@),
            FsStep::SyncFile(p) => FsOp::SyncFile(p@),
            FsStep::Rename(a, b) => FsOp::Rename(a@, b@),
            FsStep::SyncDir(d) => FsOp::SyncDir(d@),
            FsStep::RemoveFile(p) => FsOp::RemoveFile(p@),
            FsStep::RemoveTree(d) => FsOp::RemoveTree(d@),
        }
    }
}

/// The views of a list of filesystem steps.
pub open spec fn ops_view(v: Seq<FsStep>) -> Seq<FsOp> {
    v.map_values(|s: FsStep| s@)
}

/// The visible state of a filesystem: file contents by path, and directories.
#[verifier::ext_equal]
pub struct FsView {
    pub files: Map<Seq<char>, Seq<char>>,
    pub dirs: Set<Seq<char>>,
}

/// `p` is `d` or lies inside directory `d`.
pub open spec fn within(p: Seq<char>, d: Seq<char>) -> bool {
    p == d || is_under(p, d)
}

/// A file or a directory stands at `p`.
pub open spec fn occupied(fs: FsView, p: Seq<char>) -> bool {
    fs.files.contains_key(p) || fs.dirs.contains(p)
}

/// `d` and every non-empty path that `d` lies inside.
pub open spec fn with_ancestors(d: Seq<char>) -> Set<Seq<char>> {
    Set::new(|x: Seq<char>| x == d || (x.len() > 0 && is_under(d, x)))
}

/// The state after one operation succeeds, or `None` where it cannot succeed.
/// Any operation may also fail for reasons of the machine (a full disk, a
/// denied permission); `failed_at` says what such a failure leaves.
pub open spec fn apply(fs: FsView, op: FsOp) -> Option<FsView> {
    match op {
        FsOp::CreateDirAll(d) => if fs.files.contains_key(d) {
            None
        } else {
            Some(FsView { files: fs.files, dirs: fs.dirs.union(with_ancestors(d)) })
        },
        FsOp::CreateNew(p, t) => if occupied(fs, p) {
            None
        } else {
            Some(FsView { files: fs.files.insert(p, t), dirs: fs.dirs })
        },
        FsOp::SyncFile(p) => if fs.files.contains_key(p) {
            Some(fs)
        } else {
            None
        },
        FsOp::Rename(a, b) => if fs.files.contains_key(a) && !fs.dirs.contains(b) {
            Some(FsView { files: fs.files.remove(a).insert(b, fs.files[a]), dirs: fs.dirs })
        } else {
            None
        },
        FsOp::SyncDir(_) => Some(fs),
        FsOp::RemoveFile(p) => Some(FsView { files: fs.files.remove(p), dirs: fs.dirs }),
        FsOp::RemoveTree(d) => Some(
            FsView {
                files: fs.files.restrict(fs.files.dom().filter(|k: Seq<char>| !within(k, d))),
                dirs: fs.dirs.filter(|x: Seq<char>| !within(x, d)),
            },
        ),
    }
}

/// The state after every operation of `ops` succeeds in order, or `None`
/// where one of them cannot succeed.
pub open spec fn run(fs: FsView, ops: Seq<FsOp>) -> Option<FsView>
    decreases ops.len(),
{
    if ops.len() == 0 {
        Some(fs)
    } else {
        match run(fs, ops.drop_last()) {
            Some(mid) => apply(mid, ops.last()),
            None => None,
        }
    }
}

/// The state when the operations before `k` succeeded and operation `k` then
/// failed: a file creation that failed after creating its file may leave any
/// content `junk` there; any other failed operation changes nothing.
pub open spec fn failed_at(fs: FsView, ops: Seq<FsOp>, k: int, junk: Seq<char>) -> FsView {
    let mid = run(fs, ops.take(k)).unwrap();
    match ops[k] {
        FsOp::CreateNew(p, _) => if occupied(mid, p) {
            mid
        } else {
            FsView { files: mid.files.insert(p, junk), dirs: mid.dirs }
        },
        _ => mid,
    }
}

/// Replacing `name` in `dir` by `text`: create a fresh temporary sibling,
/// force it to storage, rename it onto the target, then force the directory
/// entry where the platform allows it.
pub open spec fn atomic_ops(dir: Seq<char>, name: Seq<char>, text: Seq<char>, nonce: nat) -> Seq<
    FsOp,
> {
    let tmp = join(dir, temp_name_of(name, nonce));
    seq![
        FsOp::CreateDirAll(dir),
        FsOp::CreateNew(tmp, text),
        FsOp::SyncFile(tmp),
        FsOp::Rename(tmp, join(dir, name)),
        FsOp::SyncDir(dir),
    ]
}

/// The position of the rename in an atomic write.
pub open spec fn rename_index() -> int {
    3
}

/// Projecting a document body into the mirror.
pub open spec fn mirror_ops(project: Seq<char>, doc_id: Seq<char>, md: Seq<char>, nonce: nat) -> Seq<
    FsOp,
> {
    atomic_ops(mirror_dir_of(project), mirror_name_of(doc_id), md, nonce)
}

/// The steps that replace the file `name` in `dir` by `text` atomically; the
/// temporary file's name carries `nonce`, which the caller picks so that no
/// file has that name.
pub fn atomic_write(dir: &str, name: &str, text: &str, nonce: u128) -> (r: Vec<FsStep>)
    ensures
        ops_view(r@) == atomic_ops(dir@, name@, text@, nonce as nat),
{
    let tn = temp_name(name, nonce);
    let tmp = join_path(dir, tn.as_str());
    let target = join_path(dir, name);
    let mut r: Vec<FsStep> = Vec::new();
    r.push(FsStep::CreateDirAll(String::from_str(dir)));
    r.push(FsStep::CreateNew(tmp.clone(), String::from_str(text)));
    r.push(FsStep::SyncFile(tmp.clone()));
    r.push(FsStep::Rename(tmp, target));
    r.push(FsStep::SyncDir(String::from_str(dir)));
    assert(ops_view(r@) =~= atomic_ops(dir@, name@, text@, nonce as nat));
    r
}

/// The body that a new document starts with.
pub open spec fn initial_body_of() -> Seq<char> {
    "# New Document"@
}

/// The body that a new document starts with.
pub fn initial_body() -> (r: String)
    ensures
        r@ == initial_body_of(),
{
    String::from_str("# New Document")
}

/// The steps that write a document body to its mirror file.
pub fn mirror_md(project_path: &str, doc_id: &str, md: &str, nonce: u128) -> (r: Vec<FsStep>)
    ensures
        ops_view(r@) == mirror_ops(project_path@, doc_id@, md@, nonce as nat),
{
    let dir = mirror_dir(project_path);
    let name = mirror_name(doc_id);
    atomic_write(dir.as_str(), name.as_str(), md, nonce)
}

/// The filesystem cleanup that goes with a removal step: a document's mirror
/// file, a character's asset directory; a folder has none.
pub fn cleanup_step(project_path: &str, step: &RemovalStep) -> (r: Option<FsStep>)
    ensures
        match step {
            RemovalStep::Document(id) => r.is_some() && r.unwrap()@ == FsOp::RemoveFile(
                mirror_path_of(project_path@, id@),
            ),
            RemovalStep::Character(id) => r.is_some() && r.unwrap()@ == FsOp::RemoveTree(
                asset_dir_of(project_path@, id@),
            ),
            RemovalStep::Folder(_) => r.is_none(),
        },
{
    match step {
        RemovalStep::Document(id) => Some(FsStep::RemoveFile(mirror_path(project_path, id.as_str()))),
        RemovalStep::Character(id) => Some(FsStep::RemoveTree(asset_dir(project_path, id.as_str()))),
        RemovalStep::Folder(_) => None,
    }
}

/// The states of an atomic write after each of its first steps.
proof fn lemma_atomic_states(fs: FsView, dir: Seq<char>, name: Seq<char>, text: Seq<char>, nonce: nat)
    ensures
        ({
            let ops = atomic_ops(dir, name, text, nonce);
            let tmp = join(dir, temp_name_of(name, nonce));
            let target = join(dir, name);
            &&& tmp != target
            &&& run(fs, ops.take(0)) == Some(fs)
            &&& run(fs, ops.take(1)) is Some ==> run(fs, ops.take(1)).unwrap().files == fs.files
                && fs.dirs.subset_of(run(fs, ops.take(1)).unwrap().dirs)
            &&& run(fs, ops.take(2)) is Some ==> run(fs, ops.take(1)) is Some && !occupied(
                run(fs, ops.take(1)).unwrap(),
                tmp,
            ) && run(fs, ops.take(2)).unwrap() == (FsView {
                files: fs.files.insert(tmp, text),
                dirs: run(fs, ops.take(1)).unwrap().dirs,
            })
            &&& run(fs, ops.take(3)) == run(fs, ops.take(2))
            &&& run(fs, ops.take(4)) is Some ==> run(fs, ops.take(3)) is Some && !run(
                fs,
                ops.take(3),
            ).unwrap().dirs.contains(target) && run(fs, ops.take(4)).unwrap().files == run(
                fs,
                ops.take(3),
            ).unwrap().files.remove(tmp).insert(target, text)
            &&& run(fs, ops) == run(fs, ops.take(4))
        }),
{
    reveal_strlit(".tmp");
    let ops = atomic_ops(dir, name, text, nonce);
    let tmp = join(dir, temp_name_of(name, nonce));
    let target = join(dir, name);
    assert(tmp.len() > target.len());
    reveal_with_fuel(run, 6);
    assert(ops.take(0) =~= Seq::<FsOp>::empty());
    assert(ops.take(1).drop_last() =~= ops.take(0));
    assert(ops.take(2).drop_last() =~= ops.take(1));
    assert(ops.take(3).drop_last() =~= ops.take(2));
    assert(ops.take(4).drop_last() =~= ops.take(3));
    assert(ops.drop_last() =~= ops.take(4));
    if run(fs, ops.take(2)) is Some {
        let m1 = run(fs, ops.take(1)).unwrap();
        assert(run(fs, ops.take(2)).unwrap() =~= (FsView {
            files: fs.files.insert(tmp, text),
            dirs: m1.dirs,
        }));
    }
    if run(fs, ops.take(1)) is Some {
        assert(fs.dirs.subset_of(run(fs, ops.take(1)).unwrap().dirs));
    }
    if run(fs, ops.take(4)) is Some {
        let m3 = run(fs, ops.take(3)).unwrap();
        assert(m3.files.contains_key(tmp));
        assert(m3.files[tmp] == text);
    }
}

/// An atomic write keeps every other file as it was, whether it completes or
/// fails at any step up to the rename, even after leaving arbitrary bytes in
/// its temporary file: the temporary file is created fresh, so no file that
/// was there is touched, and the only file that can appear is that temporary
/// one. A failure up to the rename leaves the target as it was, present or
/// absent, and a directory target makes the write fail. A completed write
/// holds exactly `text` at the target and leaves no temporary file; the
/// directory sync after the rename changes nothing, so its failure does not
/// undo the write.
pub proof fn lemma_atomic_write(
    fs: FsView,
    dir: Seq<char>,
    name: Seq<char>,
    text: Seq<char>,
    nonce: nat,
    k: int,
    junk: Seq<char>,
)
    ensures
        ({
            let ops = atomic_ops(dir, name, text, nonce);
            let tmp = join(dir, temp_name_of(name, nonce));
            let target = join(dir, name);
            let torn = failed_at(fs, ops, k, junk);
            0 <= k <= rename_index() && run(fs, ops.take(k)) is Some ==> {
                &&& forall|q: Seq<char>| #[trigger]
                    fs.files.contains_key(q) ==> torn.files.contains_key(q) && torn.files[q]
                        == fs.files[q]
                &&& forall|q: Seq<char>| #[trigger]
                    torn.files.contains_key(q) ==> fs.files.contains_key(q) || q == tmp
                &&& torn.files.contains_key(target) == fs.files.contains_key(target)
                &&& fs.dirs.subset_of(torn.dirs)
            }
        }),
        run(fs, atomic_ops(dir, name, text, nonce)) is Some ==> run(
            fs,
            atomic_ops(dir, name, text, nonce),
        ).unwrap().files == fs.files.insert(join(dir, name), text),
        fs.dirs.contains(join(dir, name)) ==> run(fs, atomic_ops(dir, name, text, nonce)) is None,
        run(fs, atomic_ops(dir, name, text, nonce)) == run(
            fs,
            atomic_ops(dir, name, text, nonce).take(rename_index() + 1),
        ),
{
    lemma_atomic_states(fs, dir, name, text, nonce);
    let ops = atomic_ops(dir, name, text, nonce);
    let tmp = join(dir, temp_name_of(name, nonce));
    let target = join(dir, name);
    if 0 <= k <= rename_index() && run(fs, ops.take(k)) is Some {
        let torn = failed_at(fs, ops, k, junk);
        if k == 1 {
            let mid = run(fs, ops.take(1)).unwrap();
            if !occupied(mid, tmp) {
                assert(!fs.files.contains_key(tmp));
            }
        } else if k >= 2 {
            assert(!fs.files.contains_key(tmp));
        }
    }
    if run(fs, ops) is Some {
        let m3 = run(fs, ops.take(3)).unwrap();
        assert(!fs.files.contains_key(tmp));
        assert(run(fs, ops).unwrap().files =~= fs.files.insert(target, text));
    }
    if fs.dirs.contains(target) && run(fs, ops.take(3)) is Some {
        assert(run(fs, ops.take(1)).unwrap().dirs.contains(target));
    }
}

/// Every catalog body has a mirror file holding it.
pub open spec fn mirror_consistent(
    project: Seq<char>,
    bodies: Map<Seq<char>, Seq<char>>,
    files: Map<Seq<char>, Seq<char>>,
) -> bool {
    forall|id: Seq<char>|
        #[trigger] bodies.contains_key(id) ==> files.contains_key(mirror_path_of(project, id))
            && files[mirror_path_of(project, id)] == bodies[id]
}

/// Saving a document replaces its catalog body.
pub open spec fn save_bodies(
    bodies: Map<Seq<char>, Seq<char>>,
    doc_id: Seq<char>,
    md: Seq<char>,
) -> Map<Seq<char>, Seq<char>> {
    bodies.insert(doc_id, md)
}

/// A sequence of saves `(document id, markdown, nonce)` applied in order to the
/// catalog bodies and the filesystem, each replacing the body and then writing
/// the mirror file; `None` where a mirror write cannot complete.
pub open spec fn run_saves(
    project: Seq<char>,
    bodies: Map<Seq<char>, Seq<char>>,
    fs: FsView,
    saves: Seq<(Seq<char>, Seq<char>, nat)>,
) -> Option<(Map<Seq<char>, Seq<char>>, FsView)>
    decreases saves.len(),
{
    if saves.len() == 0 {
        Some((bodies, fs))
    } else {
        match run_saves(project, bodies, fs, saves.drop_last()) {
            Some((b, f)) => {
                let (id, md, nonce) = saves.last();
                match run(f, mirror_ops(project, id, md, nonce)) {
                    Some(g) => Some((save_bodies(b, id, md), g)),
                    None => None,
                }
            },
            None => None,
        }
    }
}

/// A completed save keeps every mirror file equal to its catalog body, the
/// saved document's mirror file holds exactly the saved markdown, and no other
/// file changes.
pub proof fn lemma_mirror_consistency(
    project: Seq<char>,
    bodies: Map<Seq<char>, Seq<char>>,
    fs: FsView,
    doc_id: Seq<char>,
    md: Seq<char>,
    nonce: nat,
)
    requires
        mirror_consistent(project, bodies, fs.files),
        run(fs, mirror_ops(project, doc_id, md, nonce)) is Some,
    ensures
        mirror_consistent(
            project,
            save_bodies(bodies, doc_id, md),
            run(fs, mirror_ops(project, doc_id, md, nonce)).unwrap().files,
        ),
        run(fs, mirror_ops(project, doc_id, md, nonce)).unwrap().files == fs.files.insert(
            mirror_path_of(project, doc_id),
            md,
        ),
{
    lemma_atomic_write(fs, mirror_dir_of(project), mirror_name_of(doc_id), md, nonce, 0, md);
    let after = run(fs, mirror_ops(project, doc_id, md, nonce)).unwrap().files;
    let target = mirror_path_of(project, doc_id);
    let nb = save_bodies(bodies, doc_id, md);
    assert forall|id: Seq<char>| #[trigger] nb.contains_key(id) implies after.contains_key(
        mirror_path_of(project, id),
    ) && after[mirror_path_of(project, id)] == nb[id] by {
        if id != doc_id && mirror_path_of(project, id) == target {
            lemma_mirror_path_injective(project, id, doc_id);
        }
    }
}

/// Over any sequence of saves whose mirror writes complete, every mirror file
/// stays equal to its catalog body, so after each save the saved document's
/// mirror file holds the saved markdown.
pub proof fn lemma_mirror_consistency_all(
    project: Seq<char>,
    bodies: Map<Seq<char>, Seq<char>>,
    fs: FsView,
    saves: Seq<(Seq<char>, Seq<char>, nat)>,
)
    requires
        mirror_consistent(project, bodies, fs.files),
        run_saves(project, bodies, fs, saves) is Some,
    ensures
        mirror_consistent(
            project,
            run_saves(project, bodies, fs, saves).unwrap().0,
            run_saves(project, bodies, fs, saves).unwrap().1.files,
        ),
    decreases saves.len(),
{
    if saves.len() > 0 {
        lemma_mirror_consistency_all(project, bodies, fs, saves.drop_last());
        let (b, f) = run_saves(project, bodies, fs, saves.drop_last()).unwrap();
        let (id, md, nonce) = saves.last();
        lemma_mirror_consistency(project, b, f, id, md, nonce);
    }
}

/// Removing a file or directory tree always succeeds; removing one that is not
/// there changes nothing, and removing it twice is the same as removing it once.
pub proof fn lemma_cleanup_idempotent(fs: FsView, p: Seq<char>)
    ensures
        apply(fs, FsOp::RemoveFile(p)) is Some,
        apply(fs, FsOp::RemoveTree(p)) is Some,
        !fs.files.contains_key(p) ==> apply(fs, FsOp::RemoveFile(p)) == Some(fs),
        apply(apply(fs, FsOp::RemoveFile(p)).unwrap(), FsOp::RemoveFile(p)) == apply(
            fs,
            FsOp::RemoveFile(p),
        ),
        (forall|k: Seq<char>| #[trigger] fs.files.contains_key(k) ==> !within(k, p)) && (forall|
            x: Seq<char>,
        | #[trigger] fs.dirs.contains(x) ==> !within(x, p)) ==> apply(fs, FsOp::RemoveTree(p))
            == Some(fs),
        apply(apply(fs, FsOp::RemoveTree(p)).unwrap(), FsOp::RemoveTree(p)) == apply(
            fs,
            FsOp::RemoveTree(p),
        ),
{
    if !fs.files.contains_key(p) {
        assert(apply(fs, FsOp::RemoveFile(p)).unwrap() =~= fs);
    }
    assert(apply(apply(fs, FsOp::RemoveFile(p)).unwrap(), FsOp::RemoveFile(p)).unwrap() =~= apply(
        fs,
        FsOp::RemoveFile(p),
    ).unwrap());
    if (forall|k: Seq<char>| #[trigger] fs.files.contains_key(k) ==> !within(k, p)) && (forall|
        x: Seq<char>,
    | #[trigger] fs.dirs.contains(x) ==> !within(x, p)) {
        assert(apply(fs, FsOp::RemoveTree(p)).unwrap().files =~= fs.files);
        assert(apply(fs, FsOp::RemoveTree(p)).unwrap().dirs =~= fs.dirs);
        assert(apply(fs, FsOp::RemoveTree(p)).unwrap() =~= fs);
    }
    let once = apply(fs, FsOp::RemoveTree(p)).unwrap();
    let twice = apply(once, FsOp::RemoveTree(p)).unwrap();
    assert(twice.files =~= once.files);
    assert(twice.dirs =~= once.dirs);
    assert(twice =~= once);
}

} // verus!
