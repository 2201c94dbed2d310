use vstd::prelude::*;

verus! {

/// A document row as listed in the project tree.
#[derive(Debug)]
pub struct Doc {
    pub id: String,
    pub title: String,
    pub folder_id: Option<String>,
}

/// A folder row as listed in the project tree; `parent_id` is `None` for a root.
#[derive(Debug)]
pub struct Folder {
    pub id: String,
    pub name: String,
    pub parent_id: Option<String>,
}

/// A character row as listed in the project tree.
#[derive(Debug)]
pub struct CharacterEntry {
    pub id: String,
    pub name: String,
    pub folder_id: Option<String>,
}

/// The text of an optional identifier.
pub open spec fn opt_view(o: Option<String>) -> Option<Seq<char>> {
    match o {
        Some(s) => Some(s@),
        None => None,
    }
}

/// Some folder row has id `c` and parent `p`.
pub open spec fn is_child_of(folders: Seq<Folder>, c: Seq<char>, p: Seq<char>) -> bool {
    exists|k: int|
        0 <= k < folders.len() && #[trigger] folders[k].id@ == c && opt_view(folders[k].parent_id)
            == Some(p)
}

/// `x` lies exactly `n` parent links below `root`.
pub open spec fn below(folders: Seq<Folder>, root: Seq<char>, x: Seq<char>, n: nat) -> bool
    decreases n,
{
    if n == 0 {
        x == root
    } else {
        exists|k: int|
            0 <= k < folders.len() && #[trigger] folders[k].id@ == x && folders[k].parent_id.is_some()
                && below(folders, root, folders[k].parent_id.unwrap()@, (n - 1) as nat)
    }
}

/// `x` is `root` itself or a folder transitively contained in it.
pub open spec fn in_subtree(folders: Seq<Folder>, root: Seq<char>, x: Seq<char>) -> bool {
    exists|n: nat| #[trigger] below(folders, root, x, n)
}

/// No two folder rows share an id.
pub open spec fn unique_folder_ids(folders: Seq<Folder>) -> bool {
    forall|i: int, j: int|
        0 <= i < folders.len() && 0 <= j < folders.len() && i != j ==> #[trigger] folders[i].id@
            != #[trigger] folders[j].id@
}

/// No folder lies one or more parent links below itself.
pub open spec fn acyclic(folders: Seq<Folder>) -> bool {
    forall|x: Seq<char>, n: nat| n > 0 ==> !#[trigger] below(folders, x, x, n)
}

/// The folder rows form a forest: ids are unique and no folder is its own ancestor.
pub open spec fn is_forest(folders: Seq<Folder>) -> bool {
    unique_folder_ids(folders) && acyclic(folders)
}

/// One more link below a folder at depth `n` gives depth `n + 1`.
pub proof fn lemma_below_step(
    folders: Seq<Folder>,
    root: Seq<char>,
    p: Seq<char>,
    x: Seq<char>,
    n: nat,
)
    requires
        below(folders, root, p, n),
        is_child_of(folders, x, p),
    ensures
        below(folders, root, x, n + 1),
{
    let k = choose|k: int|
        0 <= k < folders.len() && #[trigger] folders[k].id@ == x && opt_view(folders[k].parent_id)
            == Some(p);
    assert(folders[k].parent_id.unwrap()@ == p);
}

} // verus!
