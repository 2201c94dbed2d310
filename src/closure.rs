use vstd::prelude::*;
use crate::model::{Folder, opt_view, is_child_of, below, in_subtree, lemma_below_step};

verus! {

/// The texts of a sequence of strings.
pub open spec fn texts(v: Seq<String>) -> Seq<Seq<char>> {
    v.map_values(|s: String| s@)
}

/// `c` lists every folder of `target`'s subtree once, `target` first, each later
/// folder after the folder that holds it.
pub open spec fn is_discovery_order(
    folders: Seq<Folder>,
    target: Seq<char>,
    c: Seq<Seq<char>>,
) -> bool {
    &&& c.len() >= 1
    &&& c[0] == target
    &&& c.no_duplicates()
    &&& forall|i: int| 0 <= i < c.len() ==> in_subtree(folders, target, #[trigger] c[i])
    &&& forall|x: Seq<char>| in_subtree(folders, target, x) ==> #[trigger] c.contains(x)
    &&& exists|from: Seq<int>| #[trigger] breadth_first_parents(folders, c, from)
    &&& forall|j: int, k: int|
        0 <= j < c.len() && 0 <= k < folders.len() && #[trigger] opt_view(folders[k].parent_id)
            == Some(#[trigger] c[j]) ==> c.contains(folders[k].id@)
}

/// `from[i]` is the position of the folder through which `c[i]` was found:
/// an earlier folder holding it, and these positions never decrease along `c`,
/// so the children of an earlier folder come before those of a later one.
pub open spec fn breadth_first_parents(folders: Seq<Folder>, c: Seq<Seq<char>>, from: Seq<int>) -> bool {
    &&& from.len() == c.len()
    &&& forall|i: int|
        1 <= i < c.len() ==> 0 <= #[trigger] from[i] < i && is_child_of(folders, c[i], c[from[i]])
    &&& forall|i: int, i2: int| 1 <= i <= i2 < c.len() ==> #[trigger] from[i] <= #[trigger] from[i2]
}

/// A duplicate-free sequence drawn from `u` is no longer than `u`.
proof fn lemma_distinct_within(c: Seq<Seq<char>>, u: Seq<Seq<char>>)
    requires
        c.no_duplicates(),
        forall|i: int| 0 <= i < c.len() ==> u.contains(#[trigger] c[i]),
    ensures
        c.len() <= u.len(),
{
    broadcast use vstd::seq_lib::seq_to_set_is_finite;
    c.unique_seq_to_set();
    u.lemma_cardinality_of_set();
    assert(c.to_set().subset_of(u.to_set()));
    vstd::set_lib::lemma_len_subset(c.to_set(), u.to_set());
}

/// Whether `v` holds a string equal to `s`.
fn contains_text(v: &Vec<String>, s: &String) -> (r: bool)
    ensures
        r == texts(v@).contains(s@),
{
    let mut i: usize = 0;
    while i < v.len()
        invariant
            i <= v@.len(),
            forall|j: int| 0 <= j < i ==> v@[j]@ != s@,
        decreases v@.len() - i,
    {
        if v[i] == *s {
            assert(texts(v@)[i as int] == s@);
            return true;
        }
        i = i + 1;
    }
    assert forall|j: int| 0 <= j < texts(v@).len() implies texts(v@)[j] != s@ by {
        assert(texts(v@)[j] == v@[j]@);
    }
    false
}

/// The deletion closure of `target`: breadth-first from `target`, each folder
/// whose parent is an already listed folder is appended once. A listed id is
/// never listed again, so a corrupt cyclic parent chain cannot loop.
pub fn folder_closure(folders: &Vec<Folder>, target: &String) -> (r: Vec<String>)
    ensures
        is_discovery_order(folders@, target@, texts(r@)),
{
    let ghost fs = folders@;
    let ghost universe: Seq<Seq<char>> = seq![target@] + fs.map_values(|f: Folder| f.id@);
    let mut out: Vec<String> = Vec::new();
    out.push(target.clone());
    proof {
        assert(below(fs, target@, target@, 0));
        assert(texts(out@) =~= seq![target@]);
        assert(universe[0] == target@);
    }
    let ghost mut from: Seq<int> = seq![0];
    let mut idx: usize = 0;
    while idx < out.len()
        invariant
            fs == folders@,
            universe == seq![target@] + fs.map_values(|f: Folder| f.id@),
            idx <= out@.len(),
            out@.len() <= fs.len() + 1,
            texts(out@).len() >= 1,
            texts(out@)[0] == target@,
            texts(out@).no_duplicates(),
            forall|i: int| 0 <= i < out@.len() ==> universe.contains(#[trigger] texts(out@)[i]),
            forall|i: int| 0 <= i < out@.len() ==> in_subtree(fs, target@, #[trigger] texts(out@)[i]),
            breadth_first_parents(fs, texts(out@), from),
            forall|i: int| 1 <= i < out@.len() ==> #[trigger] from[i] < idx,
            forall|j: int, k: int|
                0 <= j < idx && 0 <= k < fs.len() && #[trigger] opt_view(fs[k].parent_id)
                    == Some(#[trigger] texts(out@)[j]) ==> texts(out@).contains(fs[k].id@),
        decreases fs.len() + 1 - idx,
    {
        let current = out[idx].clone();
        let ghost before = texts(out@);
        let mut k: usize = 0;
        while k < folders.len()
            invariant
                fs == folders@,
                universe == seq![target@] + fs.map_values(|f: Folder| f.id@),
                idx < out@.len(),
                k <= fs.len(),
                current@ == texts(out@)[idx as int],
                out@.len() <= fs.len() + 1,
                texts(out@).len() >= 1,
                texts(out@)[0] == target@,
                texts(out@).no_duplicates(),
                forall|i: int| 0 <= i < before.len() ==> texts(out@)[i] == before[i],
                before.len() <= out@.len(),
                forall|i: int| 0 <= i < out@.len() ==> universe.contains(#[trigger] texts(out@)[i]),
                forall|i: int|
                    0 <= i < out@.len() ==> in_subtree(fs, target@, #[trigger] texts(out@)[i]),
                breadth_first_parents(fs, texts(out@), from),
                forall|i: int| 1 <= i < out@.len() ==> #[trigger] from[i] <= idx,
                forall|kk: int|
                    0 <= kk < k && #[trigger] opt_view(fs[kk].parent_id) == Some(current@)
                        ==> texts(out@).contains(fs[kk].id@),
            decreases fs.len() - k,
        {
            let f = &folders[k];
            let is_child = match &f.parent_id {
                Some(p) => *p == current,
                None => false,
            };
            if is_child {
                if !contains_text(&out, &f.id) {
                    let ghost old_t = texts(out@);
                    out.push(f.id.clone());
                    proof {
                        let t = texts(out@);
                        assert(t =~= old_t.push(fs[k as int].id@));
                        assert(universe[k + 1] == fs[k as int].id@);
                        assert(t.no_duplicates());
                        lemma_distinct_within(t, universe);
                        assert(is_child_of(fs, fs[k as int].id@, current@));
                        let n = choose|n: nat| #[trigger] below(fs, target@, current@, n);
                        lemma_below_step(fs, target@, current@, fs[k as int].id@, n);
                        assert(in_subtree(fs, target@, t[t.len() - 1]));
                        assert(t[t.len() - 1] == fs[k as int].id@);
                        assert(is_child_of(fs, t[t.len() - 1], t[idx as int]));
                        let old_from = from;
                        from = from.push(idx as int);
                        assert forall|i: int| 1 <= i < t.len() implies 0 <= #[trigger] from[i] < i
                            && is_child_of(fs, t[i], t[from[i]]) by {
                            if i < old_t.len() {
                                assert(t[i] == old_t[i]);
                                assert(from[i] == old_from[i]);
                                assert(t[from[i]] == old_t[old_from[i]]);
                            }
                        }
                        assert forall|i: int, i2: int| 1 <= i <= i2 < t.len() implies #[trigger] from[i]
                            <= #[trigger] from[i2] by {
                            if i2 < old_t.len() {
                                assert(old_from[i] <= old_from[i2]);
                            }
                        }
                        assert forall|kk: int|
                            0 <= kk <= k && #[trigger] opt_view(fs[kk].parent_id) == Some(current@)
                                implies t.contains(fs[kk].id@) by {
                            if kk < k {
                                let w = choose|w: int| 0 <= w < old_t.len() && old_t[w] == fs[kk].id@;
                                assert(t[w] == fs[kk].id@);
                            } else {
                                assert(t[t.len() - 1] == fs[kk].id@);
                            }
                        }
                    }
                } else {
                    proof {
                        assert forall|kk: int|
                            0 <= kk <= k && #[trigger] opt_view(fs[kk].parent_id) == Some(current@)
                                implies texts(out@).contains(fs[kk].id@) by {
                            if kk == k {
                                assert(fs[kk].id@ == f.id@);
                            }
                        }
                    }
                }
            } else {
                proof {
                    assert forall|kk: int|
                        0 <= kk <= k && #[trigger] opt_view(fs[kk].parent_id) == Some(current@)
                            implies texts(out@).contains(fs[kk].id@) by {
                        if kk == k {
                            assert(opt_view(fs[kk].parent_id) != Some(current@));
                        }
                    }
                }
            }
            k = k + 1;
        }
        proof {
            let t = texts(out@);
            assert forall|j: int, kk: int|
                0 <= j <= idx && 0 <= kk < fs.len() && #[trigger] opt_view(fs[kk].parent_id)
                    == Some(#[trigger] t[j]) implies t.contains(fs[kk].id@) by {
                if j < idx {
                    assert(before[j] == t[j]);
                    assert(opt_view(fs[kk].parent_id) == Some(before[j]));
                    let w = choose|w: int| 0 <= w < before.len() && before[w] == fs[kk].id@;
                    assert(t[w] == fs[kk].id@);
                }
            }
        }
        idx = idx + 1;
    }
    proof {
        let t = texts(out@);
        assert(breadth_first_parents(fs, t, from));
        assert forall|x: Seq<char>| in_subtree(fs, target@, x) implies #[trigger] t.contains(x) by {
            let n = choose|n: nat| #[trigger] below(fs, target@, x, n);
            lemma_closed_contains(fs, target@, t, x, n);
        }
    }
    out
}

/// A list holding `root` and every child of each of its members holds every
/// folder below `root`.
proof fn lemma_closed_contains(
    fs: Seq<Folder>,
    root: Seq<char>,
    t: Seq<Seq<char>>,
    x: Seq<char>,
    n: nat,
)
    requires
        t.len() >= 1,
        t[0] == root,
        forall|j: int, k: int|
            0 <= j < t.len() && 0 <= k < fs.len() && #[trigger] opt_view(fs[k].parent_id) == Some(
                #[trigger] t[j],
            ) ==> t.contains(fs[k].id@),
        below(fs, root, x, n),
    ensures
        t.contains(x),
    decreases n,
{
    if n == 0 {
        assert(t[0] == x);
    } else {
        let k = choose|k: int|
            0 <= k < fs.len() && #[trigger] fs[k].id@ == x && fs[k].parent_id.is_some() && below(
                fs,
                root,
                fs[k].parent_id.unwrap()@,
                (n - 1) as nat,
            );
        let p = fs[k].parent_id.unwrap()@;
        lemma_closed_contains(fs, root, t, p, (n - 1) as nat);
        let j = choose|j: int| 0 <= j < t.len() && t[j] == p;
        assert(opt_view(fs[k].parent_id) == Some(t[j]));
    }
}

} // verus!
