use vstd::prelude::*;
use crate::model::{
    Folder, Doc, CharacterEntry, opt_view, is_child_of, below, in_subtree, unique_folder_ids, acyclic,
    lemma_below_step,
};
use crate::closure::{is_discovery_order, breadth_first_parents};
use crate::plan::{
    StepView, doc_steps, char_steps, content_steps, folder_steps, plan_of, is_deletion_plan,
    removes_folder, removes_document, removes_character,
};

verus! {

proof fn lemma_folder_steps_index(c: Seq<Seq<char>>)
    ensures
        folder_steps(c).len() == c.len(),
        forall|t: int|
            0 <= t < c.len() ==> #[trigger] folder_steps(c)[t] == StepView::Folder(
                c[c.len() - 1 - t],
            ),
    decreases c.len(),
{
    if c.len() > 0 {
        lemma_folder_steps_index(c.drop_last());
        assert forall|t: int| 0 <= t < c.len() implies #[trigger] folder_steps(c)[t]
            == StepView::Folder(c[c.len() - 1 - t]) by {
            if t > 0 {
                assert(folder_steps(c)[t] == folder_steps(c.drop_last())[t - 1]);
            }
        }
    }
}

proof fn lemma_doc_steps_shape(docs: Seq<Doc>, fid: Seq<char>)
    ensures
        forall|i: int|
            0 <= i < doc_steps(docs, fid).len() ==> exists|k: int|
                0 <= k < docs.len() && opt_view(docs[k].folder_id) == Some(fid)
                    && #[trigger] doc_steps(docs, fid)[i] == StepView::Document(docs[k].id@),
        forall|k: int|
            0 <= k < docs.len() && #[trigger] opt_view(docs[k].folder_id) == Some(fid)
                ==> doc_steps(docs, fid).contains(StepView::Document(docs[k].id@)),
    decreases docs.len(),
{
    if docs.len() > 0 {
        let p = docs.drop_last();
        lemma_doc_steps_shape(p, fid);
        let rest = doc_steps(p, fid);
        let all = doc_steps(docs, fid);
        assert forall|i: int| 0 <= i < all.len() implies exists|k: int|
            0 <= k < docs.len() && opt_view(docs[k].folder_id) == Some(fid)
                && #[trigger] all[i] == StepView::Document(docs[k].id@) by {
            if i < rest.len() {
                assert(all[i] == rest[i]);
                let k = choose|k: int|
                    0 <= k < p.len() && opt_view(p[k].folder_id) == Some(fid) && rest[i]
                        == StepView::Document(p[k].id@);
                assert(docs[k] == p[k]);
            } else {
                assert(all[i] == StepView::Document(docs[docs.len() - 1].id@));
            }
        }
        assert forall|k: int|
            0 <= k < docs.len() && #[trigger] opt_view(docs[k].folder_id) == Some(fid)
                implies all.contains(StepView::Document(docs[k].id@)) by {
            if k < p.len() {
                assert(docs[k] == p[k]);
                assert(opt_view(p[k].folder_id) == Some(fid));
                let w = choose|w: int| 0 <= w < rest.len() && rest[w] == StepView::Document(p[k].id@);
                assert(all[w] == rest[w]);
            } else {
                assert(all[all.len() - 1] == StepView::Document(docs[k].id@));
            }
        }
    }
}

proof fn lemma_char_steps_shape(chars: Seq<CharacterEntry>, fid: Seq<char>)
    ensures
        forall|i: int|
            0 <= i < char_steps(chars, fid).len() ==> exists|k: int|
                0 <= k < chars.len() && opt_view(chars[k].folder_id) == Some(fid)
                    && #[trigger] char_steps(chars, fid)[i] == StepView::Character(chars[k].id@),
        forall|k: int|
            0 <= k < chars.len() && #[trigger] opt_view(chars[k].folder_id) == Some(fid)
                ==> char_steps(chars, fid).contains(StepView::Character(chars[k].id@)),
    decreases chars.len(),
{
    if chars.len() > 0 {
        let p = chars.drop_last();
        lemma_char_steps_shape(p, fid);
        let rest = char_steps(p, fid);
        let all = char_steps(chars, fid);
        assert forall|i: int| 0 <= i < all.len() implies exists|k: int|
            0 <= k < chars.len() && opt_view(chars[k].folder_id) == Some(fid)
                && #[trigger] all[i] == StepView::Character(chars[k].id@) by {
            if i < rest.len() {
                assert(all[i] == rest[i]);
                let k = choose|k: int|
                    0 <= k < p.len() && opt_view(p[k].folder_id) == Some(fid) && rest[i]
                        == StepView::Character(p[k].id@);
                assert(chars[k] == p[k]);
            } else {
                assert(all[i] == StepView::Character(chars[chars.len() - 1].id@));
            }
        }
        assert forall|k: int|
            0 <= k < chars.len() && #[trigger] opt_view(chars[k].folder_id) == Some(fid)
                implies all.contains(StepView::Character(chars[k].id@)) by {
            if k < p.len() {
                assert(chars[k] == p[k]);
                assert(opt_view(p[k].folder_id) == Some(fid));
                let w = choose|w: int|
                    0 <= w < rest.len() && rest[w] == StepView::Character(p[k].id@);
                assert(all[w] == rest[w]);
            } else {
                assert(all[all.len() - 1] == StepView::Character(chars[k].id@));
            }
        }
    }
}

/// Content steps hold no folder removal, and hold the documents and characters
/// of every listed folder.
proof fn lemma_content_shape(c: Seq<Seq<char>>, docs: Seq<Doc>, chars: Seq<CharacterEntry>)
    ensures
        forall|i: int|
            0 <= i < content_steps(c, docs, chars).len() ==> !(#[trigger] content_steps(
                c,
                docs,
                chars,
            )[i] is Folder),
        forall|j: int, k: int|
            0 <= j < c.len() && 0 <= k < docs.len() && #[trigger] opt_view(docs[k].folder_id)
                == Some(#[trigger] c[j]) ==> content_steps(c, docs, chars).contains(
                StepView::Document(docs[k].id@),
            ),
        forall|j: int, k: int|
            0 <= j < c.len() && 0 <= k < chars.len() && #[trigger] opt_view(chars[k].folder_id)
                == Some(#[trigger] c[j]) ==> content_steps(c, docs, chars).contains(
                StepView::Character(chars[k].id@),
            ),
        forall|i: int|
            0 <= i < content_steps(c, docs, chars).len() && (#[trigger] content_steps(
                c,
                docs,
                chars,
            )[i] is Document) ==> exists|j: int, k: int|
                0 <= j < c.len() && 0 <= k < docs.len() && opt_view(docs[k].folder_id) == Some(c[j])
                    && content_steps(c, docs, chars)[i] == StepView::Document(docs[k].id@),
        forall|i: int|
            0 <= i < content_steps(c, docs, chars).len() && (#[trigger] content_steps(
                c,
                docs,
                chars,
            )[i] is Character) ==> exists|j: int, k: int|
                0 <= j < c.len() && 0 <= k < chars.len() && opt_view(chars[k].folder_id) == Some(
                    c[j],
                ) && content_steps(c, docs, chars)[i] == StepView::Character(chars[k].id@),
    decreases c.len(),
{
    if c.len() > 0 {
        let p = c.drop_last();
        lemma_content_shape(p, docs, chars);
        lemma_doc_steps_shape(docs, c.last());
        lemma_char_steps_shape(chars, c.last());
        let a = content_steps(p, docs, chars);
        let b = doc_steps(docs, c.last());
        let e = char_steps(chars, c.last());
        let all = content_steps(c, docs, chars);
        assert(all == a + b + e);
        assert forall|i: int| 0 <= i < all.len() implies !(#[trigger] all[i] is Folder) by {
            if i < a.len() {
                assert(all[i] == a[i]);
            } else if i < a.len() + b.len() {
                assert(all[i] == b[i - a.len()]);
            } else {
                assert(all[i] == e[i - a.len() - b.len()]);
            }
        }
        let last = c.len() - 1;
        assert forall|i: int| 0 <= i < all.len() && (#[trigger] all[i] is Document) implies exists|
            j: int,
            k: int,
        |
            0 <= j < c.len() && 0 <= k < docs.len() && opt_view(docs[k].folder_id) == Some(c[j])
                && all[i] == StepView::Document(docs[k].id@) by {
            if i < a.len() {
                assert(all[i] == a[i]);
                let (j, k) = choose|j: int, k: int|
                    0 <= j < p.len() && 0 <= k < docs.len() && opt_view(docs[k].folder_id) == Some(
                        p[j],
                    ) && a[i] == StepView::Document(docs[k].id@);
                assert(c[j] == p[j]);
            } else if i < a.len() + b.len() {
                assert(all[i] == b[i - a.len()]);
                let k = choose|k: int|
                    0 <= k < docs.len() && opt_view(docs[k].folder_id) == Some(c.last())
                        && #[trigger] b[i - a.len()] == StepView::Document(docs[k].id@);
                assert(c[last] == c.last());
            } else {
                assert(all[i] == e[i - a.len() - b.len()]);
                let k = choose|k: int|
                    0 <= k < chars.len() && opt_view(chars[k].folder_id) == Some(c.last())
                        && #[trigger] e[i - a.len() - b.len()] == StepView::Character(chars[k].id@);
            }
        }
        assert forall|i: int| 0 <= i < all.len() && (#[trigger] all[i] is Character) implies exists|
            j: int,
            k: int,
        |
            0 <= j < c.len() && 0 <= k < chars.len() && opt_view(chars[k].folder_id) == Some(c[j])
                && all[i] == StepView::Character(chars[k].id@) by {
            if i < a.len() {
                assert(all[i] == a[i]);
                let (j, k) = choose|j: int, k: int|
                    0 <= j < p.len() && 0 <= k < chars.len() && opt_view(chars[k].folder_id) == Some(
                        p[j],
                    ) && a[i] == StepView::Character(chars[k].id@);
                assert(c[j] == p[j]);
            } else if i < a.len() + b.len() {
                assert(all[i] == b[i - a.len()]);
                let k = choose|k: int|
                    0 <= k < docs.len() && opt_view(docs[k].folder_id) == Some(c.last())
                        && #[trigger] b[i - a.len()] == StepView::Document(docs[k].id@);
            } else {
                assert(all[i] == e[i - a.len() - b.len()]);
                let k = choose|k: int|
                    0 <= k < chars.len() && opt_view(chars[k].folder_id) == Some(c.last())
                        && #[trigger] e[i - a.len() - b.len()] == StepView::Character(chars[k].id@);
                assert(c[last] == c.last());
            }
        }
        assert forall|j: int, k: int|
            0 <= j < c.len() && 0 <= k < docs.len() && #[trigger] opt_view(docs[k].folder_id)
                == Some(#[trigger] c[j]) implies all.contains(StepView::Document(docs[k].id@)) by {
            if j < p.len() {
                assert(p[j] == c[j]);
                let w = choose|w: int| 0 <= w < a.len() && a[w] == StepView::Document(docs[k].id@);
                assert(all[w] == a[w]);
            } else {
                let w = choose|w: int| 0 <= w < b.len() && b[w] == StepView::Document(docs[k].id@);
                assert(all[a.len() + w] == b[w]);
            }
        }
        assert forall|j: int, k: int|
            0 <= j < c.len() && 0 <= k < chars.len() && #[trigger] opt_view(chars[k].folder_id)
                == Some(#[trigger] c[j]) implies all.contains(StepView::Character(chars[k].id@)) by {
            if j < p.len() {
                assert(p[j] == c[j]);
                let w = choose|w: int|
                    0 <= w < a.len() && a[w] == StepView::Character(chars[k].id@);
                assert(all[w] == a[w]);
            } else {
                let w = choose|w: int|
                    0 <= w < e.len() && e[w] == StepView::Character(chars[k].id@);
                assert(all[a.len() + b.len() + w] == e[w]);
            }
        }
    }
}

/// Where in a plan the removal of a folder stands: after all content, and the
/// folder `c[m]` at position `content + (|c| - 1 - m)`.
proof fn lemma_plan_folder_positions(
    c: Seq<Seq<char>>,
    docs: Seq<Doc>,
    chars: Seq<CharacterEntry>,
)
    ensures
        plan_of(c, docs, chars).len() == content_steps(c, docs, chars).len() + c.len(),
        forall|s: int|
            0 <= s < plan_of(c, docs, chars).len() && (#[trigger] plan_of(c, docs, chars)[s] is Folder)
                ==> s >= content_steps(c, docs, chars).len() && plan_of(c, docs, chars)[s]
                == StepView::Folder(
                c[c.len() - 1 - (s - content_steps(c, docs, chars).len())],
            ),
        forall|m: int|
            0 <= m < c.len() ==> #[trigger] plan_of(c, docs, chars)[content_steps(
                c,
                docs,
                chars,
            ).len() + (c.len() - 1 - m)] == StepView::Folder(c[m]),
{
    lemma_folder_steps_index(c);
    lemma_content_shape(c, docs, chars);
    let a = content_steps(c, docs, chars);
    let p = plan_of(c, docs, chars);
    assert forall|s: int| 0 <= s < p.len() && (#[trigger] p[s] is Folder) implies s >= a.len()
        && p[s] == StepView::Folder(c[c.len() - 1 - (s - a.len())]) by {
        if s < a.len() {
            assert(p[s] == a[s]);
        } else {
            assert(p[s] == folder_steps(c)[s - a.len()]);
        }
    }
    assert forall|m: int| 0 <= m < c.len() implies #[trigger] p[a.len() + (c.len() - 1 - m)]
        == StepView::Folder(c[m]) by {
        assert(p[a.len() + (c.len() - 1 - m)] == folder_steps(c)[c.len() - 1 - m]);
    }
}

/// Deleting a folder removes exactly the folders of its subtree and exactly
/// the documents and characters lying in one of them (rows, mirror files and
/// asset directories), and leaves no remaining folder whose parent was removed.
pub proof fn lemma_deletion_closure(
    folders: Seq<Folder>,
    docs: Seq<Doc>,
    chars: Seq<CharacterEntry>,
    target: Seq<char>,
    plan: Seq<StepView>,
)
    requires
        is_deletion_plan(folders, docs, chars, target, plan),
    ensures
        forall|x: Seq<char>| #[trigger] removes_folder(plan, x) <==> in_subtree(folders, target, x),
        forall|k: int|
            0 <= k < docs.len() && (#[trigger] docs[k].folder_id).is_some() && in_subtree(
                folders,
                target,
                docs[k].folder_id.unwrap()@,
            ) ==> removes_document(plan, docs[k].id@),
        forall|k: int|
            0 <= k < chars.len() && (#[trigger] chars[k].folder_id).is_some() && in_subtree(
                folders,
                target,
                chars[k].folder_id.unwrap()@,
            ) ==> removes_character(plan, chars[k].id@),
        forall|k: int|
            0 <= k < folders.len() && !removes_folder(plan, folders[k].id@) && (
            #[trigger] folders[k].parent_id).is_some() ==> !removes_folder(
                plan,
                folders[k].parent_id.unwrap()@,
            ),
        forall|d: Seq<char>| #[trigger]
            removes_document(plan, d) ==> exists|k: int|
                0 <= k < docs.len() && docs[k].id@ == d && (#[trigger] docs[k].folder_id).is_some()
                    && in_subtree(folders, target, docs[k].folder_id.unwrap()@),
        forall|e: Seq<char>| #[trigger]
            removes_character(plan, e) ==> exists|k: int|
                0 <= k < chars.len() && chars[k].id@ == e && (#[trigger] chars[k].folder_id).is_some()
                    && in_subtree(folders, target, chars[k].folder_id.unwrap()@),
{
    let c = choose|c: Seq<Seq<char>>|
        is_discovery_order(folders, target, c) && plan == #[trigger] plan_of(c, docs, chars);
    lemma_plan_folder_positions(c, docs, chars);
    lemma_content_shape(c, docs, chars);
    let a = content_steps(c, docs, chars);
    assert forall|x: Seq<char>| #[trigger] removes_folder(plan, x) <==> c.contains(x) by {
        if removes_folder(plan, x) {
            let s = choose|s: int| 0 <= s < plan.len() && plan[s] == StepView::Folder(x);
            assert(plan[s] is Folder);
            assert(c[c.len() - 1 - (s - a.len())] == x);
        }
        if c.contains(x) {
            let m = choose|m: int| 0 <= m < c.len() && c[m] == x;
            assert(plan[a.len() + (c.len() - 1 - m)] == StepView::Folder(c[m]));
        }
    }
    assert forall|x: Seq<char>| #[trigger] removes_folder(plan, x) <==> in_subtree(
        folders,
        target,
        x,
    ) by {
        if c.contains(x) {
            let m = choose|m: int| 0 <= m < c.len() && c[m] == x;
            assert(in_subtree(folders, target, c[m]));
        }
    }
    assert forall|k: int|
        0 <= k < docs.len() && (#[trigger] docs[k].folder_id).is_some() && in_subtree(
            folders,
            target,
            docs[k].folder_id.unwrap()@,
        ) implies removes_document(plan, docs[k].id@) by {
        let f = docs[k].folder_id.unwrap()@;
        assert(c.contains(f));
        let j = choose|j: int| 0 <= j < c.len() && c[j] == f;
        assert(opt_view(docs[k].folder_id) == Some(c[j]));
        let w = choose|w: int| 0 <= w < a.len() && a[w] == StepView::Document(docs[k].id@);
        assert(plan[w] == a[w]);
    }
    assert forall|k: int|
        0 <= k < chars.len() && (#[trigger] chars[k].folder_id).is_some() && in_subtree(
            folders,
            target,
            chars[k].folder_id.unwrap()@,
        ) implies removes_character(plan, chars[k].id@) by {
        let f = chars[k].folder_id.unwrap()@;
        assert(c.contains(f));
        let j = choose|j: int| 0 <= j < c.len() && c[j] == f;
        assert(opt_view(chars[k].folder_id) == Some(c[j]));
        let w = choose|w: int| 0 <= w < a.len() && a[w] == StepView::Character(chars[k].id@);
        assert(plan[w] == a[w]);
    }
    assert forall|k: int|
        0 <= k < folders.len() && !removes_folder(plan, folders[k].id@) && (
        #[trigger] folders[k].parent_id).is_some() implies !removes_folder(
        plan,
        folders[k].parent_id.unwrap()@,
    ) by {
        let p = folders[k].parent_id.unwrap()@;
        if removes_folder(plan, p) {
            let j = choose|j: int| 0 <= j < c.len() && c[j] == p;
            assert(opt_view(folders[k].parent_id) == Some(c[j]));
            assert(c.contains(folders[k].id@));
        }
    }
    assert forall|d: Seq<char>| #[trigger] removes_document(plan, d) implies exists|k: int|
        0 <= k < docs.len() && docs[k].id@ == d && (#[trigger] docs[k].folder_id).is_some()
            && in_subtree(folders, target, docs[k].folder_id.unwrap()@) by {
        let s = choose|s: int| 0 <= s < plan.len() && plan[s] == StepView::Document(d);
        if s >= a.len() {
            let m = c.len() - 1 - (s - a.len());
            assert(plan[a.len() + (c.len() - 1 - m)] == StepView::Folder(c[m]));
        }
        assert(plan[s] == a[s]);
        assert(a[s] is Document);
        let (j, k) = choose|j: int, k: int|
            0 <= j < c.len() && 0 <= k < docs.len() && opt_view(docs[k].folder_id) == Some(c[j])
                && a[s] == StepView::Document(docs[k].id@);
        assert(in_subtree(folders, target, c[j]));
        assert(docs[k].folder_id.unwrap()@ == c[j]);
    }
    assert forall|e: Seq<char>| #[trigger] removes_character(plan, e) implies exists|k: int|
        0 <= k < chars.len() && chars[k].id@ == e && (#[trigger] chars[k].folder_id).is_some()
            && in_subtree(folders, target, chars[k].folder_id.unwrap()@) by {
        let s = choose|s: int| 0 <= s < plan.len() && plan[s] == StepView::Character(e);
        if s >= a.len() {
            let m = c.len() - 1 - (s - a.len());
            assert(plan[a.len() + (c.len() - 1 - m)] == StepView::Folder(c[m]));
        }
        assert(plan[s] == a[s]);
        assert(a[s] is Character);
        let (j, k) = choose|j: int, k: int|
            0 <= j < c.len() && 0 <= k < chars.len() && opt_view(chars[k].folder_id) == Some(c[j])
                && a[s] == StepView::Character(chars[k].id@);
        assert(in_subtree(folders, target, c[j]));
        assert(chars[k].folder_id.unwrap()@ == c[j]);
    }
}

/// During a tree deletion over folder rows with unique ids and no folder below
/// itself, a folder row is removed only after every folder row naming it as
/// parent has been removed.
pub proof fn lemma_reverse_order(
    folders: Seq<Folder>,
    docs: Seq<Doc>,
    chars: Seq<CharacterEntry>,
    target: Seq<char>,
    plan: Seq<StepView>,
)
    requires
        unique_folder_ids(folders),
        acyclic(folders),
        is_deletion_plan(folders, docs, chars, target, plan),
    ensures
        forall|s: int, k: int|
            #![trigger plan[s], folders[k]]
            0 <= s < plan.len() && plan[s] is Folder && 0 <= k < folders.len() && opt_view(
                folders[k].parent_id,
            ) == Some(plan[s]->Folder_0) ==> removes_folder(plan.take(s), folders[k].id@),
{
    let c = choose|c: Seq<Seq<char>>|
        is_discovery_order(folders, target, c) && plan == #[trigger] plan_of(c, docs, chars);
    lemma_plan_folder_positions(c, docs, chars);
    let a = content_steps(c, docs, chars);
    assert forall|s: int, k: int|
        #![trigger plan[s], folders[k]]
        0 <= s < plan.len() && plan[s] is Folder && 0 <= k < folders.len() && opt_view(
            folders[k].parent_id,
        ) == Some(plan[s]->Folder_0) implies removes_folder(plan.take(s), folders[k].id@) by {
        let x = plan[s]->Folder_0;
        let i = c.len() - 1 - (s - a.len());
        assert(c[i] == x);
        assert(opt_view(folders[k].parent_id) == Some(c[i]));
        assert(c.contains(folders[k].id@));
        let m = choose|m: int| 0 <= m < c.len() && c[m] == folders[k].id@;
        if m == 0 {
            // the target would lie below itself
            assert(in_subtree(folders, target, c[i]));
            let n = choose|n: nat| #[trigger] below(folders, target, c[i], n);
            assert(is_child_of(folders, target, c[i]));
            lemma_below_step(folders, target, c[i], target, n);
            assert(false);
        } else {
            let from = choose|from: Seq<int>| #[trigger] breadth_first_parents(folders, c, from);
            let j = from[m];
            assert(0 <= j < m && is_child_of(folders, c[m], c[j]));
            let k2 = choose|k2: int|
                0 <= k2 < folders.len() && #[trigger] folders[k2].id@ == c[m] && opt_view(
                    folders[k2].parent_id,
                ) == Some(c[j]);
            assert(k2 == k);
            assert(c[j] == c[i]);
            assert(j == i);
            let pos = a.len() + (c.len() - 1 - m);
            assert(plan[pos] == StepView::Folder(c[m]));
            assert(pos < s);
            assert(plan.take(s)[pos] == StepView::Folder(folders[k].id@));
        }
    }
}

} // verus!
