use vstd::prelude::*;
use crate::model::{Folder, Doc, CharacterEntry, opt_view};
use crate::closure::{texts, is_discovery_order, folder_closure};

verus! {

/// One removal performed by a tree deletion.
#[derive(Debug)]
pub enum RemovalStep {
    /// Delete the document row (its body and snapshots go with it) and remove
    /// its mirror file, tolerating its absence.
    Document(String),
    /// Delete the character row and remove its asset directory recursively,
    /// tolerating its absence.
    Character(String),
    /// Delete the folder row.
    Folder(String),
}

/// What a removal step names.
pub enum StepView {
    Document(Seq<char>),
    Character(Seq<char>),
    Folder(Seq<char>),
}

impl View for RemovalStep {
    type V = StepView;

    open spec fn view(&self) -> StepView {
        match self {
            RemovalStep::Document(id) => StepView::Document(id@),
            RemovalStep::Character(id) => StepView::Character(id@),
            RemovalStep::Folder(id) => StepView::Folder(id@),
        }
    }
}

/// The views of a list of steps.
pub open spec fn steps_view(v: Seq<RemovalStep>) -> Seq<StepView> {
    v.map_values(|s: RemovalStep| s@)
}

/// Removal of the documents of `docs` that lie directly in folder `fid`, in list order.
pub open spec fn doc_steps(docs: Seq<Doc>, fid: Seq<char>) -> Seq<StepView>
    decreases docs.len(),
{
    if docs.len() == 0 {
        Seq::empty()
    } else {
        let d = docs.last();
        let rest = doc_steps(docs.drop_last(), fid);
        if opt_view(d.folder_id) == Some(fid) {
            rest.push(StepView::Document(d.id@))
        } else {
            rest
        }
    }
}

/// Removal of the characters of `chars` that lie directly in folder `fid`, in list order.
pub open spec fn char_steps(chars: Seq<CharacterEntry>, fid: Seq<char>) -> Seq<StepView>
    decreases chars.len(),
{
    if chars.len() == 0 {
        Seq::empty()
    } else {
        let e = chars.last();
        let rest = char_steps(chars.drop_last(), fid);
        if opt_view(e.folder_id) == Some(fid) {
            rest.push(StepView::Character(e.id@))
        } else {
            rest
        }
    }
}

/// For each folder of `c` in order: its documents, then its characters.
pub open spec fn content_steps(
    c: Seq<Seq<char>>,
    docs: Seq<Doc>,
    chars: Seq<CharacterEntry>,
) -> Seq<StepView>
    decreases c.len(),
{
    if c.len() == 0 {
        Seq::empty()
    } else {
        content_steps(c.drop_last(), docs, chars) + doc_steps(docs, c.last()) + char_steps(
            chars,
            c.last(),
        )
    }
}

/// The folders of `c`, last discovered first.
pub open spec fn folder_steps(c: Seq<Seq<char>>) -> Seq<StepView>
    decreases c.len(),
{
    if c.len() == 0 {
        Seq::empty()
    } else {
        seq![StepView::Folder(c.last())] + folder_steps(c.drop_last())
    }
}

/// The removals for the folders `c`: all contents first, then the folders in
/// reverse discovery order.
pub open spec fn plan_of(c: Seq<Seq<char>>, docs: Seq<Doc>, chars: Seq<CharacterEntry>) -> Seq<
    StepView,
> {
    content_steps(c, docs, chars) + folder_steps(c)
}

/// `plan` is the tree deletion of `target` over the listed rows.
pub open spec fn is_deletion_plan(
    folders: Seq<Folder>,
    docs: Seq<Doc>,
    chars: Seq<CharacterEntry>,
    target: Seq<char>,
    plan: Seq<StepView>,
) -> bool {
    exists|c: Seq<Seq<char>>|
        is_discovery_order(folders, target, c) && plan == #[trigger] plan_of(c, docs, chars)
}

/// The step list removes the folder `id`.
pub open spec fn removes_folder(plan: Seq<StepView>, id: Seq<char>) -> bool {
    plan.contains(StepView::Folder(id))
}

/// The step list removes the document `id` with its mirror file.
pub open spec fn removes_document(plan: Seq<StepView>, id: Seq<char>) -> bool {
    plan.contains(StepView::Document(id))
}

/// The step list removes the character `id` with its asset directory.
pub open spec fn removes_character(plan: Seq<StepView>, id: Seq<char>) -> bool {
    plan.contains(StepView::Character(id))
}

fn push_doc_steps(out: &mut Vec<RemovalStep>, docs: &Vec<Doc>, fid: &String)
    ensures
        steps_view(final(out)@) == steps_view(old(out)@) + doc_steps(docs@, fid@),
{
    let ghost start = steps_view(out@);
    let mut k: usize = 0;
    while k < docs.len()
        invariant
            k <= docs@.len(),
            steps_view(out@) == start + doc_steps(docs@.take(k as int), fid@),
        decreases docs@.len() - k,
    {
        let ghost prev = out@;
        assert(docs@.take(k + 1).drop_last() =~= docs@.take(k as int));
        let hit = match &docs[k].folder_id {
            Some(f) => *f == *fid,
            None => false,
        };
        if hit {
            out.push(RemovalStep::Document(docs[k].id.clone()));
            assert(steps_view(out@) =~= steps_view(prev).push(StepView::Document(docs@[k as int].id@)));
        }
        k = k + 1;
    }
    assert(docs@.take(docs@.len() as int) =~= docs@);
}

fn push_char_steps(out: &mut Vec<RemovalStep>, chars: &Vec<CharacterEntry>, fid: &String)
    ensures
        steps_view(final(out)@) == steps_view(old(out)@) + char_steps(chars@, fid@),
{
    let ghost start = steps_view(out@);
    let mut k: usize = 0;
    while k < chars.len()
        invariant
            k <= chars@.len(),
            steps_view(out@) == start + char_steps(chars@.take(k as int), fid@),
        decreases chars@.len() - k,
    {
        let ghost prev = out@;
        assert(chars@.take(k + 1).drop_last() =~= chars@.take(k as int));
        let hit = match &chars[k].folder_id {
            Some(f) => *f == *fid,
            None => false,
        };
        if hit {
            out.push(RemovalStep::Character(chars[k].id.clone()));
            assert(steps_view(out@) =~= steps_view(prev).push(
                StepView::Character(chars@[k as int].id@),
            ));
        }
        k = k + 1;
    }
    assert(chars@.take(chars@.len() as int) =~= chars@);
}

/// The removal steps for the folder list `closure`: for each folder in order,
/// its documents and then its characters; after all of them, the folders
/// themselves, last listed first.
pub fn removal_steps(closure: &Vec<String>, docs: &Vec<Doc>, chars: &Vec<CharacterEntry>) -> (r:
    Vec<RemovalStep>)
    ensures
        steps_view(r@) == plan_of(texts(closure@), docs@, chars@),
{
    let ghost c = texts(closure@);
    let mut out: Vec<RemovalStep> = Vec::new();
    let mut i: usize = 0;
    while i < closure.len()
        invariant
            i <= closure@.len(),
            c == texts(closure@),
            steps_view(out@) == content_steps(c.take(i as int), docs@, chars@),
        decreases closure@.len() - i,
    {
        assert(c.take(i + 1).drop_last() =~= c.take(i as int));
        assert(c.take(i + 1).last() == closure@[i as int]@);
        push_doc_steps(&mut out, docs, &closure[i]);
        push_char_steps(&mut out, chars, &closure[i]);
        i = i + 1;
    }
    assert(c.take(c.len() as int) =~= c);
    let ghost content = steps_view(out@);
    let mut j: usize = closure.len();
    while j > 0
        invariant
            j <= closure@.len(),
            c == texts(closure@),
            steps_view(out@) + folder_steps(c.take(j as int)) == plan_of(c, docs@, chars@),
        decreases j,
    {
        let ghost prev = out@;
        assert(c.take(j as int).drop_last() =~= c.take(j - 1));
        out.push(RemovalStep::Folder(closure[j - 1].clone()));
        assert(steps_view(out@) =~= steps_view(prev).push(StepView::Folder(c[j - 1])));
        assert(steps_view(prev) + folder_steps(c.take(j as int)) =~= steps_view(out@)
            + folder_steps(c.take(j - 1)));
        j = j - 1;
    }
    assert(steps_view(out@) + folder_steps(c.take(0)) =~= steps_view(out@));
    out
}

/// Why a tree deletion cannot start.
#[derive(Debug)]
pub enum DeletionError {
    /// No folder row has the target id.
    NoSuchFolder(String),
}

/// Some folder row has id `id`.
pub open spec fn has_folder(folders: Seq<Folder>, id: Seq<char>) -> bool {
    exists|k: int| 0 <= k < folders.len() && #[trigger] folders[k].id@ == id
}

/// The tree deletion of folder `target`: its closure over the listed folders,
/// then the removal steps for it. A target that no folder row has is refused.
pub fn deletion_plan(
    folders: &Vec<Folder>,
    docs: &Vec<Doc>,
    chars: &Vec<CharacterEntry>,
    target: &String,
) -> (r: Result<Vec<RemovalStep>, DeletionError>)
    ensures
        r.is_err() <==> !has_folder(folders@, target@),
        r matches Err(DeletionError::NoSuchFolder(id)) ==> id@ == target@,
        r matches Ok(steps) ==> is_deletion_plan(folders@, docs@, chars@, target@, steps_view(steps@)),
{
    let mut k: usize = 0;
    let mut found = false;
    while k < folders.len()
        invariant
            k <= folders@.len(),
            found <==> exists|j: int| 0 <= j < k && #[trigger] folders@[j].id@ == target@,
        decreases folders@.len() - k,
    {
        if folders[k].id == *target {
            found = true;
        }
        k = k + 1;
    }
    if !found {
        return Err(DeletionError::NoSuchFolder(target.clone()));
    }
    let closure = folder_closure(folders, target);
    let r = removal_steps(&closure, docs, chars);
    assert(plan_of(texts(closure@), docs@, chars@) == steps_view(r@));
    Ok(r)
}

} // verus!
