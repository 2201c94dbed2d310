use vstd::prelude::*;
use crate::text::{decimal, push_decimal};

verus! {

/// `base` as a directory prefix: a separator is added unless `base` is empty or
/// already ends in one.
pub open spec fn dir_prefix(base: Seq<char>) -> Seq<char> {
    if base.len() == 0 || base.last() == '/' {
        base
    } else {
        base.push('/')
    }
}

/// The path `name` inside directory `base`.
pub open spec fn join(base: Seq<char>, name: Seq<char>) -> Seq<char> {
    dir_prefix(base) + name
}

/// `<project>/project.db`
pub open spec fn database_path_of(project: Seq<char>) -> Seq<char> {
    join(project, "project.db"@)
}

/// `<project>/md`
pub open spec fn mirror_dir_of(project: Seq<char>) -> Seq<char> {
    join(project, "md"@)
}

/// `<document id>.md`
pub open spec fn mirror_name_of(doc_id: Seq<char>) -> Seq<char> {
    doc_id + ".md"@
}

/// `<project>/md/<document id>.md`
pub open spec fn mirror_path_of(project: Seq<char>, doc_id: Seq<char>) -> Seq<char> {
    join(mirror_dir_of(project), mirror_name_of(doc_id))
}

/// `<project>/assets/characters/<character id>`
pub open spec fn asset_dir_of(project: Seq<char>, char_id: Seq<char>) -> Seq<char> {
    join(join(join(project, "assets"@), "characters"@), char_id)
}

/// `<project>/backups`
pub open spec fn backups_dir_of(project: Seq<char>) -> Seq<char> {
    join(project, "backups"@)
}

/// The temporary sibling that an atomic write of `name` goes through:
/// `<name>.<nonce>.tmp`, where the caller picks `nonce` so that the name is not
/// in use (the write fails rather than reuse an existing file).
pub open spec fn temp_name_of(name: Seq<char>, nonce: nat) -> Seq<char> {
    name + seq!['.'] + decimal(nonce) + ".tmp"@
}

/// A fresh identifier made from a clock reading in nanoseconds: `d` and its digits.
pub open spec fn id_of(nanos: nat) -> Seq<char> {
    seq!['d'] + decimal(nanos)
}

/// `base` as a directory is a prefix of `p`.
pub open spec fn is_under(p: Seq<char>, base: Seq<char>) -> bool {
    dir_prefix(base).len() <= p.len() && p.subrange(0, dir_prefix(base).len() as int) == dir_prefix(
        base,
    )
}

/// The path of `p` relative to directory `base`.
pub open spec fn relative_of(p: Seq<char>, base: Seq<char>) -> Seq<char> {
    p.subrange(dir_prefix(base).len() as int, p.len() as int)
}

/// Appends `name` to the path in `out`, with a separator where one is needed.
pub fn push_join(out: &mut String, name: &str)
    ensures
        final(out)@ == join(old(out)@, name@),
{
    proof {
        reveal_strlit("/");
    }
    let n = out.as_str().unicode_len();
    if n > 0 && out.as_str().get_char(n - 1) != '/' {
        out.append("/");
    }
    out.append(name);
}

/// The path `name` inside directory `base`.
pub fn join_path(base: &str, name: &str) -> (r: String)
    ensures
        r@ == join(base@, name@),
{
    let mut out = String::from_str(base);
    push_join(&mut out, name);
    out
}

/// Whether `p` lies under directory `base`.
pub fn path_is_under(p: &str, base: &str) -> (r: bool)
    ensures
        r == is_under(p@, base@),
{
    let pre = join_path(base, "");
    proof {
        reveal_strlit("");
        assert(pre@ =~= dir_prefix(base@));
    }
    let n = pre.as_str().unicode_len();
    let m = p.unicode_len();
    if n > m {
        return false;
    }
    let mut i: usize = 0;
    while i < n
        invariant
            n == pre@.len(),
            pre@ == dir_prefix(base@),
            m == p@.len(),
            n <= m,
            i <= n,
            forall|j: int| 0 <= j < i ==> p@[j] == pre@[j],
        decreases n - i,
    {
        let a = p.get_char(i);
        let b = pre.as_str().get_char(i);
        if a != b {
            assert(p@.subrange(0, n as int)[i as int] == a);
            assert(pre@[i as int] == b);
            assert(p@.subrange(0, n as int) != dir_prefix(base@));
            return false;
        }
        i = i + 1;
    }
    assert(p@.subrange(0, n as int) =~= pre@);
    true
}

/// The path of `p` relative to directory `base`, which it must lie under.
pub fn relative_path(p: &str, base: &str) -> (r: String)
    requires
        is_under(p@, base@),
    ensures
        r@ == relative_of(p@, base@),
{
    let pre = join_path(base, "");
    proof {
        reveal_strlit("");
        assert(pre@ =~= dir_prefix(base@));
    }
    let n = pre.as_str().unicode_len();
    let m = p.unicode_len();
    String::from_str(p.substring_char(n, m))
}

/// The catalog's storage file of a project.
pub fn database_path(project: &str) -> (r: String)
    ensures
        r@ == database_path_of(project@),
{
    join_path(project, "project.db")
}

/// The directory that holds a project's mirror files.
pub fn mirror_dir(project: &str) -> (r: String)
    ensures
        r@ == mirror_dir_of(project@),
{
    join_path(project, "md")
}

/// The file name of a document's mirror file.
pub fn mirror_name(doc_id: &str) -> (r: String)
    ensures
        r@ == mirror_name_of(doc_id@),
{
    let mut out = String::from_str(doc_id);
    out.append(".md");
    out
}

/// The mirror file of a document.
pub fn mirror_path(project: &str, doc_id: &str) -> (r: String)
    ensures
        r@ == mirror_path_of(project@, doc_id@),
{
    let dir = mirror_dir(project);
    let name = mirror_name(doc_id);
    join_path(dir.as_str(), name.as_str())
}

/// The asset directory of a character.
pub fn asset_dir(project: &str, char_id: &str) -> (r: String)
    ensures
        r@ == asset_dir_of(project@, char_id@),
{
    let mut out = String::from_str(project);
    push_join(&mut out, "assets");
    push_join(&mut out, "characters");
    push_join(&mut out, char_id);
    out
}

/// The directory that holds a project's backups.
pub fn backups_dir(project: &str) -> (r: String)
    ensures
        r@ == backups_dir_of(project@),
{
    join_path(project, "backups")
}

/// The temporary file name used while `name` is written atomically.
pub fn temp_name(name: &str, nonce: u128) -> (r: String)
    ensures
        r@ == temp_name_of(name@, nonce as nat),
{
    proof {
        reveal_strlit(".");
    }
    let mut out = String::from_str(name);
    out.append(".");
    push_decimal(&mut out, nonce);
    out.append(".tmp");
    assert(seq!['.'] =~= "."@);
    out
}

/// The identifier made from a clock reading of `nanos` nanoseconds since the epoch.
pub fn new_id(nanos: u128) -> (r: String)
    ensures
        r@ == id_of(nanos as nat),
{
    proof {
        reveal_strlit("d");
    }
    let mut out = String::from_str("d");
    push_decimal(&mut out, nanos);
    assert(seq!['d'] =~= "d"@);
    out
}

/// Mirror paths of distinct documents are distinct.
pub proof fn lemma_mirror_path_injective(project: Seq<char>, a: Seq<char>, b: Seq<char>)
    requires
        mirror_path_of(project, a) == mirror_path_of(project, b),
    ensures
        a == b,
{
    let pre = dir_prefix(mirror_dir_of(project));
    let x = pre + (a + ".md"@);
    let y = pre + (b + ".md"@);
    assert(x.len() == y.len());
    assert(a.len() == b.len());
    assert(a =~= x.subrange(pre.len() as int, (pre.len() + a.len()) as int));
    assert(b =~= y.subrange(pre.len() as int, (pre.len() + b.len()) as int));
}

} // verus!
