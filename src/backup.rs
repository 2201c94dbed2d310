use vstd::prelude::*;
use crate::text::{padded, push_padded};
use crate::paths::{
    join, join_path, backups_dir, backups_dir_of, database_path, database_path_of, is_under,
    relative_of, path_is_under, relative_path,
};

verus! {

/// A UTC calendar time to the second.
#[derive(Debug)]
pub struct Timestamp {
    pub year: u32,
    pub month: u32,
    pub day: u32,
    pub hour: u32,
    pub minute: u32,
    pub second: u32,
}

impl Timestamp {
    /// Each field lies in its calendar range; the year has at most four digits
    /// and a leap second is allowed.
    pub open spec fn wf(&self) -> bool {
        &&& self.year <= 9999
        &&& 1 <= self.month <= 12
        &&& 1 <= self.day <= 31
        &&& self.hour < 24
        &&& self.minute < 60
        &&& self.second <= 60
    }

    /// The timestamp with the given fields, if they are in range.
    pub fn new(year: u32, month: u32, day: u32, hour: u32, minute: u32, second: u32) -> (r: Option<
        Timestamp,
    >)
        ensures
            r.is_some() <==> (Timestamp { year, month, day, hour, minute, second }).wf(),
            r.is_some() ==> r.unwrap() == (Timestamp { year, month, day, hour, minute, second }),
    {
        let t = Timestamp { year, month, day, hour, minute, second };
        if year <= 9999 && 1 <= month && month <= 12 && 1 <= day && day <= 31 && hour < 24
            && minute < 60 && second <= 60 {
            Some(t)
        } else {
            None
        }
    }
}

/// `YYYYMMDD_HHMMSS`
pub open spec fn stamp_of(t: Timestamp) -> Seq<char> {
    padded(t.year as nat, 4) + padded(t.month as nat, 2) + padded(t.day as nat, 2) + seq!['_']
        + padded(t.hour as nat, 2) + padded(t.minute as nat, 2) + padded(t.second as nat, 2)
}

/// `backup_YYYYMMDD_HHMMSS.zip`
pub open spec fn backup_name_of(t: Timestamp) -> Seq<char> {
    "backup_"@ + stamp_of(t) + ".zip"@
}

/// `<project>/backups/backup_YYYYMMDD_HHMMSS.zip`
pub open spec fn backup_path_of(project: Seq<char>, t: Timestamp) -> Seq<char> {
    join(backups_dir_of(project), backup_name_of(t))
}

/// The archive entry name of the catalog's storage file.
pub open spec fn database_entry_name() -> Seq<char> {
    "project.db"@
}

/// The time stamp text of `t`.
pub fn stamp(t: &Timestamp) -> (r: String)
    requires
        t.wf(),
    ensures
        r@ == stamp_of(*t),
{
    proof {
        reveal_strlit("_");
    }
    let mut s = String::new();
    push_padded(&mut s, t.year, 4);
    push_padded(&mut s, t.month, 2);
    push_padded(&mut s, t.day, 2);
    s.append("_");
    push_padded(&mut s, t.hour, 2);
    push_padded(&mut s, t.minute, 2);
    push_padded(&mut s, t.second, 2);
    assert(s@ =~= stamp_of(*t));
    s
}

/// The file name of a backup taken at `t`.
pub fn backup_name(t: &Timestamp) -> (r: String)
    requires
        t.wf(),
    ensures
        r@ == backup_name_of(*t),
{
    let mut s = String::from_str("backup_");
    let st = stamp(t);
    s.append(st.as_str());
    s.append(".zip");
    s
}

/// Where a backup taken at `t` is written.
pub fn backup_path(project: &str, t: &Timestamp) -> (r: String)
    requires
        t.wf(),
    ensures
        r@ == backup_path_of(project@, *t),
{
    let dir = backups_dir(project);
    let name = backup_name(t);
    join_path(dir.as_str(), name.as_str())
}

/// One entry of a backup archive: its name inside the archive and the file it
/// copies.
#[derive(Debug)]
pub struct ArchiveEntry {
    pub name: String,
    pub source: String,
}

/// Why a backup cannot be assembled.
#[derive(Debug)]
pub enum BackupError {
    /// A mirror file lies outside the project directory.
    OutsideProject(String),
}

/// The entries of a backup of `project` whose mirror directory holds the files
/// `mirror_files`: first the catalog's storage file under `project.db`, then each
/// mirror file, in the given order, under its path relative to the project.
/// Fails if a mirror file does not lie under the project directory.
pub fn backup_entries(project: &str, mirror_files: &Vec<String>) -> (r: Result<
    Vec<ArchiveEntry>,
    BackupError,
>)
    ensures
        r.is_ok() <==> forall|i: int|
            0 <= i < mirror_files@.len() ==> is_under(#[trigger] mirror_files@[i]@, project@),
        r.is_ok() ==> {
            let v = r.unwrap()@;
            &&& v.len() == mirror_files@.len() + 1
            &&& v[0].name@ == database_entry_name()
            &&& v[0].source@ == database_path_of(project@)
            &&& forall|i: int|
                0 <= i < mirror_files@.len() ==> (#[trigger] v[i + 1]).name@ == relative_of(
                    mirror_files@[i]@,
                    project@,
                ) && v[i + 1].source@ == mirror_files@[i]@
        },
        r matches Err(BackupError::OutsideProject(f)) ==> exists|i: int|
            0 <= i < mirror_files@.len() && mirror_files@[i]@ == f@ && !is_under(
                #[trigger] mirror_files@[i]@,
                project@,
            ),
{
    let mut v: Vec<ArchiveEntry> = Vec::new();
    v.push(ArchiveEntry { name: String::from_str("project.db"), source: database_path(project) });
    let mut i: usize = 0;
    while i < mirror_files.len()
        invariant
            i <= mirror_files@.len(),
            v@.len() == i + 1,
            v@[0].name@ == database_entry_name(),
            v@[0].source@ == database_path_of(project@),
            forall|j: int| 0 <= j < i ==> is_under(#[trigger] mirror_files@[j]@, project@),
            forall|j: int|
                0 <= j < i ==> (#[trigger] v@[j + 1]).name@ == relative_of(
                    mirror_files@[j]@,
                    project@,
                ) && v@[j + 1].source@ == mirror_files@[j]@,
        decreases mirror_files@.len() - i,
    {
        let f = &mirror_files[i];
        if !path_is_under(f.as_str(), project) {
            return Err(BackupError::OutsideProject(f.clone()));
        }
        let name = relative_path(f.as_str(), project);
        v.push(ArchiveEntry { name, source: f.clone() });
        i = i + 1;
    }
    Ok(v)
}

} // verus!
