use project_store::assets::{check_image_source, image_destination, is_blank, ImportError};
use project_store::run::{DeletionRun, RunAction};
use project_store::backup::{backup_entries, backup_name, backup_path, stamp, BackupError, Timestamp};
use project_store::closure::folder_closure;
use project_store::fsplan::{atomic_write, cleanup_step, mirror_md, FsStep};
use project_store::model::{CharacterEntry, Doc, Folder};
use project_store::paths::{asset_dir, database_path, join_path, mirror_path, new_id, temp_name};
use project_store::plan::{deletion_plan, removal_steps, DeletionError, RemovalStep};
use project_store::profile::{
    character_record, initial_profile, profile_fields, FieldValue, ProfileUpdate,
};
use project_store::workspace::{
    character_removal, doc_removal, ensure_within_workspace, folder_removal, PathKind,
    RemovalAction, RemovalError,
};

fn folder(id: &str, parent: Option<&str>) -> Folder {
    Folder { id: id.to_string(), name: format!("name {id}"), parent_id: parent.map(|p| p.to_string()) }
}

fn doc(id: &str, folder_id: Option<&str>) -> Doc {
    Doc { id: id.to_string(), title: format!("title {id}"), folder_id: folder_id.map(|p| p.to_string()) }
}

fn character(id: &str, folder_id: Option<&str>) -> CharacterEntry {
    CharacterEntry { id: id.to_string(), name: format!("name {id}"), folder_id: folder_id.map(|p| p.to_string()) }
}

fn describe(steps: &[RemovalStep]) -> Vec<String> {
    steps
        .iter()
        .map(|s| match s {
            RemovalStep::Document(id) => format!("doc {id}"),
            RemovalStep::Character(id) => format!("char {id}"),
            RemovalStep::Folder(id) => format!("folder {id}"),
        })
        .collect()
}

fn describe_fs(steps: &[FsStep]) -> Vec<String> {
    steps
        .iter()
        .map(|s| match s {
            FsStep::CreateDirAll(d) => format!("mkdir {d}"),
            FsStep::CreateNew(p, t) => format!("create {p} {t}"),
            FsStep::SyncFile(p) => format!("sync {p}"),
            FsStep::Rename(a, b) => format!("rename {a} {b}"),
            FsStep::SyncDir(d) => format!("syncdir {d}"),
            FsStep::RemoveFile(p) => format!("rm {p}"),
            FsStep::RemoveTree(d) => format!("rmtree {d}"),
        })
        .collect()
}

#[test]
fn new_id_is_d_and_digits() {
    assert_eq!(new_id(0), "d0");
    assert_eq!(new_id(7), "d7");
    assert_eq!(new_id(1_700_000_000_123_456_789), "d1700000000123456789");
    assert_eq!(new_id(u128::MAX), format!("d{}", u128::MAX));
}

#[test]
fn layout_paths() {
    assert_eq!(database_path("/p/novel"), "/p/novel/project.db");
    assert_eq!(mirror_path("/p/novel", "d1"), "/p/novel/md/d1.md");
    assert_eq!(mirror_path("/p/novel/", "d1"), "/p/novel/md/d1.md");
    assert_eq!(asset_dir("/p/novel", "c1"), "/p/novel/assets/characters/c1");
    assert_eq!(join_path("", "x"), "x");
    assert_eq!(temp_name("d1.md", 42), "d1.md.42.tmp");
}

#[test]
fn closure_of_nested_tree() {
    let folders = vec![
        folder("b", Some("a")),
        folder("a", None),
        folder("c", Some("b")),
        folder("x", None),
        folder("d", Some("a")),
        folder("y", Some("x")),
    ];
    let c = folder_closure(&folders, &"a".to_string());
    assert_eq!(c, vec!["a", "b", "d", "c"]);
    let leaf = folder_closure(&folders, &"c".to_string());
    assert_eq!(leaf, vec!["c"]);
    let unknown = folder_closure(&folders, &"zz".to_string());
    assert_eq!(unknown, vec!["zz"]);
}

#[test]
fn closure_stops_on_cycle() {
    let folders = vec![folder("a", Some("b")), folder("b", Some("a"))];
    let c = folder_closure(&folders, &"a".to_string());
    assert_eq!(c, vec!["a", "b"]);
}

#[test]
fn deletion_plan_removes_content_then_folders_leaves_first() {
    let folders = vec![folder("r", None), folder("s", Some("r")), folder("t", Some("s")), folder("o", None)];
    let docs = vec![doc("d1", Some("t")), doc("d2", Some("r")), doc("d3", Some("o")), doc("d4", None)];
    let chars = vec![character("c1", Some("s")), character("c2", None)];
    let plan = deletion_plan(&folders, &docs, &chars, &"r".to_string()).unwrap();
    assert_eq!(
        describe(&plan),
        vec!["doc d2", "char c1", "doc d1", "folder t", "folder s", "folder r"]
    );
}

#[test]
fn deletion_never_removes_a_parent_before_its_child() {
    let folders = vec![folder("r", None), folder("s", Some("r")), folder("t", Some("s")), folder("u", Some("r"))];
    let plan = deletion_plan(&folders, &vec![], &vec![], &"r".to_string()).unwrap();
    let order: Vec<String> = plan
        .iter()
        .filter_map(|s| match s {
            RemovalStep::Folder(id) => Some(id.clone()),
            _ => None,
        })
        .collect();
    for f in &folders {
        if let Some(p) = &f.parent_id {
            let child_at = order.iter().position(|x| *x == f.id).unwrap();
            let parent_at = order.iter().position(|x| x == p).unwrap();
            assert!(child_at < parent_at);
        }
    }
}

#[test]
fn removal_steps_of_given_closure() {
    let closure = vec!["a".to_string(), "b".to_string()];
    let docs = vec![doc("d1", Some("b")), doc("d2", Some("a")), doc("d3", Some("a"))];
    let steps = removal_steps(&closure, &docs, &vec![character("c1", Some("b"))]);
    assert_eq!(describe(&steps), vec!["doc d2", "doc d3", "doc d1", "char c1", "folder b", "folder a"]);
}

#[test]
fn atomic_write_goes_through_temporary_sibling() {
    let steps = atomic_write("/p/md", "d1.md", "hello", 17);
    assert_eq!(
        describe_fs(&steps),
        vec![
            "mkdir /p/md",
            "create /p/md/d1.md.17.tmp hello",
            "sync /p/md/d1.md.17.tmp",
            "rename /p/md/d1.md.17.tmp /p/md/d1.md",
            "syncdir /p/md",
        ]
    );
}

#[test]
fn scenario_folder_document_save_and_delete() {
    let folders = vec![Folder { id: "f1".into(), name: "Chapter 1".into(), parent_id: None }];
    let docs = vec![Doc { id: "d1".into(), title: "Scene A".into(), folder_id: Some("f1".into()) }];
    let created = mirror_md("/proj", "d1", "# New Document", 5);
    assert_eq!(describe_fs(&created)[1], "create /proj/md/d1.md.5.tmp # New Document");
    let saved = mirror_md("/proj", "d1", "# Scene A\nText", 6);
    match &saved[3] {
        FsStep::Rename(from, to) => {
            assert_eq!(from, "/proj/md/d1.md.6.tmp");
            assert_eq!(to, "/proj/md/d1.md");
        }
        other => panic!("unexpected step {other:?}"),
    }
    match &saved[1] {
        FsStep::CreateNew(_, text) => assert_eq!(text, "# Scene A\nText"),
        other => panic!("unexpected step {other:?}"),
    }
    let plan = deletion_plan(&folders, &docs, &vec![], &"f1".to_string()).unwrap();
    assert_eq!(describe(&plan), vec!["doc d1", "folder f1"]);
    let cleanup: Vec<FsStep> = plan.iter().filter_map(|s| cleanup_step("/proj", s)).collect();
    assert_eq!(describe_fs(&cleanup), vec!["rm /proj/md/d1.md"]);
}

#[test]
fn cleanup_of_character_removes_asset_tree() {
    let c = cleanup_step("/proj", &RemovalStep::Character("c1".into())).unwrap();
    assert_eq!(describe_fs(&[c]), vec!["rmtree /proj/assets/characters/c1"]);
    assert!(cleanup_step("/proj", &RemovalStep::Folder("f".into())).is_none());
}

#[test]
fn scenario_character_profile_round() {
    let initial = initial_profile();
    assert_eq!(initial.age, "");
    assert_eq!(initial.attributes, "[]");
    let update = ProfileUpdate {
        age: FieldValue::Text("30".into()),
        nationality: FieldValue::Missing,
        sexuality: FieldValue::Missing,
        height: FieldValue::Missing,
        attributes: FieldValue::Missing,
        image: FieldValue::Missing,
    };
    let stored = profile_fields(&update);
    let rec = character_record("c1", "Ada", None, stored);
    assert_eq!(rec.id, "c1");
    assert_eq!(rec.name, "Ada");
    assert_eq!(rec.folder_id, None);
    assert_eq!(rec.age.as_deref(), Some("30"));
    assert_eq!(rec.nationality.as_deref(), Some(""));
    assert_eq!(rec.sexuality.as_deref(), Some(""));
    assert_eq!(rec.height.as_deref(), Some(""));
    assert_eq!(rec.attributes.as_deref(), Some("[]"));
    assert_eq!(rec.image.as_deref(), Some(""));
}

#[test]
fn profile_attributes_rules() {
    let mk = |attributes: FieldValue| ProfileUpdate {
        age: FieldValue::Other(Some("30".into())),
        nationality: FieldValue::Text("Welsh".into()),
        sexuality: FieldValue::Missing,
        height: FieldValue::Text("180".into()),
        attributes,
        image: FieldValue::Text("a.png".into()),
    };
    let text = profile_fields(&mk(FieldValue::Text("[\"brave\"]".into())));
    assert_eq!(text.attributes, "[\"brave\"]");
    assert_eq!(text.age, "");
    assert_eq!(text.nationality, "Welsh");
    assert_eq!(text.height, "180");
    assert_eq!(text.image_path, "a.png");
    let other = profile_fields(&mk(FieldValue::Other(Some("[1,2]".into()))));
    assert_eq!(other.attributes, "[1,2]");
    let broken = profile_fields(&mk(FieldValue::Other(None)));
    assert_eq!(broken.attributes, "[]");
    let missing = profile_fields(&mk(FieldValue::Missing));
    assert_eq!(missing.attributes, "[]");
}

#[test]
fn backup_names_and_paths() {
    let t = Timestamp::new(2024, 3, 9, 7, 5, 0).unwrap();
    assert_eq!(stamp(&t), "20240309_070500");
    assert_eq!(backup_name(&t), "backup_20240309_070500.zip");
    assert_eq!(backup_path("/proj", &t), "/proj/backups/backup_20240309_070500.zip");
    let early = Timestamp::new(7, 12, 31, 23, 59, 60).unwrap();
    assert_eq!(stamp(&early), "00071231_235960");
    assert!(Timestamp::new(2024, 13, 1, 0, 0, 0).is_none());
    assert!(Timestamp::new(10000, 1, 1, 0, 0, 0).is_none());
    assert!(Timestamp::new(2024, 1, 0, 0, 0, 0).is_none());
}

#[test]
fn backup_holds_database_and_every_mirror_file() {
    let files: Vec<String> = (1..=3).map(|i| format!("/proj/md/d{i}.md")).collect();
    let entries = backup_entries("/proj", &files).unwrap();
    assert_eq!(entries.len(), 4);
    assert_eq!(entries[0].name, "project.db");
    assert_eq!(entries[0].source, "/proj/project.db");
    assert_eq!(entries[1].name, "md/d1.md");
    assert_eq!(entries[3].name, "md/d3.md");
    assert_eq!(entries[3].source, "/proj/md/d3.md");
    let empty = backup_entries("/proj", &vec![]).unwrap();
    assert_eq!(empty.len(), 1);
}

#[test]
fn backup_refuses_file_outside_project() {
    let files = vec!["/proj/md/a.md".to_string(), "/other/md/b.md".to_string()];
    match backup_entries("/proj", &files) {
        Err(BackupError::OutsideProject(f)) => assert_eq!(f, "/other/md/b.md"),
        other => panic!("unexpected {other:?}"),
    }
    let sibling = vec!["/projx/md/a.md".to_string()];
    assert!(backup_entries("/proj", &sibling).is_err());
}

#[test]
fn workspace_containment() {
    assert!(ensure_within_workspace("/w/a/b", "/w").is_ok());
    assert!(ensure_within_workspace("/w", "/w").is_ok());
    assert!(matches!(ensure_within_workspace("/wx/a", "/w"), Err(RemovalError::OutsideWorkspace)));
    assert!(matches!(ensure_within_workspace("/v/a", "/w"), Err(RemovalError::OutsideWorkspace)));
    assert!(ensure_within_workspace("/anything", "/").is_ok());
}

#[test]
fn removal_decisions_by_kind() {
    assert!(matches!(folder_removal(PathKind::Directory), Ok(RemovalAction::RemoveTree)));
    assert!(matches!(folder_removal(PathKind::File), Err(RemovalError::NotAFolder)));
    assert!(matches!(doc_removal(PathKind::File), Ok(RemovalAction::RemoveFile)));
    assert!(matches!(doc_removal(PathKind::Directory), Err(RemovalError::NotAFile)));
    assert!(matches!(character_removal(PathKind::Directory), Ok(RemovalAction::RemoveTree)));
    assert!(matches!(character_removal(PathKind::File), Ok(RemovalAction::RemoveFile)));
    assert!(matches!(character_removal(PathKind::Other), Err(RemovalError::NotFound)));
}

#[test]
fn deletion_run_stops_at_first_failure() {
    let steps = vec![
        RemovalStep::Document("d1".into()),
        RemovalStep::Document("d2".into()),
        RemovalStep::Folder("f".into()),
    ];
    let mut run = DeletionRun::new(steps);
    match run.next_action() {
        RunAction::Perform(RemovalStep::Document(id)) => assert_eq!(id, "d1"),
        other => panic!("unexpected {other:?}"),
    }
    run.record(true);
    match run.next_action() {
        RunAction::Perform(RemovalStep::Document(id)) => assert_eq!(id, "d2"),
        other => panic!("unexpected {other:?}"),
    }
    run.record(false);
    assert!(matches!(run.next_action(), RunAction::Failed));
}

#[test]
fn deletion_run_succeeds_after_every_step() {
    let mut run = DeletionRun::new(vec![RemovalStep::Folder("f".into())]);
    assert!(matches!(run.next_action(), RunAction::Perform(RemovalStep::Folder(_))));
    run.record(true);
    assert!(matches!(run.next_action(), RunAction::Succeeded));
    let empty = DeletionRun::new(vec![]);
    assert!(matches!(empty.next_action(), RunAction::Succeeded));
}

#[test]
fn image_source_and_destination() {
    assert!(matches!(check_image_source(""), Err(ImportError::EmptySource)));
    assert!(matches!(check_image_source(" \t\n"), Err(ImportError::EmptySource)));
    assert!(check_image_source(" a.png ").is_ok());
    assert!(is_blank("\u{2003}"));
    assert!(!is_blank("x"));
    assert_eq!(image_destination("/proj", "c1", "face.png"), "/proj/assets/characters/c1/face.png");
}

#[test]
fn new_document_body_text() {
    assert_eq!(project_store::fsplan::initial_body(), "# New Document");
}

#[test]
fn deletion_of_unknown_folder_is_refused() {
    let folders = vec![folder("a", None)];
    match deletion_plan(&folders, &vec![doc("d", Some("zz"))], &vec![], &"zz".to_string()) {
        Err(DeletionError::NoSuchFolder(id)) => assert_eq!(id, "zz"),
        other => panic!("unexpected {other:?}"),
    }
}

#[test]
fn closure_is_breadth_first() {
    // depth-first would give a, b, c, d
    let folders = vec![folder("a", None), folder("b", Some("a")), folder("c", Some("b")), folder("d", Some("a"))];
    assert_eq!(folder_closure(&folders, &"a".to_string()), vec!["a", "b", "d", "c"]);
}

#[test]
fn whitespace_table_matches_std() {
    for c in ['\t', '\n', '\u{b}', '\u{c}', '\r', ' ', '\u{85}', '\u{a0}', '\u{1680}', '\u{2000}', '\u{200a}', '\u{2028}', '\u{2029}', '\u{202f}', '\u{205f}', '\u{3000}'] {
        assert!(is_blank(&c.to_string()), "{:?}", c);
    }
    for c in ['a', '\u{8}', '\u{e}', '\u{200b}', '\u{feff}', '\u{180e}'] {
        assert!(!is_blank(&c.to_string()), "{:?}", c);
    }
    assert!(matches!(check_image_source("   "), Err(ImportError::EmptySource)));
}
