use rusqlite::Connection;

use webdav_server::davfile::SeekPos;
use webdav_server::filesystem::{
    folder_meta, note_meta, stmt_of, two_args, FolderData, FsError, NoteData, OpenFlags, ResolvedPath, SqliteFs,
};
use webdav_server::store::Db;

const SCHEMA: &str = "
CREATE TABLE folders (
  id TEXT PRIMARY KEY,
  title TEXT NOT NULL,
  parent_id TEXT REFERENCES folders(id) ON DELETE CASCADE,
  user_id TEXT NOT NULL,
  created_at DATETIME,
  updated_at DATETIME
);
CREATE TABLE notes (
  id TEXT PRIMARY KEY,
  title TEXT NOT NULL,
  content TEXT NOT NULL,
  syntax TEXT NOT NULL DEFAULT 'md',
  parent_id TEXT REFERENCES folders(id) ON DELETE CASCADE,
  user_id TEXT NOT NULL,
  created_at DATETIME,
  updated_at DATETIME
);
INSERT INTO folders VALUES ('f1', 'Work', NULL, 'alice', '2024-01-01 00:00:00', '2024-01-02 00:00:00');
INSERT INTO folders VALUES ('f2', 'Projects', 'f1', 'alice', '2024-01-01 00:00:00', '2024-01-02 00:00:00');
INSERT INTO folders VALUES ('f3', 'Private', NULL, 'bob', '2024-01-01 00:00:00', '2024-01-02 00:00:00');
INSERT INTO notes VALUES ('n1', 'todo', 'buy milk', 'md', NULL, 'alice', '2024-01-01 00:00:00', '2024-01-03 00:00:00');
INSERT INTO notes VALUES ('n2', 'plan', 'step one', 'txt', 'f1', 'alice', '2024-01-01 00:00:00', '2024-01-03 00:00:00');
INSERT INTO notes VALUES ('n3', 'secret', 'hidden', 'md', NULL, 'bob', '2024-01-01 00:00:00', '2024-01-03 00:00:00');
";

/// A shared in-memory database holding the sample data; it lives as long as
/// the returned connection.
fn fs_uri(name: &str) -> String {
    format!("file:{}?mode=memory&cache=shared", name)
}

fn setup(name: &str) -> (Connection, SqliteFs, Db) {
    let uri = fs_uri(name);
    let conn = Connection::open(&uri).unwrap();
    conn.execute_batch(SCHEMA).unwrap();
    let fs = SqliteFs::new(uri, "alice".to_string());
    let db = fs.open_db().unwrap();
    (conn, fs, db)
}

fn read_only() -> OpenFlags {
    OpenFlags { write: false, append: false, truncate: false, create: false, create_new: false }
}

fn append_only() -> OpenFlags {
    OpenFlags { write: false, append: true, truncate: false, create: false, create_new: false }
}

fn create_write() -> OpenFlags {
    OpenFlags { write: true, append: false, truncate: true, create: true, create_new: false }
}

#[test]
fn resolves_root_folders_and_notes() {
    let (_keep, fs, mut db) = setup("fs_resolve");
    assert!(matches!(fs.resolve_path(&mut db, "/"), Ok(ResolvedPath::Root)));
    assert!(matches!(fs.resolve_path(&mut db, "/Work/"), Ok(ResolvedPath::Folder { ref id }) if id == "f1"));
    assert!(matches!(fs.resolve_path(&mut db, "/Work/Projects"), Ok(ResolvedPath::Folder { ref id }) if id == "f2"));
    match fs.resolve_path(&mut db, "/Work/plan.txt") {
        Ok(ResolvedPath::Note { parent_id, title, syntax }) => {
            assert_eq!(parent_id.as_deref(), Some("f1"));
            assert_eq!(title, "plan");
            assert_eq!(syntax, "txt");
        }
        _ => panic!("expected a note"),
    }
    assert!(matches!(fs.resolve_path(&mut db, "/todo.md"), Ok(ResolvedPath::Note { parent_id: None, .. })));
    assert!(matches!(fs.resolve_path(&mut db, "/Missing/plan.txt"), Err(FsError::NotFound)));
    assert!(matches!(fs.resolve_path(&mut db, "/plan.txt"), Err(FsError::NotFound)));
    // another user's content is invisible
    assert!(matches!(fs.resolve_path(&mut db, "/Private"), Err(FsError::NotFound)));
    assert!(matches!(fs.resolve_path(&mut db, "/secret.md"), Err(FsError::NotFound)));
}

#[test]
fn lists_folders_then_notes() {
    let (_keep, fs, mut db) = setup("fs_list");
    let root = fs.read_dir(&mut db, "/").unwrap();
    let names: Vec<String> = root.iter().map(|l| l.name.clone()).collect();
    assert_eq!(names, vec!["Work".to_string(), "todo.md".to_string()]);
    assert!(root[0].meta.is_dir);
    assert_eq!(root[1].meta.len, 8);
    let work = fs.read_dir(&mut db, "/Work").unwrap();
    let names: Vec<String> = work.iter().map(|l| l.name.clone()).collect();
    assert_eq!(names, vec!["Projects".to_string(), "plan.txt".to_string()]);
    assert!(matches!(fs.read_dir(&mut db, "/todo.md"), Err(FsError::Forbidden)));
}

#[test]
fn metadata_of_paths() {
    let (_keep, fs, mut db) = setup("fs_meta");
    let root = fs.metadata(&mut db, "/").unwrap();
    assert!(root.is_dir && root.len == 0 && root.modified.is_none());
    let work = fs.metadata(&mut db, "/Work").unwrap();
    assert!(work.is_dir);
    assert_eq!(work.modified, Some(1_704_153_600));
    let todo = fs.metadata(&mut db, "/todo.md").unwrap();
    assert!(!todo.is_dir);
    assert_eq!(todo.len, 8);
    assert!(matches!(fs.metadata(&mut db, "/nothing"), Err(FsError::NotFound)));
    assert_eq!(fs.get_props(&mut db, "/nothing"), Ok(()));
}

#[test]
fn opens_notes_for_reading() {
    let (_keep, fs, mut db) = setup("fs_open_read");
    let mut f = fs.open(&mut db, "/todo.md", read_only()).unwrap();
    assert_eq!(f.read_bytes(100), b"buy milk".to_vec());
    assert_eq!(f.write_bytes(b"x"), Err(FsError::Forbidden));
    assert!(matches!(fs.open(&mut db, "/", read_only()), Err(FsError::Forbidden)));
    assert!(matches!(fs.open(&mut db, "/Work", read_only()), Err(FsError::Forbidden)));
    assert!(matches!(fs.open(&mut db, "/new.md", read_only()), Err(FsError::NotFound)));
}

#[test]
fn writes_new_and_existing_notes() {
    let (_keep, fs, mut db) = setup("fs_write");
    let mut f = fs.open(&mut db, "/Work/ideas.md", create_write()).unwrap();
    assert_eq!(f.write_bytes(b"first idea"), Ok(()));
    assert_eq!(f.flush(&mut db), Ok(()));
    let mut g = fs.open(&mut db, "/Work/ideas.md", read_only()).unwrap();
    assert_eq!(g.read_bytes(100), b"first idea".to_vec());

    let mut h = fs.open(&mut db, "/todo.md", create_write()).unwrap();
    assert_eq!(h.write_bytes(b"buy bread"), Ok(()));
    assert_eq!(h.flush(&mut db), Ok(()));
    let mut k = fs.open(&mut db, "/todo.md", read_only()).unwrap();
    assert_eq!(k.read_bytes(100), b"buy bread".to_vec());
    assert_eq!(k.seek(SeekPos::End(-5)), Ok(4));

    // no extension, and no such folder
    assert!(matches!(fs.open(&mut db, "/README", create_write()), Err(FsError::Forbidden)));
    assert!(matches!(fs.open(&mut db, "/Nope/a.md", create_write()), Err(FsError::NotFound)));
}

#[test]
fn creates_and_removes_folders() {
    let (_keep, fs, mut db) = setup("fs_dirs");
    // making a directory over WebDAV is refused and changes nothing
    assert_eq!(fs.create_dir("/Work/Archive"), Err(FsError::Forbidden));
    assert!(matches!(fs.resolve_path(&mut db, "/Work/Archive"), Err(FsError::NotFound)));
    assert_eq!(fs.create_dir("/"), Err(FsError::Forbidden));
    assert_eq!(fs.create_dir("/Nope/X"), Err(FsError::Forbidden));
    // the library can still create a folder
    assert!(fs.create_folder(&mut db, Some("f1"), "Archive").is_ok());
    assert!(matches!(fs.resolve_path(&mut db, "/Work/Archive"), Ok(ResolvedPath::Folder { .. })));
    assert_eq!(fs.create_folder(&mut db, Some("f1"), "Archive"), Err(FsError::Exists));
    assert_eq!(fs.remove_dir(&mut db, "/todo.md"), Err(FsError::Forbidden));
    assert_eq!(fs.remove_dir(&mut db, "/"), Err(FsError::Forbidden));
    assert_eq!(fs.remove_dir(&mut db, "/Work"), Ok(()));
    assert!(matches!(fs.resolve_path(&mut db, "/Work"), Err(FsError::NotFound)));
}

#[test]
fn removes_notes() {
    let (_keep, fs, mut db) = setup("fs_rm");
    assert_eq!(fs.remove_file(&mut db, "/Work"), Err(FsError::Forbidden));
    assert_eq!(fs.remove_file(&mut db, "/"), Err(FsError::Forbidden));
    assert_eq!(fs.remove_file(&mut db, "/todo.md"), Ok(()));
    assert!(matches!(fs.resolve_path(&mut db, "/todo.md"), Err(FsError::NotFound)));
    assert_eq!(fs.remove_file(&mut db, "/todo.md"), Err(FsError::NotFound));
}

#[test]
fn renames_notes_and_folders() {
    let (_keep, fs, mut db) = setup("fs_rename");
    assert_eq!(fs.rename(&mut db, "/todo.md", "/Work/todo.txt"), Ok(()));
    match fs.resolve_path(&mut db, "/Work/todo.txt") {
        Ok(ResolvedPath::Note { title, syntax, .. }) => {
            assert_eq!(title, "todo");
            assert_eq!(syntax, "txt");
        }
        _ => panic!("expected the moved note"),
    }
    // a note needs an extension
    assert_eq!(fs.rename(&mut db, "/Work/todo.txt", "/todo"), Err(FsError::Forbidden));
    // moving onto an existing note replaces it
    assert_eq!(fs.rename(&mut db, "/Work/todo.txt", "/Work/plan.txt"), Ok(()));
    let mut f = fs.open(&mut db, "/Work/plan.txt", read_only()).unwrap();
    assert_eq!(f.read_bytes(100), b"buy milk".to_vec());
    // folders
    assert_eq!(fs.rename(&mut db, "/Work/Projects", "/Projects"), Ok(()));
    assert!(matches!(fs.resolve_path(&mut db, "/Projects"), Ok(ResolvedPath::Folder { .. })));
    assert_eq!(fs.rename(&mut db, "/Work", "/Projects/Work"), Ok(()));
    assert_eq!(fs.rename(&mut db, "/Projects", "/Projects/Work/Inner"), Err(FsError::Forbidden));
    assert_eq!(fs.rename(&mut db, "/", "/x"), Err(FsError::Forbidden));
    assert_eq!(fs.rename(&mut db, "/Projects", "/"), Err(FsError::Forbidden));
}

#[test]
fn moving_onto_an_existing_folder_is_refused() {
    let (_keep, fs, mut db) = setup("fs_rename_exists");
    assert!(fs.create_folder(&mut db, None, "Projects").is_ok());
    assert_eq!(fs.rename(&mut db, "/Work/Projects", "/Projects"), Err(FsError::Exists));
}

#[test]
fn a_folder_is_never_moved_into_itself() {
    let (_keep, fs, mut db) = setup("fs_rename_self");
    assert_eq!(fs.rename(&mut db, "/Work", "/Work/Work"), Err(FsError::Forbidden));
    assert_eq!(fs.rename(&mut db, "/Work", "/Work/Projects/Work"), Err(FsError::Forbidden));
    assert!(matches!(fs.resolve_path(&mut db, "/Work"), Ok(ResolvedPath::Folder { .. })));
}

#[test]
fn listed_note_names_resolve_to_their_notes() {
    let (_keep, fs, mut db) = setup("fs_list_resolve");
    for listing in fs.read_dir(&mut db, "/Work").unwrap() {
        let path = format!("/Work/{}", listing.name);
        match fs.resolve_path(&mut db, &path) {
            Ok(ResolvedPath::Note { .. }) => assert!(!listing.meta.is_dir),
            Ok(ResolvedPath::Folder { .. }) => assert!(listing.meta.is_dir),
            _ => panic!("listed entry does not resolve"),
        }
    }
}

#[test]
fn another_users_notes_are_left_alone() {
    let (_keep, fs, mut db) = setup("fs_other_user");
    assert_eq!(fs.remove_file(&mut db, "/secret.md"), Err(FsError::NotFound));
    assert_eq!(fs.remove_dir(&mut db, "/Private"), Err(FsError::NotFound));
    assert_eq!(fs.rename(&mut db, "/secret.md", "/mine.md"), Err(FsError::NotFound));
    let bob = SqliteFs::new(fs_uri("fs_other_user"), "bob".to_string());
    let mut bob_db = bob.open_db().unwrap();
    assert!(matches!(bob.resolve_path(&mut bob_db, "/secret.md"), Ok(ResolvedPath::Note { .. })));
    assert!(matches!(bob.resolve_path(&mut bob_db, "/Private"), Ok(ResolvedPath::Folder { .. })));
    let names: Vec<String> = bob.read_dir(&mut bob_db, "/").unwrap().iter().map(|l| l.name.clone()).collect();
    assert_eq!(names, vec!["Private".to_string(), "secret.md".to_string()]);
}

#[test]
fn statement_parameters_are_scoped_to_the_user() {
    let (_keep, fs, _db) = setup("fs_scoped_args");
    let args = fs.scoped_args(vec![Some("t".to_string())], Some("p"));
    assert_eq!(args, vec![Some("t".to_string()), Some("p".to_string()), Some("alice".to_string())]);
    let top = fs.scoped_args(vec![], None);
    assert_eq!(top, vec![Some("alice".to_string())]);
    let s = stmt_of("SELECT 1", two_args("a", "b"));
    assert_eq!(s.sql, "SELECT 1");
    assert_eq!(s.args, vec![Some("a".to_string()), Some("b".to_string())]);
}

#[test]
fn metadata_of_stored_rows() {
    let note = NoteData {
        id: "n".to_string(),
        title: "t".to_string(),
        content: "héllo".to_string(),
        syntax: "md".to_string(),
        created_at: Some("2024-01-01 00:00:00".to_string()),
        updated_at: Some("2024-01-02 00:00:00".to_string()),
    };
    let m = note_meta(&note);
    assert!(!m.is_dir);
    assert_eq!(m.len, 6);
    assert_eq!(m.modified, Some(1_704_153_600));
    let folder = FolderData {
        id: "f".to_string(),
        title: "F".to_string(),
        created_at: Some("2024-01-01 00:00:00".to_string()),
        updated_at: Some("2024-01-01 00:00:00".to_string()),
    };
    let fm = folder_meta(&folder);
    assert!(fm.is_dir);
    assert_eq!(fm.len, 0);
    assert_eq!(fm.created, Some(1_704_067_200));
}

#[test]
fn flushing_a_file_stores_what_was_written() {
    let (_keep, fs, mut db) = setup("fs_flush_store");
    let mut f = fs.open(&mut db, "/Work/plan.txt", append_only()).unwrap();
    assert_eq!(f.seek(SeekPos::End(0)), Ok(8));
    assert_eq!(f.write_bytes(b", two"), Ok(()));
    assert_eq!(f.flush(&mut db), Ok(()));
    let mut g = fs.open(&mut db, "/Work/plan.txt", read_only()).unwrap();
    assert_eq!(g.read_bytes(100), b"step one, two".to_vec());
}

#[test]
fn storing_at_a_given_time_and_id_is_read_back() {
    let (_keep, fs, mut db) = setup("fs_store_at");
    let id = fs.store_note_at(&mut db, None, "fresh", "md", "body", "2024-05-05 10:00:00", "id-x".to_string());
    assert_eq!(id, Ok("id-x".to_string()));
    let n = fs.get_note(&mut db, None, "fresh", "md").unwrap();
    assert_eq!(n.id, "id-x");
    assert_eq!(n.content, "body");
    assert_eq!(n.created_at.as_deref(), Some("2024-05-05 10:00:00"));
    assert_eq!(n.updated_at.as_deref(), Some("2024-05-05 10:00:00"));
    // an existing note keeps its id and creation time
    let again = fs.store_note_at(&mut db, None, "fresh", "md", "new body", "2024-06-06 11:00:00", "id-y".to_string());
    assert_eq!(again, Ok("id-x".to_string()));
    let m = fs.get_note(&mut db, None, "fresh", "md").unwrap();
    assert_eq!(m.content, "new body");
    assert_eq!(m.created_at.as_deref(), Some("2024-05-05 10:00:00"));
    assert_eq!(m.updated_at.as_deref(), Some("2024-06-06 11:00:00"));
}

#[test]
fn folders_and_moves_at_a_given_time() {
    let (_keep, fs, mut db) = setup("fs_moves_at");
    let id = fs.create_folder_at(&mut db, Some("f1"), "Later", "2024-07-07 07:07:07", "fl".to_string());
    assert_eq!(id, Ok("fl".to_string()));
    assert_eq!(
        fs.create_folder_at(&mut db, Some("f1"), "Later", "2024-07-07 07:07:07", "other".to_string()),
        Err(FsError::Exists)
    );
    let folder = fs.get_folder_meta(&mut db, "fl").unwrap();
    assert_eq!(folder.title, "Later");
    assert_eq!(folder.created_at.as_deref(), Some("2024-07-07 07:07:07"));
    assert_eq!(
        fs.rename_note_at(&mut db, None, "todo", "md", Some("fl"), "todo", "txt", "2024-08-08 08:08:08"),
        Ok(())
    );
    let moved = fs.get_note(&mut db, Some("fl"), "todo", "txt").unwrap();
    assert_eq!(moved.id, "n1");
    assert_eq!(moved.content, "buy milk");
    assert_eq!(moved.updated_at.as_deref(), Some("2024-08-08 08:08:08"));
    assert_eq!(
        fs.rename_note_at(&mut db, None, "todo", "md", None, "x", "md", "2024-08-08 08:08:08"),
        Err(FsError::NotFound)
    );
    assert_eq!(fs.rename_folder_at(&mut db, "f1", Some("fl"), "Work", "2024-09-09 09:09:09"), Err(FsError::Forbidden));
    assert_eq!(fs.rename_folder_at(&mut db, "fl", None, "Top", "2024-09-09 09:09:09"), Ok(()));
    let top = fs.get_folder_meta(&mut db, "fl").unwrap();
    assert_eq!(top.title, "Top");
    assert_eq!(top.updated_at.as_deref(), Some("2024-09-09 09:09:09"));
}

#[test]
fn a_new_note_opens_empty_and_writable() {
    let (_keep, fs, _db) = setup("fs_new_file");
    let mut f = fs.file_over_new_note(
        "id-n".to_string(),
        "draft".to_string(),
        "md".to_string(),
        Some("f1".to_string()),
        "2024-01-02 00:00:00".to_string(),
    );
    assert!(f.writable());
    assert_eq!(f.note().id, "id-n");
    assert_eq!(f.note().title, "draft");
    assert_eq!(f.note().updated_at.as_deref(), Some("2024-01-02 00:00:00"));
    assert_eq!(f.note().created_at.as_deref(), Some("2024-01-02 00:00:00"));
    assert_eq!(f.read_bytes(10), Vec::<u8>::new());
    assert_eq!(f.write_bytes(b"x"), Ok(()));
}

#[test]
fn rows_without_times_are_listed_and_read() {
    let (keep, fs, mut db) = setup("fs_null_times");
    keep.execute_batch(
        "INSERT INTO notes VALUES ('n9', 'bare', 'plain', 'md', NULL, 'alice', NULL, NULL);
         INSERT INTO folders VALUES ('f9', 'Loose', NULL, 'alice', NULL, NULL);",
    )
    .unwrap();
    let names: Vec<String> = fs.read_dir(&mut db, "/").unwrap().iter().map(|l| l.name.clone()).collect();
    assert_eq!(
        names,
        vec!["Work".to_string(), "Loose".to_string(), "todo.md".to_string(), "bare.md".to_string()]
    );
    let meta = fs.metadata(&mut db, "/bare.md").unwrap();
    assert_eq!(meta.len, 5);
    assert_eq!(meta.modified, None);
    let folder = fs.metadata(&mut db, "/Loose").unwrap();
    assert!(folder.is_dir && folder.created.is_none());
    let mut f = fs.open(&mut db, "/bare.md", read_only()).unwrap();
    assert_eq!(f.read_bytes(100), b"plain".to_vec());
}

#[test]
fn the_top_is_answered_without_the_database() {
    let fs = SqliteFs::new("file:fs_top_unused?mode=memory&cache=shared".to_string(), "alice".to_string());
    let m = fs.top_metadata("/").unwrap();
    assert!(m.is_dir && m.len == 0 && m.modified.is_none());
    assert!(fs.top_metadata("/Work").is_none());
    assert_eq!(fs.top_open("//"), Some(FsError::Forbidden));
    assert_eq!(fs.top_open("/a.md"), None);
    assert!(fs.names_top(""));
    assert!(!fs.names_top("/x"));
}

#[test]
fn moving_a_note_back_restores_it() {
    let (_keep, fs, mut db) = setup("fs_move_back");
    assert_eq!(fs.rename(&mut db, "/todo.md", "/Work/todo.txt"), Ok(()));
    assert_eq!(fs.rename(&mut db, "/Work/todo.txt", "/todo.md"), Ok(()));
    let n = fs.get_note(&mut db, None, "todo", "md").unwrap();
    assert_eq!(n.id, "n1");
    assert_eq!(n.content, "buy milk");
    assert_eq!(n.created_at.as_deref(), Some("2024-01-01 00:00:00"));
    assert!(matches!(fs.resolve_path(&mut db, "/Work/todo.txt"), Err(FsError::NotFound)));
    let mut names: Vec<String> = fs.read_dir(&mut db, "/Work").unwrap().into_iter().map(|e| e.name).collect();
    names.sort();
    assert_eq!(names, vec!["Projects".to_string(), "plan.txt".to_string()]);
}

#[test]
fn storing_the_same_note_twice_adds_no_note() {
    let (_keep, fs, mut db) = setup("fs_store_twice");
    let first = fs.store_note_at(&mut db, Some("f1"), "again", "md", "same", "2024-05-05 10:00:00", "id-a".to_string());
    let second = fs.store_note_at(&mut db, Some("f1"), "again", "md", "same", "2024-05-06 10:00:00", "id-b".to_string());
    assert_eq!(first, Ok("id-a".to_string()));
    assert_eq!(second, Ok("id-a".to_string()));
    let mut names: Vec<String> = fs.read_dir(&mut db, "/Work").unwrap().into_iter().map(|e| e.name).collect();
    names.sort();
    assert_eq!(names, vec!["Projects".to_string(), "again.md".to_string(), "plan.txt".to_string()]);
    let n = fs.get_note(&mut db, Some("f1"), "again", "md").unwrap();
    assert_eq!(n.content, "same");
    assert_eq!(n.created_at.as_deref(), Some("2024-05-05 10:00:00"));
    assert_eq!(n.updated_at.as_deref(), Some("2024-05-06 10:00:00"));
}
