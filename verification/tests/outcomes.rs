use webdav_server::filesystem::{
    existence, folder_lookup, folder_row, lookup_text, note_row, FsError, Lookup,
};
use webdav_server::store::DbError;

fn cols(v: &[Option<&str>]) -> Vec<Option<String>> {
    v.iter().map(|c| c.map(|s| s.to_string())).collect()
}

#[test]
fn folder_lookups_map_rows_misses_and_failures() {
    assert_eq!(folder_lookup(lookup_text(Ok(cols(&[Some("f1")])))), Ok(Some("f1".to_string())));
    assert_eq!(folder_lookup(lookup_text(Ok(cols(&[None])))), Err(FsError::GeneralFailure));
    assert_eq!(folder_lookup(lookup_text(Err(DbError::NoRows))), Ok(None));
    assert_eq!(folder_lookup(lookup_text(Err(DbError::Other("x".to_string())))), Err(FsError::GeneralFailure));
    assert!(matches!(lookup_text(Err(DbError::NoRows)), Lookup::Missing));
}

#[test]
fn existence_queries() {
    assert_eq!(existence(Ok(Vec::new())), Ok(true));
    assert_eq!(existence(Err(DbError::NoRows)), Ok(false));
    assert_eq!(existence(Err(DbError::Other("x".to_string()))), Err(FsError::GeneralFailure));
}

#[test]
fn rows_become_notes_and_folders() {
    let n = note_row(Ok(cols(&[Some("n1"), Some("t"), Some("c"), Some("md"), Some("a"), Some("b")]))).unwrap();
    assert_eq!((n.id.as_str(), n.title.as_str(), n.content.as_str(), n.syntax.as_str()), ("n1", "t", "c", "md"));
    assert!(matches!(note_row(Ok(cols(&[Some("n1"), None, Some("c"), Some("md"), Some("a"), Some("b")]))), Err(FsError::NotFound)));
    assert!(matches!(note_row(Err(DbError::NoRows)), Err(FsError::NotFound)));
    let f = folder_row(Ok(cols(&[Some("f1"), Some("Work"), Some("a"), Some("b")]))).unwrap();
    assert_eq!((f.id.as_str(), f.title.as_str()), ("f1", "Work"));
    assert!(matches!(folder_row(Err(DbError::Other("x".to_string()))), Err(FsError::NotFound)));
}
