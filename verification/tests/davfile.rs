use webdav_server::davfile::{SeekPos, SqliteDavFile};
use webdav_server::filesystem::{FsError, NoteData, SqliteFs};

fn note(content: &str) -> NoteData {
    NoteData {
        id: "n1".to_string(),
        title: "hello".to_string(),
        content: content.to_string(),
        syntax: "md".to_string(),
        created_at: Some("2024-01-01 00:00:00".to_string()),
        updated_at: Some("2024-01-02 00:00:00".to_string()),
    }
}

fn fs() -> SqliteFs {
    SqliteFs::new("file:davfile_tests_unused?mode=memory&cache=shared".to_string(), "u".to_string())
}

#[test]
fn read_only_file_reads_its_note() {
    let mut f = SqliteDavFile::new(note("hello world"), fs());
    assert_eq!(f.read_bytes(5), b"hello".to_vec());
    assert_eq!(f.read_bytes(100), b" world".to_vec());
    assert_eq!(f.read_bytes(10), Vec::<u8>::new());
}

#[test]
fn read_only_file_refuses_writes() {
    let mut f = SqliteDavFile::new(note("abc"), fs());
    assert_eq!(f.write_bytes(b"xyz"), Err(FsError::Forbidden));
    assert_eq!(f.read_bytes(10), b"abc".to_vec());
    assert_eq!(f.flush(&mut fs().open_db().unwrap()), Ok(()));
}

#[test]
fn seeking_moves_the_cursor() {
    let mut f = SqliteDavFile::new(note("0123456789"), fs());
    assert_eq!(f.seek(SeekPos::Start(3)), Ok(3));
    assert_eq!(f.read_bytes(2), b"34".to_vec());
    assert_eq!(f.seek(SeekPos::Current(-4)), Ok(1));
    assert_eq!(f.seek(SeekPos::End(-1)), Ok(9));
    assert_eq!(f.read_bytes(5), b"9".to_vec());
    assert_eq!(f.seek(SeekPos::End(-11)), Err(FsError::GeneralFailure));
    assert_eq!(f.seek(SeekPos::Current(0)), Ok(10));
    assert_eq!(f.seek(SeekPos::End(5)), Ok(15));
    assert_eq!(f.read_bytes(5), Vec::<u8>::new());
}

#[test]
fn writes_overwrite_extend_and_pad() {
    let mut f = SqliteDavFile::new_writable(note("hello"), fs(), None, false);
    assert_eq!(f.write_bytes(b"J"), Ok(()));
    assert_eq!(f.seek(SeekPos::Start(0)), Ok(0));
    assert_eq!(f.read_bytes(100), b"Jello".to_vec());
    assert_eq!(f.seek(SeekPos::End(2)), Ok(7));
    assert_eq!(f.write_bytes(b"!"), Ok(()));
    assert_eq!(f.seek(SeekPos::Start(0)), Ok(0));
    assert_eq!(f.read_bytes(100), b"Jello\0\0!".to_vec());
}

#[test]
fn written_bytes_read_back() {
    let mut f = SqliteDavFile::new_writable(note("0123456789"), fs(), None, false);
    assert_eq!(f.seek(SeekPos::Start(4)), Ok(4));
    assert_eq!(f.write_bytes(b"abc"), Ok(()));
    assert_eq!(f.seek(SeekPos::Start(4)), Ok(4));
    assert_eq!(f.read_bytes(3), b"abc".to_vec());
    assert_eq!(f.seek(SeekPos::Start(0)), Ok(0));
    assert_eq!(f.read_bytes(100), b"0123abc789".to_vec());
}

#[test]
fn truncated_file_starts_empty() {
    let mut f = SqliteDavFile::new_writable(note("old content"), fs(), Some("p".to_string()), true);
    assert_eq!(f.read_bytes(100), Vec::<u8>::new());
    assert_eq!(f.write_bytes(b"new"), Ok(()));
    assert_eq!(f.seek(SeekPos::Start(0)), Ok(0));
    assert_eq!(f.read_bytes(100), b"new".to_vec());
}

#[test]
fn flush_refuses_bytes_that_are_not_utf8() {
    let mut f = SqliteDavFile::new_writable(note(""), fs(), None, true);
    assert_eq!(f.write_bytes(&[0xff, 0xfe]), Ok(()));
    assert_eq!(f.flush(&mut fs().open_db().unwrap()), Err(FsError::GeneralFailure));
}

#[test]
fn metadata_reports_the_notes_length_and_times() {
    let f = SqliteDavFile::new(note("héllo"), fs());
    let m = f.metadata();
    assert!(!m.is_dir);
    assert_eq!(m.len, 6);
    assert_eq!(m.created, Some(1_704_067_200));
    assert_eq!(m.modified, Some(1_704_153_600));
}
