use std::path::Path;
use std::path::PathBuf;

use webdav_server::db::validation::{validate_input_database, validate_output_path, MigrationError};

/// Looks up what the file system says of `path` and validates it as an
/// output path.
fn check_output_path(path: &Path) -> Result<(), MigrationError> {
    let text = path.to_string_lossy().to_string();
    let parent = path.parent().map(|p| p.to_string_lossy().to_string());
    let parent_exists = match &parent {
        Some(p) => Path::new(p).exists(),
        None => false,
    };
    // The output is written to the file itself when it exists, to the
    // directory it would be created in otherwise.
    let target = if path.exists() {
        path.to_path_buf()
    } else {
        match &parent {
            Some(p) if !p.is_empty() => Path::new(p).to_path_buf(),
            _ => Path::new(".").to_path_buf(),
        }
    };
    let writable = match target.metadata() {
        Ok(m) => !m.permissions().readonly(),
        Err(_) => false,
    };
    validate_output_path(&text, path.exists(), path.is_file(), parent.as_deref(), parent_exists, writable)
}

#[test]
fn test_validate_output_path_relative_current_dir() {
    // Should succeed - parent is current directory
    let path = PathBuf::from("new.sqlite");
    assert!(check_output_path(&path).is_ok());
}

#[test]
fn test_validate_output_path_explicit_current_dir() {
    // Should succeed - parent is explicit "."
    let path = PathBuf::from("./new.sqlite");
    assert!(check_output_path(&path).is_ok());
}

#[test]
fn test_validate_output_path_nonexistent_subdir() {
    // Should fail - subdirectory doesn't exist
    let path = PathBuf::from("definitely_nonexistent_directory_12345/new.sqlite");
    assert!(check_output_path(&path).is_err());
}

#[test]
fn test_validate_output_path_absolute_nonexistent() {
    // Should fail - absolute path with nonexistent parent
    let path = PathBuf::from("/definitely_nonexistent_path_xyz_12345/new.sqlite");
    let result = check_output_path(&path);
    assert!(result.is_err());
    if let Err(MigrationError::ParentDirNotFound(_)) = result {
        // Expected error type
    } else {
        panic!("Expected ParentDirNotFound error");
    }
}

#[test]
fn output_path_that_is_a_directory_is_refused() {
    let r = validate_output_path("out", true, false, Some(""), true, true);
    assert_eq!(r, Err(MigrationError::OutputNotAFile("out".to_string())));
}

#[test]
fn output_path_with_existing_parent_is_accepted() {
    assert!(validate_output_path("/tmp/x.sqlite", false, false, Some("/tmp"), true, true).is_ok());
    assert!(validate_output_path("/", false, false, None, false, true).is_ok());
}

#[test]
fn missing_parent_is_named_in_the_error() {
    let r = validate_output_path("a/b.sqlite", false, false, Some("a"), false, true);
    assert_eq!(r, Err(MigrationError::ParentDirNotFound("a".to_string())));
}

#[test]
fn input_database_must_exist() {
    let r = validate_input_database("nowhere.sqlite", false, false).err();
    assert_eq!(r, Some(MigrationError::InputNotFound("nowhere.sqlite".to_string())));
}

#[test]
fn input_database_must_be_a_file() {
    let r = validate_input_database("somedir", true, false).err();
    assert_eq!(r, Some(MigrationError::InputNotAFile("somedir".to_string())));
}

#[test]
fn input_database_that_does_not_open_is_invalid() {
    let r = validate_input_database("/definitely_nonexistent_path_xyz_12345/db.sqlite", true, true);
    match r.err() {
        Some(MigrationError::InvalidDatabase(p, _)) => {
            assert_eq!(p, "/definitely_nonexistent_path_xyz_12345/db.sqlite")
        }
        _ => panic!("expected InvalidDatabase"),
    }
}

#[test]
fn output_that_cannot_be_written_is_refused() {
    let r = validate_output_path("/proc/new.sqlite", false, false, Some("/proc"), true, false);
    assert_eq!(r, Err(MigrationError::OutputNotWritable("/proc/new.sqlite".to_string())));
    let r = validate_output_path("new.sqlite", false, false, Some(""), false, false);
    assert_eq!(r, Err(MigrationError::OutputNotWritable("new.sqlite".to_string())));
    let r = validate_output_path("old.sqlite", true, true, Some(""), true, false);
    assert_eq!(r, Err(MigrationError::OutputNotWritable("old.sqlite".to_string())));
}
