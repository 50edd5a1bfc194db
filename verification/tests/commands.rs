use webdav_server::cli::{default_host, Commands, ServeArgs, DEFAULT_PORT};
use webdav_server::commands::{charset_content_type, execute, guard_delete, server_config, unreadable_body, ServeError};

fn args(user_id: Option<&str>) -> ServeArgs {
    ServeArgs {
        database: "notes.db".to_string(),
        host: default_host(),
        port: DEFAULT_PORT,
        username: "admin".to_string(),
        password: "secret".to_string(),
        user_id: user_id.map(|s| s.to_string()),
    }
}

#[test]
fn user_id_defaults_to_username() {
    let c = server_config(args(None));
    assert_eq!(c.user_id, "admin");
    assert_eq!(c.addr, "127.0.0.1:4918");
    let c = server_config(args(Some("abc123def456")));
    assert_eq!(c.user_id, "abc123def456");
    assert_eq!(c.username, "admin");
    assert_eq!(c.password, "secret");
}

#[test]
fn serve_needs_the_database() {
    match execute(Commands::Serve(args(None)), false) {
        Err(ServeError::DatabaseNotFound(p)) => assert_eq!(p, "notes.db"),
        _ => panic!("expected DatabaseNotFound"),
    }
    let c = execute(Commands::Serve(args(None)), true).ok().unwrap();
    assert_eq!(c.db_path, "notes.db");
}

#[test]
fn custom_host_and_port() {
    let mut a = args(None);
    a.host = "0.0.0.0".to_string();
    a.port = 8080;
    assert_eq!(server_config(a).addr, "0.0.0.0:8080");
}

#[test]
fn deleting_the_root_is_refused() {
    let r = guard_delete(true, "/").unwrap();
    assert_eq!(r.status, 403);
    assert_eq!(r.body, "Cannot delete root directory");
    assert!(guard_delete(true, "").is_some());
    assert!(guard_delete(true, "//").is_some());
    assert!(guard_delete(true, "/a.md").is_none());
    assert!(guard_delete(false, "/").is_none());
}

#[test]
fn text_types_get_a_charset() {
    assert_eq!(charset_content_type("text/plain"), Some("text/plain; charset=utf-8".to_string()));
    assert_eq!(charset_content_type("text/html; charset=iso-8859-1"), None);
    assert_eq!(charset_content_type("application/xml"), None);
    let once = charset_content_type("text/markdown").unwrap();
    assert_eq!(charset_content_type(&once), None);
}

#[test]
fn unreadable_body_is_a_bad_request() {
    let r = unreadable_body();
    assert_eq!(r.status, 400);
    assert_eq!(r.body, "Bad Request");
}
