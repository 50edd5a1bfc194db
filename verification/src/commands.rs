//! The `serve` command and the decisions taken for every request: who may
//! come in, what is refused before the WebDAV handler sees it, and how the
//! response's content type is completed.

use vstd::prelude::*;
use vstd::utf8::encode_utf8;
use crate::auth::{AuthError, Credentials};
use crate::cli::{Commands, ServeArgs};
use crate::text::{
    trim_both,
    has_prefix,
    has_infix,
    trim_matches,
    starts_with,
    contains_str,
    push_decimal,
    push_char,
    decimal,
};

verus! {

/// `subtle::ConstantTimeEq::ct_eq` on byte slices, as `Choice::unwrap_u8`
/// gives it: 1 when the slices are equal, 0 otherwise.
#[verifier::external_body]
fn ct_eq_bytes(a: &[u8], b: &[u8]) -> (r: u8)
    ensures
        r == (if a@ == b@ {
            1u8
        } else {
            0u8
        }),
{
    subtle::ConstantTimeEq::ct_eq(a, b).unwrap_u8()
}

/// `subtle::Choice`'s constant-time `&` on two choices given as 0 or 1.
#[verifier::external_body]
fn choice_and(x: u8, y: u8) -> (r: u8)
    requires
        x <= 1,
        y <= 1,
    ensures
        r == (if x == 1 && y == 1 {
            1u8
        } else {
            0u8
        }),
{
    (subtle::Choice::from(x) & subtle::Choice::from(y)).unwrap_u8()
}

/// `bool::from(subtle::Choice)` on a choice given as 0 or 1.
#[verifier::external_body]
fn choice_to_bool(x: u8) -> (r: bool)
    requires
        x <= 1,
    ensures
        r == (x == 1),
{
    bool::from(subtle::Choice::from(x))
}

proof fn lemma_encode_injective(a: Seq<char>, b: Seq<char>)
    ensures
        encode_utf8(a) == encode_utf8(b) ==> a == b,
{
    vstd::utf8::encode_utf8_decode_utf8(a);
    vstd::utf8::encode_utf8_decode_utf8(b);
}

/// Compares the provided credentials with the expected ones in constant
/// time: both the user name and the password must match.
pub fn verify_credentials(provided: &Credentials, expected_user: &str, expected_pass: &str) -> (r:
    bool)
    ensures
        r == (provided.username@ == expected_user@ && provided.password@ == expected_pass@),
{
    let username_match = ct_eq_bytes(provided.username.as_str().as_bytes(), expected_user.as_bytes());
    let password_match = ct_eq_bytes(provided.password.as_str().as_bytes(), expected_pass.as_bytes());
    proof {
        lemma_encode_injective(provided.username@, expected_user@);
        lemma_encode_injective(provided.password@, expected_pass@);
    }
    choice_to_bool(choice_and(username_match, password_match))
}

/// What the server runs with.
pub struct ServerConfig {
    /// Path to the notes database.
    pub db_path: String,
    /// The login user name.
    pub username: String,
    /// The login password.
    pub password: String,
    /// The user whose notes are served.
    pub user_id: String,
    /// The address to listen on, `host:port`.
    pub addr: String,
}

/// Why the server could not start.
#[derive(Debug, Clone, PartialEq, Eq)]
pub enum ServeError {
    /// The database file does not exist (its path).
    DatabaseNotFound(String),
}

/// The configuration the serve arguments give: listen on `host:port`, log in
/// with the given user name and password, and serve the notes of `user_id`,
/// which defaults to the user name.
pub fn server_config(args: ServeArgs) -> (r: ServerConfig)
    ensures
        r.db_path@ == args.database@,
        r.username@ == args.username@,
        r.password@ == args.password@,
        r.user_id@ == (match args.user_id {
            Some(u) => u@,
            None => args.username@,
        }),
        r.addr@ == args.host@ + seq![':'] + decimal(args.port as nat),
{
    let mut addr = args.host.clone();
    push_char(&mut addr, ':');
    push_decimal(&mut addr, args.port as u64);
    let user_id = match args.user_id {
        Some(u) => u,
        None => args.username.clone(),
    };
    ServerConfig {
        db_path: args.database,
        username: args.username,
        password: args.password,
        user_id,
        addr,
    }
}

/// Runs a command as far as the library decides it: `serve` fails when the
/// database file does not exist, and otherwise gives the server's
/// configuration. `database_exists` tells whether the file named by the
/// command's `--database` exists.
pub fn execute(command: Commands, database_exists: bool) -> (r: Result<ServerConfig, ServeError>)
    ensures
        match command {
            Commands::Serve(args) => {
                &&& !database_exists ==> (r matches Err(ServeError::DatabaseNotFound(p)) && p@
                    == args.database@)
                &&& database_exists ==> (r matches Ok(c) && c.db_path@ == args.database@
                    && c.user_id@ == (match args.user_id {
                    Some(u) => u@,
                    None => args.username@,
                }) && c.addr@ == args.host@ + seq![':'] + decimal(args.port as nat)
                    && c.username@ == args.username@ && c.password@ == args.password@)
            },
        },
{
    match command {
        Commands::Serve(args) => {
            if !database_exists {
                return Err(ServeError::DatabaseNotFound(args.database));
            }
            Ok(server_config(args))
        },
    }
}

/// A response that ends a request before the WebDAV handler: its status,
/// its body, and the `WWW-Authenticate` challenge it carries, if any.
pub struct Rejection {
    pub status: u16,
    pub body: String,
    pub www_authenticate: Option<String>,
}

/// The challenge that asks a client for Basic credentials.
pub open spec fn basic_challenge() -> Seq<char> {
    "Basic realm=\"WebDAV\""@
}

/// Lets a request in when it carries Basic credentials equal to the
/// expected ones; otherwise a 401 answer with a Basic challenge, whose body
/// does not tell a missing header from wrong credentials beyond its text.
pub fn authorize(auth: &Result<Credentials, AuthError>, expected_user: &str, expected_pass: &str) -> (r:
    Option<Rejection>)
    ensures
        auth is Err ==> (r matches Some(j) && j.status == 401 && j.body@ == "Unauthorized"@
            && (j.www_authenticate matches Some(h) && h@ == basic_challenge())),
        auth matches Ok(c) ==> (r is None <==> (c.username@ == expected_user@ && c.password@
            == expected_pass@)),
        auth is Ok && r is Some ==> (r matches Some(j) && j.status == 401 && j.body@
            == "Invalid credentials"@ && (j.www_authenticate matches Some(h) && h@
            == basic_challenge())),
{
    match auth {
        Err(_) => Some(
            Rejection {
                status: 401,
                body: "Unauthorized".to_owned(),
                www_authenticate: Some("Basic realm=\"WebDAV\"".to_owned()),
            },
        ),
        Ok(creds) => {
            if verify_credentials(creds, expected_user, expected_pass) {
                None
            } else {
                Some(
                    Rejection {
                        status: 401,
                        body: "Invalid credentials".to_owned(),
                        www_authenticate: Some("Basic realm=\"WebDAV\"".to_owned()),
                    },
                )
            }
        },
    }
}

/// The answer to a request whose body cannot be read.
pub fn unreadable_body() -> (r: Rejection)
    ensures
        r.status == 400,
        r.body@ == "Bad Request"@,
        r.www_authenticate is None,
{
    Rejection { status: 400, body: "Bad Request".to_owned(), www_authenticate: None }
}

/// Whether a request is a `DELETE` of the root: its path is only `/`s.
pub open spec fn spec_is_root_delete(is_delete: bool, uri_path: Seq<char>) -> bool {
    is_delete && trim_both(uri_path, '/').len() == 0
}

/// Refuses with 403 a `DELETE` of the root directory; lets every other
/// request through.
pub fn guard_delete(is_delete: bool, uri_path: &str) -> (r: Option<Rejection>)
    ensures
        r is Some <==> spec_is_root_delete(is_delete, uri_path@),
        r matches Some(j) ==> j.status == 403 && j.body@ == "Cannot delete root directory"@
            && j.www_authenticate is None,
{
    if is_delete {
        let path = trim_matches(uri_path, '/');
        if path.as_str().unicode_len() == 0 {
            return Some(
                Rejection {
                    status: 403,
                    body: "Cannot delete root directory".to_owned(),
                    www_authenticate: None,
                },
            );
        }
    }
    None
}

/// The content type a response is sent with in place of `content_type`: a
/// `text/` type that names no charset gets `; charset=utf-8`; any other is
/// kept (`None`).
pub open spec fn spec_charset_content_type(content_type: Seq<char>) -> Option<Seq<char>> {
    if has_prefix(content_type, "text/"@) && !has_infix(content_type, "charset"@) {
        Some(content_type + "; charset=utf-8"@)
    } else {
        None
    }
}

/// Completes a `text/` content type without a charset with
/// `; charset=utf-8`; `None` when the type is to be kept.
pub fn charset_content_type(content_type: &str) -> (r: Option<String>)
    ensures
        match r {
            Some(s) => spec_charset_content_type(content_type@) == Some(s@),
            None => spec_charset_content_type(content_type@) is None,
        },
{
    if starts_with(content_type, "text/") && !contains_str(content_type, "charset") {
        let mut s = content_type.to_owned();
        s.append("; charset=utf-8");
        Some(s)
    } else {
        None
    }
}

/// Completing a content type once is enough: a completed type is kept as
/// it is.
pub proof fn lemma_charset_content_type_idempotent(content_type: Seq<char>)
    ensures
        spec_charset_content_type(content_type) matches Some(c) ==> spec_charset_content_type(c)
            is None,
{
    if let Some(c) = spec_charset_content_type(content_type) {
        reveal_strlit("; charset=utf-8");
        reveal_strlit("charset");
        let i: int = content_type.len() as int + 2;
        assert(c.subrange(i, i + 7) =~= "charset"@);
        assert(has_infix(c, "charset"@));
    }
}

} // verus!
