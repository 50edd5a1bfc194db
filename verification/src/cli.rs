//! The command line: one command, `serve`, with the database, the address to
//! listen on and the login.

use vstd::prelude::*;

verus! {

/// The command line.
pub struct Cli {
    pub command: Commands,
}

/// The commands.
pub enum Commands {
    /// Start the WebDAV server.
    Serve(ServeArgs),
}

/// Arguments for the serve command.
pub struct ServeArgs {
    /// Path to the SQLite database.
    pub database: String,
    /// Host address to bind to.
    pub host: String,
    /// Port to listen on.
    pub port: u16,
    /// Login username for Basic Auth.
    pub username: String,
    /// Password for Basic Auth.
    pub password: String,
    /// User ID in the database (defaults to the username).
    pub user_id: Option<String>,
}

/// The port listened on when none is given.
pub const DEFAULT_PORT: u16 = 4918;

/// The host bound to when none is given: `127.0.0.1`.
pub fn default_host() -> (r: String)
    ensures
        r@ == "127.0.0.1"@,
{
    "127.0.0.1".to_owned()
}

} // verus!
