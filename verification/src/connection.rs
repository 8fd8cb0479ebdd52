//! Which catalog database a connection URL points to, and when two connections reach the same
//! catalog.
use vstd::prelude::*;

use crate::dialect::Dialect;
use crate::error::{DucklakeError, DucklakeResult};
use crate::metadata::opt_view;
use crate::text::{occurs_at, starts_with_char, starts_with_str, str_eq};

verus! {

/// The engine named by the scheme of a connection URL, if it is one the library supports.
pub open spec fn url_dialect(url: Seq<char>) -> Option<Dialect> {
    if occurs_at(url, "postgresql://"@, 0) || occurs_at(url, "postgres://"@, 0) {
        Some(Dialect::Postgres)
    } else if occurs_at(url, "mysql://"@, 0) {
        Some(Dialect::MySql)
    } else if occurs_at(url, "sqlite://"@, 0) {
        Some(Dialect::Sqlite)
    } else {
        None
    }
}

impl Dialect {
    /// The engine of the catalog database that a connection URL points to: `postgresql://`
    /// and `postgres://` name PostgreSQL, `mysql://` MySQL and `sqlite://` SQLite; any other
    /// URL is refused.
    pub fn from_url(url: &str) -> (r: DucklakeResult<Dialect>)
        ensures
            match url_dialect(url@) {
                Some(d) => r == Ok::<Dialect, DucklakeError>(d),
                None => r matches Err(e) && (e matches DucklakeError::UnsupportedDatabase(u) && u@ == url@),
            },
    {
        if starts_with_str(url, "postgresql://") || starts_with_str(url, "postgres://") {
            Ok(Dialect::Postgres)
        } else if starts_with_str(url, "mysql://") {
            Ok(Dialect::MySql)
        } else if starts_with_str(url, "sqlite://") {
            Ok(Dialect::Sqlite)
        } else {
            Err(DucklakeError::UnsupportedDatabase(url.to_owned()))
        }
    }

    /// How many connections a pool to this engine holds: SQLite gets a single one (writers
    /// would only wait on each other), the server engines eight.
    pub fn pool_size(&self) -> (r: u32)
        ensures
            r == if *self is Sqlite { 1u32 } else { 8u32 },
    {
        match self {
            Dialect::Sqlite => 1,
            Dialect::Postgres | Dialect::MySql => 8,
        }
    }
}

/// A character in ASCII lower case (other characters stay as they are).
pub open spec fn ascii_lower(c: char) -> char {
    if 65 <= c as u32 <= 90 {
        ((c as u32) + 32) as char
    } else {
        c
    }
}

/// A text with its ASCII letters in lower case.
pub open spec fn ascii_lowercase(s: Seq<char>) -> Seq<char> {
    s.map_values(|c: char| ascii_lower(c))
}

/// `str::to_ascii_lowercase`, which maps `A`..=`Z` to `a`..=`z` and leaves every other
/// character unchanged.
#[verifier::external_body]
fn to_ascii_lowercase(s: &str) -> (r: String)
    ensures
        r@ == ascii_lowercase(s@),
{
    s.to_ascii_lowercase()
}

/// Where a database server listens.
#[derive(Debug, Clone, PartialEq, Eq)]
pub enum ServerEndpoint {
    /// A host name, in lower case.
    Host(String),
    /// The path of a Unix domain socket.
    Socket(String),
}

/// What identifies a catalog on a database server: where the server listens, its port and the
/// database.
#[derive(Debug, Clone, PartialEq, Eq)]
pub struct ServerCatalogKey {
    pub endpoint: ServerEndpoint,
    pub port: u16,
    pub database: Option<String>,
}

/// An endpoint as plain values: whether it is a socket, and its text.
pub open spec fn endpoint_view(e: ServerEndpoint) -> (bool, Seq<char>) {
    match e {
        ServerEndpoint::Host(h) => (false, h@),
        ServerEndpoint::Socket(p) => (true, p@),
    }
}

/// A key as plain values.
pub open spec fn key_view(k: ServerCatalogKey) -> ((bool, Seq<char>), u16, Option<Seq<char>>) {
    (
        endpoint_view(k.endpoint),
        k.port,
        opt_view(k.database),
    )
}

/// The endpoint that connection options name: the socket when one is given, the host taken
/// as a socket path when it starts with `/`, and otherwise the host in lower case.
pub open spec fn endpoint_for(host: Seq<char>, socket: Option<Seq<char>>) -> (bool, Seq<char>) {
    match socket {
        Some(p) => (true, p),
        None => if host.len() > 0 && host[0] == '/' {
            (true, host)
        } else {
            (false, ascii_lowercase(host))
        },
    }
}

fn opt_text_eq(a: &Option<String>, b: &Option<String>) -> (r: bool)
    ensures
        r == (opt_view(*a) == opt_view(*b)),
{
    match (a, b) {
        (Some(x), Some(y)) => str_eq(x.as_str(), y.as_str()),
        (None, None) => true,
        _ => false,
    }
}

impl ServerCatalogKey {
    /// The key of a catalog reached through the given connection options. A socket path is
    /// kept as it is given: making it canonical reads the file system, which is left to the
    /// caller.
    pub fn new(host: &str, port: u16, socket: Option<String>, database: Option<String>) -> (r: ServerCatalogKey)
        ensures
            endpoint_view(r.endpoint) == endpoint_for(host@, opt_view(socket)),
            r.port == port,
            r.database == database,
    {
        let endpoint = match socket {
            Some(p) => ServerEndpoint::Socket(p),
            None => if starts_with_char(host, '/') {
                ServerEndpoint::Socket(host.to_owned())
            } else {
                ServerEndpoint::Host(to_ascii_lowercase(host))
            },
        };
        ServerCatalogKey { endpoint, port, database }
    }

    /// Whether two keys name the same catalog: same endpoint, port and database.
    pub fn same_catalog(&self, other: &ServerCatalogKey) -> (r: bool)
        ensures
            r == (key_view(*self) == key_view(*other)),
    {
        let same_endpoint = match (&self.endpoint, &other.endpoint) {
            (ServerEndpoint::Host(a), ServerEndpoint::Host(b)) => str_eq(a.as_str(), b.as_str()),
            (ServerEndpoint::Socket(a), ServerEndpoint::Socket(b)) => str_eq(a.as_str(), b.as_str()),
            _ => false,
        };
        same_endpoint && self.port == other.port && opt_text_eq(&self.database, &other.database)
    }
}

} // verus!
