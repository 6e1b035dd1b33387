//! The durable store's rows and connection settings.

use vstd::prelude::*;

verus! {

/// Where the connection pool connects.
pub struct DbPool {
    pub url: String,
}

impl DbPool {
    pub fn new(url: String) -> (r: DbPool)
        ensures
            r.url == url,
    {
        DbPool { url }
    }
}

/// A row of the `peer` table.
#[derive(Default)]
pub struct Peer {
    pub guid: Vec<u8>,
    pub id: String,
    pub uuid: Vec<u8>,
    pub pk: Vec<u8>,
    pub user: Option<Vec<u8>>,
    pub info: String,
    pub status: Option<i64>,
}

/// The default pool size: one connection, as suits SQLite.
pub const DEFAULT_MAX_CONNECTIONS: usize = 1;

/// The pool size from the `MAX_DATABASE_CONNECTIONS` setting: its number,
/// else one.
pub fn max_connections(setting: Option<String>) -> (r: usize)
    ensures
        r == match setting {
            Some(s) => match crate::text::decimal_value(s@) {
                Some(v) if v <= usize::MAX => v as usize,
                _ => DEFAULT_MAX_CONNECTIONS,
            },
            None => DEFAULT_MAX_CONNECTIONS,
        },
{
    match setting {
        Some(s) => match crate::text::parse_u64(s.as_str()) {
            Some(v) => if v <= usize::MAX as u64 {
                v as usize
            } else {
                DEFAULT_MAX_CONNECTIONS
            },
            None => DEFAULT_MAX_CONNECTIONS,
        },
        None => DEFAULT_MAX_CONNECTIONS,
    }
}

} // verus!
