//! Which idempotency store a configuration asks for.
use crate::config::{StorageBackend, StorageConfig};
use vstd::prelude::*;

verus! {

/// The store to open.
#[derive(Debug)]
pub enum StoreChoice {
    /// A SQLite database at this path.
    Sqlite(String),
    /// A PostgreSQL database at this URL.
    Postgres(String),
}

#[derive(Debug, Clone, Copy, PartialEq, Eq, Structural)]
pub enum StorageError {
    /// The PostgreSQL backend was chosen without `storage.postgres_url`.
    MissingPostgresUrl,
}

impl StorageError {
    pub fn message(&self) -> (r: String)
        ensures
            r@ == "storage.postgres_url is required for postgres backend"@,
    {
        String::from_str("storage.postgres_url is required for postgres backend")
    }
}

/// The store the storage section selects: SQLite at its path, or PostgreSQL
/// at its URL, which must then be given.
pub fn select_store(config: &StorageConfig) -> (r: Result<StoreChoice, StorageError>)
    ensures
        config.backend == StorageBackend::Sqlite ==> (r matches Ok(StoreChoice::Sqlite(p)) && p@
            == config.sqlite_path@),
        config.backend == StorageBackend::Postgres ==> match config.postgres_url {
            Some(u) => r matches Ok(StoreChoice::Postgres(u2)) && u2@ == u@,
            None => r == Err::<StoreChoice, StorageError>(StorageError::MissingPostgresUrl),
        },
{
    match config.backend {
        StorageBackend::Sqlite => Ok(StoreChoice::Sqlite(config.sqlite_path.clone())),
        StorageBackend::Postgres => match &config.postgres_url {
            Some(u) => Ok(StoreChoice::Postgres(u.clone())),
            None => Err(StorageError::MissingPostgresUrl),
        },
    }
}

} // verus!
