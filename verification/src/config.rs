//! The immutable configuration a job runs with.

use vstd::prelude::*;

verus! {

/// Configuration value handed to the jobs at construction: where the catalog
/// is persisted, and the notification channel key, if one is configured
/// (without a key every notification is a no-op).
#[derive(Debug)]
pub struct AppConfig {
    pub db_path: String,
    pub discord_api_key: Option<String>,
}

impl Default for AppConfig {
    /// The built-in defaults: the standard database path and no notification
    /// channel.
    fn default() -> (r: Self)
        ensures
            r.db_path@ == "/data/melonbooks.db"@,
            r.discord_api_key is None,
    {
        AppConfig { db_path: "/data/melonbooks.db".to_owned(), discord_api_key: None }
    }
}

} // verus!
