//! The service's settings and their defaults.
use vstd::prelude::*;
use vstd::string::*;

verus! {

/// Where the service listens, which database it opens, and whether its
/// cookies are marked `Secure`.
#[derive(Debug)]
pub struct Config {
    pub bind_address: String,
    pub database_url: String,
    pub cookie_secure: bool,
}

/// Whether a `COOKIE_SECURE` setting turns secure cookies on: they are on
/// unless the setting is present and is neither `true` nor `1`.
pub open spec fn secure_setting(value: Option<Seq<char>>) -> bool {
    match value {
        Some(v) => v == "true"@ || v == "1"@,
        None => true,
    }
}

impl Clone for Config {
    fn clone(&self) -> (r: Self)
        ensures
            r == *self,
    {
        Config {
            bind_address: self.bind_address.clone(),
            database_url: self.database_url.clone(),
            cookie_secure: self.cookie_secure,
        }
    }
}

impl Config {
    /// The settings from the values of `BIND_ADDRESS`, `DATABASE_URL` and
    /// `COOKIE_SECURE` (each `None` when unset): the address defaults to
    /// `0.0.0.0:3000`, the database to `sqlite://data.db`.
    pub fn from_settings(
        bind_address: Option<String>,
        database_url: Option<String>,
        cookie_secure: Option<String>,
    ) -> (r: Config)
        ensures
            r.bind_address@ == match bind_address {
                Some(v) => v@,
                None => "0.0.0.0:3000"@,
            },
            r.database_url@ == match database_url {
                Some(v) => v@,
                None => "sqlite://data.db"@,
            },
            r.cookie_secure == secure_setting(
                match cookie_secure {
                    Some(v) => Some(v@),
                    None => None,
                },
            ),
    {
        let bind_address = match bind_address {
            Some(v) => v,
            None => String::from_str("0.0.0.0:3000"),
        };
        let database_url = match database_url {
            Some(v) => v,
            None => String::from_str("sqlite://data.db"),
        };
        let cookie_secure = match cookie_secure {
            Some(v) => v == String::from_str("true") || v == String::from_str("1"),
            None => true,
        };
        Config { bind_address, database_url, cookie_secure }
    }
}

} // verus!
