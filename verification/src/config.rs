//! The settings of the web service, from the values of its environment
//! variables.

use crate::lexical::{chars_of, parse_u64_in, parse_u64_spec, trim, trim_bounds};
use crate::csv_format::text_range;
use vstd::prelude::*;
use vstd::string::*;

verus! {

/// The settings of the web service.
#[derive(Clone, Debug)]
pub struct Config {
    pub database_url: String,
    pub host: String,
    pub port: u16,
    pub jwt_secret: String,
    pub cors_origin: String,
}

/// Why the settings could not be made.
#[derive(Clone, Debug, PartialEq, Eq)]
pub enum ConfigError {
    /// `DATABASE_URL` is not set.
    MissingDatabaseUrl,
    /// `PORT` is not a number that fits in 16 bits.
    InvalidPort,
    /// `JWT_SECRET` is not set.
    MissingJwtSecret,
    /// `CORS_ORIGIN` is not set.
    MissingCorsOrigin,
}

impl ConfigError {
    /// The text that describes the error to a person.
    pub fn message(&self) -> (r: &'static str)
        ensures
            r@ == config_error_message(*self),
    {
        match self {
            ConfigError::MissingDatabaseUrl => "DATABASE_URL must be set in .env",
            ConfigError::InvalidPort => "PORT must be a valid number",
            ConfigError::MissingJwtSecret => "JWT_SECRET must be set in .env",
            ConfigError::MissingCorsOrigin => "CORS_ORIGIN must be set in .env file",
        }
    }
}

pub open spec fn config_error_message(e: ConfigError) -> Seq<char> {
    match e {
        ConfigError::MissingDatabaseUrl => "DATABASE_URL must be set in .env"@,
        ConfigError::InvalidPort => "PORT must be a valid number"@,
        ConfigError::MissingJwtSecret => "JWT_SECRET must be set in .env"@,
        ConfigError::MissingCorsOrigin => "CORS_ORIGIN must be set in .env file"@,
    }
}

/// The port that the text writes, as `u16::from_str` reads it.
pub open spec fn parse_port(s: Seq<char>) -> Option<u16> {
    match parse_u64_spec(s) {
        Some(v) => if v <= u16::MAX {
            Some(v as u16)
        } else {
            None
        },
        None => None,
    }
}

pub open spec fn opt_view(o: Option<String>) -> Option<Seq<char>> {
    match o {
        Some(s) => Some(s@),
        None => None,
    }
}

/// The settings that the variable values give, or the first error in the
/// order database URL, port, secret, allowed origin.
pub open spec fn config_outcome(
    database_url: Option<Seq<char>>,
    host: Option<Seq<char>>,
    port: Option<Seq<char>>,
    jwt_secret: Option<Seq<char>>,
    cors_origin: Option<Seq<char>>,
) -> Result<(Seq<char>, Seq<char>, u16, Seq<char>, Seq<char>), ConfigError> {
    let port_text = match port {
        Some(p) => p,
        None => "8080"@,
    };
    if database_url is None {
        Err(ConfigError::MissingDatabaseUrl)
    } else if parse_port(port_text) is None {
        Err(ConfigError::InvalidPort)
    } else if jwt_secret is None {
        Err(ConfigError::MissingJwtSecret)
    } else if cors_origin is None {
        Err(ConfigError::MissingCorsOrigin)
    } else {
        Ok(
            (
                database_url->0,
                match host {
                    Some(h) => h,
                    None => "127.0.0.1"@,
                },
                parse_port(port_text)->0,
                jwt_secret->0,
                trim(cors_origin->0),
            ),
        )
    }
}

impl Config {
    /// The settings from the values of `DATABASE_URL`, `HOST`, `PORT`,
    /// `JWT_SECRET` and `CORS_ORIGIN` (`None` for a variable that is not set):
    /// the host is `127.0.0.1` and the port `8080` where they are not set, and
    /// the allowed origin loses its surrounding whitespace.
    pub fn from_values(
        database_url: Option<String>,
        host: Option<String>,
        port: Option<String>,
        jwt_secret: Option<String>,
        cors_origin: Option<String>,
    ) -> (r: Result<Config, ConfigError>)
        ensures
            match config_outcome(
                opt_view(database_url),
                opt_view(host),
                opt_view(port),
                opt_view(jwt_secret),
                opt_view(cors_origin),
            ) {
                Ok((d, h, p, j, c)) => r matches Ok(cfg) && cfg.database_url@ == d && cfg.host@ == h
                    && cfg.port == p && cfg.jwt_secret@ == j && cfg.cors_origin@ == c,
                Err(e) => r == Err::<Config, ConfigError>(e),
            },
    {
        let database_url = match database_url {
            Some(d) => d,
            None => {
                return Err(ConfigError::MissingDatabaseUrl);
            },
        };
        let host = match host {
            Some(h) => h,
            None => "127.0.0.1".to_owned(),
        };
        let port_text = match port {
            Some(p) => p,
            None => "8080".to_owned(),
        };
        let pv = chars_of(port_text.as_str());
        assert(pv@.subrange(0, pv@.len() as int) =~= pv@);
        let port = match parse_u64_in(&pv, 0, pv.len()) {
            Some(v) => {
                if v <= 65535 {
                    v as u16
                } else {
                    return Err(ConfigError::InvalidPort);
                }
            },
            None => {
                return Err(ConfigError::InvalidPort);
            },
        };
        let jwt_secret = match jwt_secret {
            Some(j) => j,
            None => {
                return Err(ConfigError::MissingJwtSecret);
            },
        };
        let cors_origin = match cors_origin {
            Some(c) => c,
            None => {
                return Err(ConfigError::MissingCorsOrigin);
            },
        };
        let cv = chars_of(cors_origin.as_str());
        let (a, b) = trim_bounds(&cv, 0, cv.len());
        assert(cv@.subrange(0, cv@.len() as int) =~= cv@);
        let cors_origin = text_range(cors_origin.as_str(), a, b);
        Ok(Config { database_url, host, port, jwt_secret, cors_origin })
    }
}

} // verus!
