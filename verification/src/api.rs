//! The messages and settings of the user service, and the checks that its
//! inputs must pass.

use crate::lexical::chars_of;
use std::collections::HashMap;
use vstd::prelude::*;
use vstd::string::*;

verus! {

/// The request that creates a user.
pub struct CreateUserRequest {
    pub name: String,
    pub email: String,
    pub password: String,
}

/// The answer of the service: data on success, a message on failure.
pub struct ApiResponse<T> {
    pub success: bool,
    pub data: Option<T>,
    pub error: Option<String>,
}

impl<T> ApiResponse<T> {
    /// A successful answer carrying `data`.
    pub fn success(data: T) -> (r: Self)
        ensures
            r.success,
            r.data == Some(data),
            r.error is None,
    {
        Self { success: true, data: Some(data), error: None }
    }

    /// A failed answer carrying the message `msg`.
    pub fn error(msg: String) -> (r: Self)
        ensures
            !r.success,
            r.data is None,
            r.error == Some(msg),
    {
        Self { success: false, data: None, error: Some(msg) }
    }
}

/// The database connection settings.
pub struct DatabaseConfig {
    pub host: String,
    pub port: u16,
    pub database: String,
    pub username: String,
    pub password: String,
    pub pool_size: u32,
}

/// The pool size where the settings give none.
pub fn default_pool() -> (r: u32)
    ensures
        r == 10,
{
    10
}

/// The HTTP server settings.
pub struct ServerConfig {
    pub host: String,
    pub port: u16,
    pub cors_origins: Vec<String>,
    pub request_timeout: u64,
}

/// The request timeout, in seconds, where the settings give none.
pub fn default_timeout() -> (r: u64)
    ensures
        r == 30,
{
    30
}

/// The cache settings.
pub struct RedisConfig {
    pub url: String,
}

/// All settings of the service.
pub struct AppConfig {
    pub server: ServerConfig,
    pub database: DatabaseConfig,
    pub redis: Option<RedisConfig>,
    pub features: HashMap<String, bool>,
}

/// A user as the service stores it.
pub struct User {
    pub id: u32,
    pub name: String,
    pub email: String,
    pub password: String,
}

/// Where an order is.
#[derive(Debug, Clone, Copy, PartialEq, Eq, Structural)]
pub enum OrderStatus {
    Pending,
    Processing,
    Shipped,
    Delivered,
    Cancelled,
}

/// Whether `c` occurs in `s`.
pub fn has_char(s: &str, c: char) -> (r: bool)
    ensures
        r == s@.contains(c),
{
    let v = chars_of(s);
    let mut i: usize = 0;
    while i < v.len()
        invariant
            v@ == s@,
            i <= v@.len(),
            forall|j: int| 0 <= j < i ==> v@[j] != c,
        decreases v@.len() - i,
    {
        if v[i] == c {
            assert(s@[i as int] == c);
            return true;
        }
        i = i + 1;
    }
    assert(!s@.contains(c)) by {
        if s@.contains(c) {
            let j = choose|j: int| 0 <= j < s@.len() && s@[j] == c;
            assert(v@[j] == c);
        }
    }
    false
}

/// A user's e-mail address is accepted where it holds `@` and is longer
/// than five bytes.
pub fn user_email_is_valid(email: &str) -> (r: bool)
    ensures
        r == (email@.contains('@') && email.len() > 5),
{
    has_char(email, '@') && email.len() > 5
}

/// An order's e-mail address is accepted where it holds `@` and `.` and is
/// longer than five bytes.
pub fn order_email_is_valid(email: &str) -> (r: bool)
    ensures
        r == (email@.contains('@') && email@.contains('.') && email.len() > 5),
{
    has_char(email, '@') && has_char(email, '.') && email.len() > 5
}

/// A password is accepted where it is at least eight bytes long.
pub fn password_is_valid(password: &str) -> (r: bool)
    ensures
        r == (password.len() >= 8),
{
    password.len() >= 8
}

} // verus!
