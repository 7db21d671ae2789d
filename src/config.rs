//! The upstream configuration, built once at startup and shared read-only.
use vstd::prelude::*;

verus! {

/// A username and password for the upstream's username/password method.
#[derive(Debug, PartialEq, Eq)]
pub struct Credentials {
    pub username: String,
    pub password: String,
}

/// The SOCKS5 upstream every tunnel goes through.
#[derive(Debug, PartialEq, Eq)]
pub struct UpstreamConfig {
    /// The upstream's address, `host:port`.
    pub upstream: String,
    /// Present exactly when the upstream is to be authenticated to.
    pub credentials: Option<Credentials>,
}

/// Why no configuration could be built.
#[derive(Clone, Copy, Debug, PartialEq, Eq)]
pub enum ConfigError {
    /// No upstream address was given.
    MissingUpstream,
    /// A username was given without a password.
    MissingPassword,
}

impl UpstreamConfig {
    /// Builds the configuration from the values given at startup.
    ///
    /// Without a username no authentication is used (a lone password is ignored);
    /// a username without a password is an error.
    pub fn from_values(
        upstream: Option<String>,
        username: Option<String>,
        password: Option<String>,
    ) -> (r: Result<UpstreamConfig, ConfigError>)
        ensures
            upstream is None ==> r == Err::<UpstreamConfig, ConfigError>(ConfigError::MissingUpstream),
            upstream is Some && username is Some && password is None
                ==> r == Err::<UpstreamConfig, ConfigError>(ConfigError::MissingPassword),
            r is Ok <==> upstream is Some && (username is Some ==> password is Some),
            r matches Ok(c) ==> {
                &&& c.upstream@ == upstream->0@
                &&& c.credentials is Some <==> username is Some
                &&& c.credentials matches Some(k) ==> k.username@ == username->0@
                    && k.password@ == password->0@
            },
    {
        let upstream = match upstream {
            Some(u) => u,
            None => return Err(ConfigError::MissingUpstream),
        };
        let credentials = match username {
            None => None,
            Some(username) => match password {
                Some(password) => Some(Credentials { username, password }),
                None => return Err(ConfigError::MissingPassword),
            },
        };
        Ok(UpstreamConfig { upstream, credentials })
    }

    /// Whether the handshake offers the username/password method.
    pub fn uses_auth(&self) -> (r: bool)
        ensures
            r == self.credentials is Some,
    {
        self.credentials.is_some()
    }
}

} // verus!
