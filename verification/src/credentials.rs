//! How a command-line client resolves its credentials: a stored token by
//! name, an explicit token, a username with password, the environment, and
//! otherwise nothing. The lookups and prompts themselves are I/O; this is
//! the decision, from whatever those produced.

use crate::error::IggyError;
use vstd::prelude::*;

verus! {

/// A username and password pair.
#[derive(Debug)]
pub struct IggyUserClient {
    pub username: String,
    pub password: String,
}

/// Resolved credentials: a personal access token, or a username and
/// password.
#[derive(Debug)]
pub enum IggyCredentials {
    UserNameAndPassword(IggyUserClient),
    PersonalAccessToken(String),
}

impl IggyCredentials {
    /// Picks credentials in the fixed order: a token fetched from the store
    /// by name wins, then an explicit token, then a username (whose password
    /// may have been prompted), then the environment pair, else nothing. A
    /// token name without a server address to scope it is refused.
    pub fn resolve(
        token_name_given: bool,
        server_address_given: bool,
        stored_token: Option<String>,
        token: Option<String>,
        username: Option<String>,
        password: Option<String>,
        env_username: Option<String>,
        env_password: Option<String>,
    ) -> (r: Result<IggyCredentials, IggyError>)
        ensures
            token_name_given && !server_address_given ==> r == Result::<
                IggyCredentials,
                IggyError,
            >::Err(IggyError::InvalidCredentials),
            token_name_given && server_address_given ==> match stored_token {
                Some(t) => (r matches Ok(c) && (c matches IggyCredentials::PersonalAccessToken(v)
                    && v@ == t@)),
                None => r == Result::<IggyCredentials, IggyError>::Err(IggyError::TokenNotFound),
            },
            !token_name_given && token is Some ==> (r matches Ok(c) && (c matches
                IggyCredentials::PersonalAccessToken(v) && v@ == token->0@)),
            !token_name_given && token is None && username is Some ==> match password {
                Some(p) => (r matches Ok(c) && (c matches IggyCredentials::UserNameAndPassword(u)
                    && u.username@ == username->0@ && u.password@ == p@)),
                None => r == Result::<IggyCredentials, IggyError>::Err(
                    IggyError::InvalidCredentials,
                ),
            },
            !token_name_given && token is None && username is None ==> match (
                env_username,
                env_password,
            ) {
                (Some(eu), Some(ep)) => (r matches Ok(c) && (c matches
                    IggyCredentials::UserNameAndPassword(u) && u.username@ == eu@ && u.password@
                    == ep@)),
                _ => r == Result::<IggyCredentials, IggyError>::Err(IggyError::InvalidCredentials),
            },
    {
        if token_name_given {
            if !server_address_given {
                return Err(IggyError::InvalidCredentials);
            }
            return match stored_token {
                Some(t) => Ok(IggyCredentials::PersonalAccessToken(t)),
                None => Err(IggyError::TokenNotFound),
            };
        }
        if let Some(t) = token {
            return Ok(IggyCredentials::PersonalAccessToken(t));
        }
        if let Some(u) = username {
            return match password {
                Some(p) => Ok(
                    IggyCredentials::UserNameAndPassword(
                        IggyUserClient { username: u, password: p },
                    ),
                ),
                None => Err(IggyError::InvalidCredentials),
            };
        }
        match (env_username, env_password) {
            (Some(eu), Some(ep)) => Ok(
                IggyCredentials::UserNameAndPassword(
                    IggyUserClient { username: eu, password: ep },
                ),
            ),
            _ => Err(IggyError::InvalidCredentials),
        }
    }
}

} // verus!
