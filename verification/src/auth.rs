//! Which drive credentials a walkthrough uses, chosen from its environment.

use vstd::prelude::*;

verus! {

/// What reading one environment variable gave.
pub enum EnvValue {
    Present(String),
    Unset,
    NotUnicode,
}

/// The credentials a drive session is built with.
pub enum Credentials {
    /// A refresh token with the OAuth client it was issued to; the session
    /// renews its access tokens itself.
    Refresh { refresh_token: String, client_id: String, client_secret: String },
    /// A short-lived access token.
    Access { access_token: String },
}

/// Why no credentials could be chosen.
#[derive(PartialEq, Eq, Structural, Clone, Copy, Debug)]
pub enum AuthError {
    /// A refresh token is set but the client id could not be read.
    ClientId { unset: bool },
    /// A refresh token and client id are set but the client secret could
    /// not be read.
    ClientSecret { unset: bool },
    /// Neither a refresh token nor an access token is set.
    Missing,
}

/// The text of a set variable.
pub open spec fn set_text(v: EnvValue) -> Seq<char>
    recommends
        v is Present,
{
    match v {
        EnvValue::Present(t) => t@,
        _ => Seq::empty(),
    }
}

/// The credentials the environment calls for: a readable refresh token
/// wins and then needs the client id and secret (read in that order);
/// otherwise a readable access token; otherwise none.
pub open spec fn credentials_ok(
    refresh: EnvValue,
    client_id: EnvValue,
    client_secret: EnvValue,
    access: EnvValue,
    r: Result<Credentials, AuthError>,
) -> bool {
    if refresh is Present {
        if !(client_id is Present) {
            r == Err::<Credentials, AuthError>(AuthError::ClientId { unset: client_id is Unset })
        } else if !(client_secret is Present) {
            r == Err::<Credentials, AuthError>(AuthError::ClientSecret { unset: client_secret is Unset })
        } else {
            r matches Ok(Credentials::Refresh { refresh_token, client_id: id, client_secret: secret })
                && refresh_token@ == set_text(refresh) && id@ == set_text(client_id)
                && secret@ == set_text(client_secret)
        }
    } else if access is Present {
        r matches Ok(Credentials::Access { access_token }) && access_token@ == set_text(access)
    } else {
        r == Err::<Credentials, AuthError>(AuthError::Missing)
    }
}

/// Chooses the credentials of a drive session from the values of the
/// refresh token, client id, client secret and access token variables.
pub fn choose_credentials(refresh: EnvValue, client_id: EnvValue, client_secret: EnvValue, access: EnvValue) -> (r: Result<Credentials, AuthError>)
    ensures
        credentials_ok(refresh, client_id, client_secret, access, r),
{
    match refresh {
        EnvValue::Present(refresh_token) => {
            let id = match client_id {
                EnvValue::Present(t) => t,
                EnvValue::Unset => { return Err(AuthError::ClientId { unset: true }); },
                EnvValue::NotUnicode => { return Err(AuthError::ClientId { unset: false }); },
            };
            let secret = match client_secret {
                EnvValue::Present(t) => t,
                EnvValue::Unset => { return Err(AuthError::ClientSecret { unset: true }); },
                EnvValue::NotUnicode => { return Err(AuthError::ClientSecret { unset: false }); },
            };
            Ok(Credentials::Refresh { refresh_token, client_id: id, client_secret: secret })
        },
        _ => match access {
            EnvValue::Present(access_token) => Ok(Credentials::Access { access_token }),
            _ => Err(AuthError::Missing),
        },
    }
}

} // verus!
