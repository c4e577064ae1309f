use opendal_demo::auth::{choose_credentials, AuthError, Credentials, EnvValue};

fn set(s: &str) -> EnvValue {
    EnvValue::Present(s.to_string())
}

#[test]
fn refresh_token_wins() {
    match choose_credentials(set("r"), set("id"), set("secret"), set("a")) {
        Ok(Credentials::Refresh { refresh_token, client_id, client_secret }) => {
            assert_eq!((refresh_token.as_str(), client_id.as_str(), client_secret.as_str()), ("r", "id", "secret"));
        }
        _ => panic!("expected refresh credentials"),
    }
}

#[test]
fn refresh_token_needs_client() {
    assert!(matches!(
        choose_credentials(set("r"), EnvValue::Unset, set("secret"), set("a")),
        Err(AuthError::ClientId { unset: true })
    ));
    assert!(matches!(
        choose_credentials(set("r"), EnvValue::NotUnicode, EnvValue::Unset, EnvValue::Unset),
        Err(AuthError::ClientId { unset: false })
    ));
    assert!(matches!(
        choose_credentials(set("r"), set("id"), EnvValue::Unset, set("a")),
        Err(AuthError::ClientSecret { unset: true })
    ));
    assert!(matches!(
        choose_credentials(set("r"), set("id"), EnvValue::NotUnicode, EnvValue::Unset),
        Err(AuthError::ClientSecret { unset: false })
    ));
}

#[test]
fn access_token_otherwise() {
    match choose_credentials(EnvValue::Unset, EnvValue::Unset, EnvValue::Unset, set("tok")) {
        Ok(Credentials::Access { access_token }) => assert_eq!(access_token, "tok"),
        _ => panic!("expected access credentials"),
    }
    match choose_credentials(EnvValue::NotUnicode, set("id"), set("s"), set("tok")) {
        Ok(Credentials::Access { access_token }) => assert_eq!(access_token, "tok"),
        _ => panic!("expected access credentials"),
    }
}

#[test]
fn nothing_set() {
    assert!(matches!(
        choose_credentials(EnvValue::Unset, set("id"), set("s"), EnvValue::NotUnicode),
        Err(AuthError::Missing)
    ));
}
