use forward::auth::{Authentication, ToAuthentication, ToAuthenticationError};

#[test]
fn auth_eq() {
    assert_eq!(
        Authentication::Password {
            username: "usr".to_string(),
            password: "pwd".to_string(),
        },
        Authentication::Password {
            username: "usr".to_string(),
            password: "pwd".to_string(),
        },
    );

    assert_eq!(Authentication::NoAuth, Authentication::NoAuth);
}

#[test]
fn auth_id() {
    assert_eq!(
        Authentication::Password {
            username: "usr".to_string(),
            password: "pwd".to_string(),
        }
        .id(),
        2,
    );
    assert_eq!(Authentication::NoAuth.id(), 0);
}

#[test]
fn no_auth() {
    assert!(Authentication::NoAuth.is_no_auth());
    assert!(!Authentication::Password {
        username: "usr".to_string(),
        password: "pwd".to_string(),
    }
    .is_no_auth());
}

#[test]
fn it_works() {
    assert_eq!(2 + 2, 4);
}

#[test]
fn credentials_both_present() {
    let pair = (Some("usr".to_string()), Some("pwd".to_string()));
    assert_eq!(
        pair.to_authentication().unwrap(),
        Authentication::Password {
            username: "usr".to_string(),
            password: "pwd".to_string(),
        },
    );
}

#[test]
fn credentials_both_absent() {
    let pair = (None::<String>, None::<String>);
    assert_eq!(pair.to_authentication().unwrap(), Authentication::NoAuth);
}

#[test]
fn credentials_username_alone() {
    let pair = (Some("usr".to_string()), None::<String>);
    assert_eq!(
        pair.to_authentication(),
        Err(ToAuthenticationError::NoPassword),
    );
}

#[test]
fn credentials_password_alone() {
    let pair = (None::<String>, Some("pwd".to_string()));
    assert_eq!(
        pair.to_authentication(),
        Err(ToAuthenticationError::NoUsername),
    );
}
