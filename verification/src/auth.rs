//! The credential policy offered to the upstream proxy, and its construction
//! from an optional (username, password) pair.

use vstd::prelude::*;

verus! {

/// Credential policy offered to an upstream SOCKS5 proxy: no authentication,
/// or a username/password pair (RFC 1929).
#[derive(Debug)]
pub enum Authentication {
    Password { username: String, password: String },
    NoAuth,
}

/// Ghost model of an `Authentication` value: credential strings are viewed
/// as character sequences.
pub enum AuthView {
    Password { username: Seq<char>, password: Seq<char> },
    NoAuth,
}

impl AuthView {
    /// The stable SOCKS5 method identifier of this policy: 0 for
    /// no-authentication, 2 for username/password.
    pub open spec fn spec_id(self) -> u8 {
        match self {
            AuthView::Password { .. } => 2,
            AuthView::NoAuth => 0,
        }
    }
}

impl View for Authentication {
    type V = AuthView;

    open spec fn view(&self) -> AuthView {
        match self {
            Authentication::Password { username, password } => AuthView::Password {
                username: username@,
                password: password@,
            },
            Authentication::NoAuth => AuthView::NoAuth,
        }
    }
}

impl Authentication {
    /// The SOCKS5 method identifier this policy is offered under.
    pub fn id(&self) -> (r: u8)
        ensures
            r == self@.spec_id(),
    {
        match self {
            Authentication::Password { .. } => 2,
            Authentication::NoAuth => 0,
        }
    }

    /// True exactly when no credentials are offered.
    pub fn is_no_auth(&self) -> (r: bool)
        ensures
            r == (self@ is NoAuth),
    {
        match self {
            Authentication::NoAuth => true,
            _ => false,
        }
    }
}

impl Clone for Authentication {
    fn clone(&self) -> (r: Self)
        ensures
            r@ == self@,
    {
        match self {
            Authentication::Password { username, password } => Authentication::Password {
                username: username.clone(),
                password: password.clone(),
            },
            Authentication::NoAuth => Authentication::NoAuth,
        }
    }
}

impl PartialEq for Authentication {
    fn eq(&self, other: &Self) -> (r: bool) {
        match (self, other) {
            (
                Authentication::Password { username: u1, password: p1 },
                Authentication::Password { username: u2, password: p2 },
            ) => u1.eq(u2) && p1.eq(p2),
            (Authentication::NoAuth, Authentication::NoAuth) => true,
            _ => false,
        }
    }
}

impl vstd::std_specs::cmp::PartialEqSpecImpl for Authentication {
    open spec fn obeys_eq_spec() -> bool {
        true
    }

    open spec fn eq_spec(&self, other: &Self) -> bool {
        self@ == other@
    }
}

/// Why an optional (username, password) pair cannot be turned into an
/// `Authentication` value: exactly one half of the pair was supplied.
#[derive(Debug)]
pub enum ToAuthenticationError {
    NoUsername,
    NoPassword,
}

impl Clone for ToAuthenticationError {
    fn clone(&self) -> (r: Self)
        ensures
            r == *self,
    {
        match self {
            ToAuthenticationError::NoUsername => ToAuthenticationError::NoUsername,
            ToAuthenticationError::NoPassword => ToAuthenticationError::NoPassword,
        }
    }
}

impl PartialEq for ToAuthenticationError {
    fn eq(&self, other: &Self) -> (r: bool) {
        match (self, other) {
            (ToAuthenticationError::NoUsername, ToAuthenticationError::NoUsername) => true,
            (ToAuthenticationError::NoPassword, ToAuthenticationError::NoPassword) => true,
            _ => false,
        }
    }
}

impl vstd::std_specs::cmp::PartialEqSpecImpl for ToAuthenticationError {
    open spec fn obeys_eq_spec() -> bool {
        true
    }

    open spec fn eq_spec(&self, other: &Self) -> bool {
        *self == *other
    }
}

/// Conversion of caller-supplied optional credentials into a policy:
/// both present gives `Password`, both absent gives `NoAuth`, and exactly
/// one present is a configuration error.
pub trait ToAuthentication {
    fn to_authentication(&self) -> Result<Authentication, ToAuthenticationError>;
}

impl ToAuthentication for (Option<String>, Option<String>) {
    /// Both halves present yields `Password` with the same strings; both
    /// absent yields `NoAuth`; a username alone is missing its password, and
    /// a password alone is missing its username.
    fn to_authentication(&self) -> (r: Result<Authentication, ToAuthenticationError>)
        ensures
            self.0 is Some && self.1 is Some ==> (r matches Ok(a) && a@ == (AuthView::Password {
                username: self.0->0@,
                password: self.1->0@,
            })),
            self.0 is None && self.1 is None ==> (r matches Ok(a) && a@ is NoAuth),
            self.0 is Some && self.1 is None ==> r == Err::<Authentication, _>(
                ToAuthenticationError::NoPassword,
            ),
            self.0 is None && self.1 is Some ==> r == Err::<Authentication, _>(
                ToAuthenticationError::NoUsername,
            ),
    {
        match self {
            (Some(username), Some(password)) => Ok(Authentication::Password {
                username: username.clone(),
                password: password.clone(),
            }),
            (Some(_), None) => Err(ToAuthenticationError::NoPassword),
            (None, Some(_)) => Err(ToAuthenticationError::NoUsername),
            (None, None) => Ok(Authentication::NoAuth),
        }
    }
}

} // verus!
