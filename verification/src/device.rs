//! Devices that modules are applied to, with the credentials that worked on
//! them and the progress of their executer.

use vstd::prelude::*;

use crate::destination::Destination;

verus! {

/// How a device is logged into.
#[derive(Debug, Clone)]
pub enum Authentication {
    Keys { public_key: String, private_key: String },
    Password(String),
}

/// How far an executer got on a device.
#[derive(Debug, Clone)]
pub struct ExecuterState {
    pub step: u32,
}

impl Default for ExecuterState {
    fn default() -> (s: Self)
        ensures
            s.step == 0,
    {
        ExecuterState { step: 0 }
    }
}

/// One login request for the SSH session: the user, and the credentials
/// handed to the session.
pub enum AuthRequest {
    /// Log in with a key pair held in memory.
    PublicKey { username: String, public_key: String, private_key: String },
    /// Log in with a password.
    Password { username: String, password: String },
}

/// The login request that authenticating `destination` with
/// `authentication` makes: the user of the destination, with the key pair or
/// the password.
pub fn auth_request(destination: &Destination, authentication: &Authentication) -> (r: AuthRequest)
    ensures
        match authentication {
            Authentication::Keys { public_key, private_key } => r matches AuthRequest::PublicKey {
                username: u,
                public_key: pu,
                private_key: pr,
            } && u@ == destination.username@ && pu@ == public_key@ && pr@ == private_key@,
            Authentication::Password(p) => r matches AuthRequest::Password {
                username: u,
                password: pw,
            } && u@ == destination.username@ && pw@ == p@,
        },
{
    match authentication {
        Authentication::Keys { public_key, private_key } => AuthRequest::PublicKey {
            username: destination.username.clone(),
            public_key: public_key.clone(),
            private_key: private_key.clone(),
        },
        Authentication::Password(password) => AuthRequest::Password {
            username: destination.username.clone(),
            password: password.clone(),
        },
    }
}

/// What to do after a password was tried on the session.
#[derive(Debug, Clone, Copy, PartialEq, Eq, Structural)]
pub enum PasswordStep {
    /// The password was refused: ask for another one.
    AskAgain,
    /// The session is logged in: keep the password.
    Accept,
    /// The password was taken but the session is not logged in: give up.
    GiveUp,
}

/// The decision after trying a password: `login_ok` is whether the session
/// took it, `authenticated` whether the session is logged in afterwards.
pub fn after_password(login_ok: bool, authenticated: bool) -> (s: PasswordStep)
    ensures
        !login_ok ==> s == PasswordStep::AskAgain,
        login_ok && authenticated ==> s == PasswordStep::Accept,
        login_ok && !authenticated ==> s == PasswordStep::GiveUp,
{
    if !login_ok {
        PasswordStep::AskAgain
    } else if authenticated {
        PasswordStep::Accept
    } else {
        PasswordStep::GiveUp
    }
}

/// A device that modules are run on.
#[derive(Debug)]
pub struct Device {
    pub destination: Destination,
    pub authentication: Option<Authentication>,
    pub executer_state: ExecuterState,
}

impl Device {
    pub fn new(
        destination: Destination,
        authentication: Option<Authentication>,
        executer_state: ExecuterState,
    ) -> (d: Device)
        ensures
            d.destination == destination,
            d.authentication == authentication,
            d.executer_state == executer_state,
    {
        Device { destination, authentication, executer_state }
    }

    /// The credentials to try first when connecting to the device: the saved
    /// ones, if any. Without them, or when they fail, the connection is made
    /// interactively.
    pub fn saved_authentication(&self) -> (a: Option<&Authentication>)
        ensures
            a is None <==> self.authentication is None,
            a matches Some(x) ==> self.authentication == Some(*x),
    {
        match &self.authentication {
            Some(x) => Some(x),
            None => None,
        }
    }

    /// Keep the credentials an interactive connection succeeded with.
    pub fn record_authentication(&mut self, authentication: Authentication)
        ensures
            final(self).authentication == Some(authentication),
            final(self).destination == old(self).destination,
            final(self).executer_state == old(self).executer_state,
    {
        self.authentication = Some(authentication);
    }
}

} // verus!
