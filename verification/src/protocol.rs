//! The messages that client and server exchange, and who is let in.

use vstd::prelude::*;
use vstd::string::StringExecFns;

verus! {

/// The credentials that a client presents when it connects.
pub struct Auth {
    pub username: String,
    pub password: String,
}

/// The messages of the protocol.
pub enum Protocol {
    Auth(Auth),
}

/// The credentials are those of the one known user.
pub open spec fn accepted(username: Seq<char>, password: Seq<char>) -> bool {
    username == "charlie"@ && password == "12345"@
}

impl Auth {
    pub fn new(username: &str, password: &str) -> (auth: Auth)
        ensures
            auth.username@ == username@,
            auth.password@ == password@,
    {
        Auth { username: String::from_str(username), password: String::from_str(password) }
    }
}

/// Decides on a connection request: `true` accepts it, `false` rejects it.
pub fn authorization_event(message: &Protocol) -> (accept: bool)
    ensures
        accept == match *message {
            Protocol::Auth(auth) => accepted(auth.username@, auth.password@),
        },
{
    match message {
        Protocol::Auth(auth) => {
            let username = String::from_str("charlie");
            let password = String::from_str("12345");
            auth.username == username && auth.password == password
        },
    }
}

} // verus!
