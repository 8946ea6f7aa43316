//! The settings that the endpoints read.

use vstd::prelude::*;

verus! {

/// The part of the server's configuration that the endpoints depend on.
#[derive(Debug, PartialEq, Eq)]
pub struct Config {
    /// Whether clients have to log in.
    pub pass: bool,
    /// The secret that login tokens are signed with.
    pub secret: String,
    /// The user that a terminal is opened for; `manual` asks for one.
    pub terminal_user: String,
}

} // verus!
