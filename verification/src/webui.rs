//! The values the web layer exchanges with the manager.
//!
//! These are the parsed shapes of the login form, the console-command form
//! and the new-server form. The HTTP plumbing that carries them — routing,
//! cookies, templates — lives in the surrounding program; the values and
//! their readings are fixed here.

use vstd::prelude::*;

verus! {

/// A username and password pair, as submitted at login or signup.
#[derive(Debug)]
pub struct Info {
    pub username: String,
    pub password: String,
}

/// A console command submitted for a running server.
#[derive(Debug)]
pub struct Command {
    pub command: String,
}

/// An HTML checkbox value: present as "on" or "off".
#[derive(Debug, Clone, Copy)]
pub enum Checked {
    On,
    Off,
}

impl From<Checked> for bool {
    /// A checkbox reads as true exactly when it was checked.
    fn from(value: Checked) -> (flag: Self) {
        match value {
            Checked::On => true,
            Checked::Off => false,
        }
    }
}

impl vstd::std_specs::convert::FromSpecImpl<Checked> for bool {
    open spec fn obeys_from_spec() -> bool {
        true
    }

    open spec fn from_spec(value: Checked) -> bool {
        value is On
    }
}

/// The new-server form: a name, a version choice, and whether the license
/// box was ticked.
#[derive(Debug)]
pub struct NewServer {
    pub servername: String,
    pub version: String,
    pub eula: Option<Checked>,
}

impl NewServer {
    /// Whether the form accepts the license: the box was present and
    /// ticked; an absent box reads as not accepted.
    pub fn eula_accepted(&self) -> (accepted: bool)
        ensures
            accepted == (self.eula matches Some(Checked::On)),
    {
        match self.eula {
            Some(Checked::On) => true,
            _ => false,
        }
    }
}

} // verus!
