//! Server definitions and user accounts.
//!
//! A [`Configuration`] is the in-memory snapshot of everything the manager
//! knows about: which servers exist, which users may log in, and the counter
//! from which new server identifiers are drawn. Reading it from disk and
//! writing it back are left to the surrounding program; every rule about its
//! contents lives here.

use crate::versions::VersionInfo;

use argon2::password_hash::rand_core::OsRng;
use argon2::password_hash::SaltString;
use argon2::{Argon2, PasswordHash, PasswordHasher, PasswordVerifier};
use vstd::prelude::*;

verus! {

/// Whether a stored password hash parses as a PHC string: the success of
/// `password_hash::PasswordHash::new`, which depends on the text alone.
pub uninterp spec fn phc_parses(hash: Seq<char>) -> bool;

/// Whether a password matches a stored PHC hash: the verdict of argon2's
/// `PasswordVerifier::verify_password`, which recomputes the hash with the
/// salt and parameters carried inside the PHC string and so depends on the
/// two texts alone.
pub uninterp spec fn password_matches(hash: Seq<char>, password: Seq<char>) -> bool;

/// What checking a password against a stored hash can find.
pub enum PasswordCheck {
    /// The stored text is not a PHC hash string.
    BadHash,
    /// The hash parsed and the password matches it.
    Match,
    /// The hash parsed and the password does not match it.
    NoMatch,
}

/// Relies on `password_hash::PasswordHash::new` to parse the stored PHC
/// string, and on argon2's `PasswordVerifier::verify_password` (default
/// parameters, no secret) to recompute the hash and compare. The parsed
/// hash borrows the input text, so the two calls stand together here.
#[verifier::external_body]
fn check_password(hash: &str, password: &str) -> (outcome: PasswordCheck)
    ensures
        (outcome is BadHash) <==> !phc_parses(hash@),
        (outcome is Match) <==> (phc_parses(hash@) && password_matches(hash@, password@)),
{
    match PasswordHash::new(hash) {
        Ok(parsed) => {
            if Argon2::default().verify_password(password.as_bytes(), &parsed).is_ok() {
                PasswordCheck::Match
            } else {
                PasswordCheck::NoMatch
            }
        },
        Err(_) => PasswordCheck::BadHash,
    }
}

/// Relies on argon2's `PasswordHasher::hash_password` with a fresh random
/// salt from `SaltString::generate` over the operating system's randomness.
/// The salt is random, so nothing is said of the produced text itself —
/// only what holds of every hash argon2 produces: it serializes as a PHC
/// string that parses back, and verifying the same password against it
/// succeeds, since verification recomputes the hash from the salt and
/// parameters the string carries.
#[verifier::external_body]
fn hash_new_password(password: &str) -> (hashed: Option<String>)
    ensures
        hashed matches Some(hash) ==> phc_parses(hash@) && password_matches(hash@, password@),
{
    let salt = SaltString::generate(&mut OsRng);
    match Argon2::default().hash_password(password.as_bytes(), &salt) {
        Ok(parsed) => Some(parsed.to_string()),
        Err(_) => None,
    }
}

/// A user account, with its password stored as a PHC hash string.
#[derive(Debug)]
pub struct User {
    pub username: String,
    pub hashed_password: String,
    pub is_admin: bool,
}

/// The mathematical value of a [`User`].
pub ghost struct UserView {
    pub username: Seq<char>,
    pub hashed_password: Seq<char>,
    pub is_admin: bool,
}

impl View for User {
    type V = UserView;

    open spec fn view(&self) -> UserView {
        UserView {
            username: self.username@,
            hashed_password: self.hashed_password@,
            is_admin: self.is_admin,
        }
    }
}

impl Clone for User {
    fn clone(&self) -> (other: Self)
        ensures
            other@ == self@,
    {
        User {
            username: self.username.clone(),
            hashed_password: self.hashed_password.clone(),
            is_admin: self.is_admin,
        }
    }
}

impl User {
    /// The account created at signup: the password is hashed under a fresh
    /// random salt, and the first account is an administrator. Nothing is
    /// created when the hashing function rejects the password.
    pub fn with_password(username: String, password: &str) -> (account: Option<User>)
        ensures
            account matches Some(user) ==> {
                &&& user@.username == username@
                &&& user@.is_admin
                &&& phc_parses(user@.hashed_password)
                &&& password_matches(user@.hashed_password, password@)
            },
    {
        match hash_new_password(password) {
            Some(hashed_password) => Some(
                User { username, hashed_password, is_admin: true },
            ),
            None => None,
        }
    }
}

/// The kind of server artifact a definition refers to.
#[derive(Debug, Clone, Copy)]
pub enum ServerType {
    Vanilla,
}

/// One configured server definition.
#[derive(Debug)]
pub struct Server {
    pub id: usize,
    pub name: String,
    pub domain: Option<String>,
    pub port: u16,
    pub server_type: ServerType,
    pub mc_version_id: String,
    pub enabled: bool,
    pub eula: bool,
}

/// The mathematical value of a [`Server`].
pub ghost struct ServerView {
    pub id: usize,
    pub name: Seq<char>,
    pub domain: Option<Seq<char>>,
    pub port: u16,
    pub server_type: ServerType,
    pub mc_version_id: Seq<char>,
    pub enabled: bool,
    pub eula: bool,
}

impl View for Server {
    type V = ServerView;

    open spec fn view(&self) -> ServerView {
        ServerView {
            id: self.id,
            name: self.name@,
            domain: match self.domain {
                Some(d) => Some(d@),
                None => None,
            },
            port: self.port,
            server_type: self.server_type,
            mc_version_id: self.mc_version_id@,
            enabled: self.enabled,
            eula: self.eula,
        }
    }
}

impl Clone for Server {
    fn clone(&self) -> (other: Self)
        ensures
            other@ == self@,
    {
        Server {
            id: self.id,
            name: self.name.clone(),
            domain: match &self.domain {
                Some(d) => Some(d.clone()),
                None => None,
            },
            port: self.port,
            server_type: self.server_type,
            mc_version_id: self.mc_version_id.clone(),
            enabled: self.enabled,
            eula: self.eula,
        }
    }
}

/// The default port from which server ports are assigned in sequence.
pub const BASE_PORT: u16 = 25565;

impl Server {
    /// A fresh definition: no identifier or port assigned yet, vanilla type,
    /// enabled, with the given name, artifact version and license choice.
    pub fn new(name: String, version_id: String, eula: bool) -> (server: Self)
        ensures
            server@ == (ServerView {
                id: 0,
                name: name@,
                domain: None,
                port: BASE_PORT,
                server_type: ServerType::Vanilla,
                mc_version_id: version_id@,
                enabled: true,
                eula,
            }),
    {
        Self {
            id: 0,
            name,
            domain: None,
            port: BASE_PORT,
            server_type: ServerType::Vanilla,
            mc_version_id: version_id,
            enabled: true,
            eula,
        }
    }
}

/// Everything the manager persists: the identifier counter, resource
/// ceilings, the user accounts and the server definitions.
#[derive(Debug)]
pub struct Configuration {
    pub next_server_id: usize,
    pub max_concurrent_servers: usize,
    pub max_total_ram_mb: usize,
    pub users: Vec<User>,
    pub servers: Vec<Server>,
}

/// A sequence of user accounts as mathematical values.
pub open spec fn user_views(users: Seq<User>) -> Seq<UserView> {
    users.map_values(|u: User| u@)
}

/// A sequence of server definitions as mathematical values.
pub open spec fn server_views(servers: Seq<Server>) -> Seq<ServerView> {
    servers.map_values(|s: Server| s@)
}

/// Whether a username and password pair is accepted against a list of
/// accounts: the first account carrying the name exists, its stored hash
/// parses, and the password matches that hash.
pub open spec fn login_accepted(
    users: Seq<UserView>,
    username: Seq<char>,
    password: Seq<char>,
) -> bool {
    exists|i: int|
        {
            &&& 0 <= i < users.len()
            &&& (#[trigger] users[i]).username == username
            &&& forall|j: int| 0 <= j < i ==> (#[trigger] users[j]).username != username
            &&& phc_parses(users[i].hashed_password)
            &&& password_matches(users[i].hashed_password, password)
        }
}

proof fn lemma_server_views_index(servers: Seq<Server>, i: int)
    requires
        0 <= i < servers.len(),
    ensures
        server_views(servers)[i] == servers[i]@,
{
}

proof fn lemma_server_views_push(servers: Seq<Server>, server: Server)
    ensures
        server_views(servers.push(server)) == server_views(servers).push(server@),
{
    assert(server_views(servers.push(server)) =~= server_views(servers).push(server@));
}

impl Configuration {
    /// The user accounts as mathematical values.
    pub open spec fn users_view(&self) -> Seq<UserView> {
        user_views(self.users@)
    }

    /// The server definitions as mathematical values.
    pub open spec fn servers_view(&self) -> Seq<ServerView> {
        server_views(self.servers@)
    }

    /// The defaults used when no configuration exists yet.
    pub fn new() -> (config: Self)
        ensures
            config.next_server_id == 0,
            config.max_concurrent_servers == 1,
            config.max_total_ram_mb == 3000,
            config.users_view() == Seq::<UserView>::empty(),
            config.servers_view() == Seq::<ServerView>::empty(),
    {
        let config = Self {
            next_server_id: 0,
            max_concurrent_servers: 1,
            max_total_ram_mb: 3000,
            users: Vec::new(),
            servers: Vec::new(),
        };
        proof {
            assert(config.users_view() =~= Seq::<UserView>::empty());
            assert(config.servers_view() =~= Seq::<ServerView>::empty());
        }
        config
    }

    /// How many servers are configured.
    pub fn server_count(&self) -> (count: usize)
        ensures
            count == self.servers_view().len(),
    {
        self.servers.len()
    }

    /// Add a user account.
    pub fn add_user(&mut self, new_user: User)
        ensures
            final(self).users_view() == old(self).users_view().push(new_user@),
            final(self).servers == old(self).servers,
            final(self).next_server_id == old(self).next_server_id,
            final(self).max_concurrent_servers == old(self).max_concurrent_servers,
            final(self).max_total_ram_mb == old(self).max_total_ram_mb,
    {
        let ghost expected = old(self).users_view().push(new_user@);
        self.users.push(new_user);
        proof {
            assert(self.users_view() =~= expected);
        }
    }

    /// Replace the first user account carrying the given user's name.
    pub fn modify_user(&mut self, updated_user: User)
        requires
            exists|i: int|
                0 <= i < old(self).users_view().len() && (#[trigger] old(
                    self,
                ).users_view()[i]).username == updated_user@.username,
        ensures
            exists|i: int|
                {
                    &&& 0 <= i < old(self).users_view().len()
                    &&& (#[trigger] old(self).users_view()[i]).username == updated_user@.username
                    &&& forall|j: int|
                        0 <= j < i ==> (#[trigger] old(self).users_view()[j]).username
                            != updated_user@.username
                    &&& final(self).users_view() == old(self).users_view().update(
                        i,
                        updated_user@,
                    )
                },
            final(self).servers == old(self).servers,
            final(self).next_server_id == old(self).next_server_id,
            final(self).max_concurrent_servers == old(self).max_concurrent_servers,
            final(self).max_total_ram_mb == old(self).max_total_ram_mb,
    {
        let mut i: usize = 0;
        while i < self.users.len()
            invariant
                *self == *old(self),
                i <= self.users.len(),
                forall|j: int|
                    0 <= j < i ==> (#[trigger] self.users_view()[j]).username
                        != updated_user@.username,
                exists|k: int|
                    0 <= k < self.users_view().len() && (#[trigger] self.users_view()[k]).username
                        == updated_user@.username,
            decreases self.users.len() - i,
        {
            if self.users[i].username == updated_user.username {
                let ghost wi = i as int;
                let ghost expected = old(self).users_view().update(wi, updated_user@);
                proof {
                    assert((#[trigger] old(self).users_view()[wi]).username
                        == updated_user@.username);
                }
                let _ = self.users.remove(i);
                self.users.insert(i, updated_user);
                proof {
                    assert(self.users_view() =~= expected);
                }
                return ;
            }
            i = i + 1;
        }
        proof {
            let k = choose|k: int|
                0 <= k < old(self).users_view().len() && (#[trigger] old(
                    self,
                ).users_view()[k]).username == updated_user@.username;
            assert(old(self).users_view()[k].username != updated_user@.username);
        }
    }

    /// Look up a user account by name; the first match is returned.
    pub fn get_user(&self, username: String) -> (found: Option<User>)
        ensures
            match found {
                Some(user) => exists|i: int|
                    {
                        &&& 0 <= i < self.users_view().len()
                        &&& #[trigger] self.users_view()[i] == user@
                        &&& self.users_view()[i].username == username@
                        &&& forall|j: int|
                            0 <= j < i ==> (#[trigger] self.users_view()[j]).username != username@
                    },
                None => forall|i: int|
                    0 <= i < self.users_view().len() ==> (#[trigger] self.users_view()[i]).username
                        != username@,
            },
    {
        let mut i: usize = 0;
        while i < self.users.len()
            invariant
                i <= self.users.len(),
                forall|j: int|
                    0 <= j < i ==> (#[trigger] self.users_view()[j]).username != username@,
            decreases self.users.len() - i,
        {
            if self.users[i].username == username {
                let user = self.users[i].clone();
                proof {
                    let wi = i as int;
                    assert((#[trigger] self.users_view()[wi]) == user@);
                    assert(self.users_view()[wi].username == username@);
                }
                return Some(user);
            }
            i = i + 1;
        }
        None
    }

    /// Whether any user account exists.
    pub fn has_users(&self) -> (nonempty: bool)
        ensures
            nonempty == (self.users_view().len() > 0),
    {
        self.users.len() > 0
    }

    /// Check a username and password pair against the stored accounts:
    /// accepted exactly when the first account carrying the name has a
    /// stored hash that parses and that the password matches. A missing
    /// account, an unparseable stored hash and a wrong password are all the
    /// same refusal.
    pub fn validate_password(&self, username: String, password: String) -> (outcome: Result<
        (),
        (),
    >)
        ensures
            (outcome is Ok) <==> login_accepted(self.users_view(), username@, password@),
    {
        let ghost uname = username@;
        let ghost pword = password@;
        match self.get_user(username) {
            Some(user) => {
                let checked = check_password(user.hashed_password.as_str(), password.as_str());
                let ghost k = choose|k: int|
                    {
                        &&& 0 <= k < self.users_view().len()
                        &&& #[trigger] self.users_view()[k] == user@
                        &&& self.users_view()[k].username == uname
                        &&& forall|j: int|
                            0 <= j < k ==> (#[trigger] self.users_view()[j]).username != uname
                    };
                match checked {
                    PasswordCheck::Match => {
                        proof {
                            assert((#[trigger] self.users_view()[k]).username == uname);
                        }
                        Ok(())
                    },
                    _ => {
                        proof {
                            if login_accepted(self.users_view(), uname, pword) {
                                let i = choose|i: int|
                                    {
                                        &&& 0 <= i < self.users_view().len()
                                        &&& (#[trigger] self.users_view()[i]).username == uname
                                        &&& forall|j: int|
                                            0 <= j < i ==> (#[trigger] self.users_view()[j]).username
                                                != uname
                                        &&& phc_parses(self.users_view()[i].hashed_password)
                                        &&& password_matches(
                                            self.users_view()[i].hashed_password,
                                            pword,
                                        )
                                    };
                                if i < k {
                                    assert(self.users_view()[i].username != uname);
                                } else if k < i {
                                    assert(self.users_view()[k].username != uname);
                                }
                                assert(i == k);
                                assert(false);
                            }
                        }
                        Err(())
                    },
                }
            },
            None => Err(()),
        }
    }

    /// Create, register and return a new server definition for the given
    /// version: built enabled, named as given, carrying the version's name
    /// as its artifact reference, then assigned the next free identifier
    /// and the port derived from it. Fetching the artifact itself is the
    /// surrounding program's work.
    pub fn create_new_server(&mut self, name: String, version: &VersionInfo, eula: bool) -> (stored:
        Server)
        requires
            old(self).next_server_id + BASE_PORT <= u16::MAX,
        ensures
            stored@ == (ServerView {
                id: old(self).next_server_id,
                name: name@,
                domain: None,
                port: (BASE_PORT + old(self).next_server_id) as u16,
                server_type: ServerType::Vanilla,
                mc_version_id: version.id@,
                enabled: true,
                eula,
            }),
            final(self).servers_view() == old(self).servers_view().push(stored@),
            final(self).next_server_id == old(self).next_server_id + 1,
            final(self).users == old(self).users,
            final(self).max_concurrent_servers == old(self).max_concurrent_servers,
            final(self).max_total_ram_mb == old(self).max_total_ram_mb,
    {
        let server = Server::new(name, version.id.clone(), eula);
        self.add_server(server)
    }

    /// Add a server definition, assigning it the next free identifier and
    /// the port derived from that identifier; whatever identifier or port
    /// the argument carried is overwritten. Returns the stored definition.
    pub fn add_server(&mut self, new_server: Server) -> (stored: Server)
        requires
            old(self).next_server_id + BASE_PORT <= u16::MAX,
        ensures
            stored@ == (ServerView {
                id: old(self).next_server_id,
                port: (BASE_PORT + old(self).next_server_id) as u16,
                ..new_server@
            }),
            final(self).servers_view() == old(self).servers_view().push(stored@),
            final(self).next_server_id == old(self).next_server_id + 1,
            final(self).users == old(self).users,
            final(self).max_concurrent_servers == old(self).max_concurrent_servers,
            final(self).max_total_ram_mb == old(self).max_total_ram_mb,
    {
        let mut stored = new_server;
        let new_id = self.next_server_id;
        stored.id = new_id;
        stored.port = BASE_PORT + (new_id as u16);
        self.next_server_id = self.next_server_id + 1;
        let copy = stored.clone();
        let ghost expected = old(self).servers_view().push(stored@);
        self.servers.push(stored);
        proof {
            assert(self.servers_view() =~= expected);
        }
        copy
    }

    /// Replace the first server definition carrying the given definition's
    /// identifier.
    pub fn modify_server(&mut self, updated_server: Server)
        requires
            exists|i: int|
                0 <= i < old(self).servers_view().len() && (#[trigger] old(
                    self,
                ).servers_view()[i]).id == updated_server@.id,
        ensures
            exists|i: int|
                {
                    &&& 0 <= i < old(self).servers_view().len()
                    &&& (#[trigger] old(self).servers_view()[i]).id == updated_server@.id
                    &&& forall|j: int|
                        0 <= j < i ==> (#[trigger] old(self).servers_view()[j]).id
                            != updated_server@.id
                    &&& final(self).servers_view() == old(self).servers_view().update(
                        i,
                        updated_server@,
                    )
                },
            final(self).users == old(self).users,
            final(self).next_server_id == old(self).next_server_id,
            final(self).max_concurrent_servers == old(self).max_concurrent_servers,
            final(self).max_total_ram_mb == old(self).max_total_ram_mb,
    {
        let mut i: usize = 0;
        while i < self.servers.len()
            invariant
                *self == *old(self),
                i <= self.servers.len(),
                forall|j: int|
                    0 <= j < i ==> (#[trigger] self.servers_view()[j]).id != updated_server@.id,
                exists|k: int|
                    0 <= k < self.servers_view().len() && (#[trigger] self.servers_view()[k]).id
                        == updated_server@.id,
            decreases self.servers.len() - i,
        {
            if self.servers[i].id == updated_server.id {
                let ghost wi = i as int;
                let ghost expected = old(self).servers_view().update(wi, updated_server@);
                proof {
                    assert((#[trigger] old(self).servers_view()[wi]).id == updated_server@.id);
                }
                let _ = self.servers.remove(i);
                self.servers.insert(i, updated_server);
                proof {
                    assert(self.servers_view() =~= expected);
                }
                return ;
            }
            i = i + 1;
        }
        proof {
            let k = choose|k: int|
                0 <= k < old(self).servers_view().len() && (#[trigger] old(
                    self,
                ).servers_view()[k]).id == updated_server@.id;
            assert(old(self).servers_view()[k].id != updated_server@.id);
        }
    }

    /// A copy of every server definition, in stored order.
    pub fn get_servers(&self) -> (copies: Vec<Server>)
        ensures
            server_views(copies@) == self.servers_view(),
    {
        let mut copies: Vec<Server> = Vec::new();
        let mut i: usize = 0;
        while i < self.servers.len()
            invariant
                i <= self.servers.len(),
                server_views(copies@) == self.servers_view().take(i as int),
            decreases self.servers.len() - i,
        {
            let ghost prev = copies@;
            copies.push(self.servers[i].clone());
            proof {
                lemma_server_views_push(prev, copies@.last());
                lemma_server_views_index(self.servers@, i as int);
                assert(self.servers_view().take(i as int).push(self.servers_view()[i as int])
                    =~= self.servers_view().take(i + 1));
            }
            i = i + 1;
        }
        proof {
            assert(self.servers_view().take(self.servers@.len() as int) =~= self.servers_view());
        }
        copies
    }

    /// Look up a server definition by identifier; the first match is
    /// returned.
    pub fn get_server(&self, server_id: usize) -> (found: Option<Server>)
        ensures
            match found {
                Some(server) => exists|i: int|
                    {
                        &&& 0 <= i < self.servers_view().len()
                        &&& #[trigger] self.servers_view()[i] == server@
                        &&& self.servers_view()[i].id == server_id
                        &&& forall|j: int|
                            0 <= j < i ==> (#[trigger] self.servers_view()[j]).id != server_id
                    },
                None => forall|i: int|
                    0 <= i < self.servers_view().len() ==> (#[trigger] self.servers_view()[i]).id
                        != server_id,
            },
    {
        let mut i: usize = 0;
        while i < self.servers.len()
            invariant
                i <= self.servers.len(),
                forall|j: int| 0 <= j < i ==> (#[trigger] self.servers_view()[j]).id != server_id,
            decreases self.servers.len() - i,
        {
            if self.servers[i].id == server_id {
                let server = self.servers[i].clone();
                proof {
                    let wi = i as int;
                    assert((#[trigger] self.servers_view()[wi]) == server@);
                }
                return Some(server);
            }
            i = i + 1;
        }
        None
    }

    /// Set the enabled flag of the first server definition with the given
    /// identifier; leave the configuration unchanged if none matches.
    pub fn set_server_enabled(&mut self, server: usize, enabled: bool)
        ensures
            (exists|i: int|
                0 <= i < old(self).servers_view().len() && (#[trigger] old(
                    self,
                ).servers_view()[i]).id == server) ==> exists|i: int|
                {
                    &&& 0 <= i < old(self).servers_view().len()
                    &&& (#[trigger] old(self).servers_view()[i]).id == server
                    &&& forall|j: int|
                        0 <= j < i ==> (#[trigger] old(self).servers_view()[j]).id != server
                    &&& final(self).servers_view() == old(self).servers_view().update(
                        i,
                        (ServerView { enabled, ..old(self).servers_view()[i] }),
                    )
                },
            (forall|i: int|
                0 <= i < old(self).servers_view().len() ==> (#[trigger] old(
                    self,
                ).servers_view()[i]).id != server) ==> final(self).servers_view() == old(
                self,
            ).servers_view(),
            final(self).users == old(self).users,
            final(self).next_server_id == old(self).next_server_id,
            final(self).max_concurrent_servers == old(self).max_concurrent_servers,
            final(self).max_total_ram_mb == old(self).max_total_ram_mb,
    {
        let mut i: usize = 0;
        while i < self.servers.len()
            invariant
                *self == *old(self),
                i <= self.servers.len(),
                forall|j: int|
                    0 <= j < i ==> (#[trigger] self.servers_view()[j]).id != server,
            decreases self.servers.len() - i,
        {
            if self.servers[i].id == server {
                let ghost wi = i as int;
                let mut found = self.servers.remove(i);
                found.enabled = enabled;
                proof {
                    assert(found@ == (ServerView { enabled, ..old(self).servers_view()[wi] }));
                }
                self.servers.insert(i, found);
                proof {
                    assert(self.servers_view() =~= old(self).servers_view().update(
                        wi,
                        (ServerView { enabled, ..old(self).servers_view()[wi] }),
                    ));
                    assert((#[trigger] old(self).servers_view()[wi]).id == server);
                }
                return ;
            }
            i = i + 1;
        }
    }

    /// The server definitions that are currently enabled, in stored order.
    pub open spec fn spec_enabled(servers: Seq<ServerView>) -> Seq<ServerView>
        decreases servers.len(),
    {
        if servers.len() == 0 {
            Seq::empty()
        } else {
            let front = Self::spec_enabled(servers.drop_last());
            if servers.last().enabled {
                front.push(servers.last())
            } else {
                front
            }
        }
    }

    /// Copies of the enabled server definitions, in stored order: the list
    /// handed to the supervisor when every configured server is started.
    pub fn enabled_servers(&self) -> (enabled: Vec<Server>)
        ensures
            server_views(enabled@) == Self::spec_enabled(self.servers_view()),
    {
        let mut enabled: Vec<Server> = Vec::new();
        let mut i: usize = 0;
        while i < self.servers.len()
            invariant
                i <= self.servers.len(),
                server_views(enabled@) == Self::spec_enabled(
                    self.servers_view().take(i as int),
                ),
            decreases self.servers.len() - i,
        {
            proof {
                assert(self.servers_view().take(i + 1).drop_last() =~= self.servers_view().take(
                    i as int,
                ));
                lemma_server_views_index(self.servers@, i as int);
            }
            if self.servers[i].enabled {
                let ghost prev = enabled@;
                enabled.push(self.servers[i].clone());
                proof {
                    lemma_server_views_push(prev, enabled@.last());
                }
            }
            i = i + 1;
        }
        proof {
            assert(self.servers_view().take(self.servers@.len() as int) =~= self.servers_view());
        }
        enabled
    }

    /// Clear the enabled flag of every server definition.
    pub fn disable_all(&mut self)
        ensures
            final(self).servers_view().len() == old(self).servers_view().len(),
            forall|i: int|
                0 <= i < old(self).servers_view().len()
                    ==> #[trigger] final(self).servers_view()[i] == (ServerView {
                    enabled: false,
                    ..old(self).servers_view()[i]
                }),
            final(self).users == old(self).users,
            final(self).next_server_id == old(self).next_server_id,
            final(self).max_concurrent_servers == old(self).max_concurrent_servers,
            final(self).max_total_ram_mb == old(self).max_total_ram_mb,
    {
        let mut flipped: Vec<Server> = Vec::new();
        let mut i: usize = 0;
        while i < self.servers.len()
            invariant
                *self == *old(self),
                i <= self.servers.len(),
                flipped@.len() == i,
                forall|j: int|
                    0 <= j < i ==> (#[trigger] flipped@[j])@ == (ServerView {
                        enabled: false,
                        ..self.servers_view()[j]
                    }),
            decreases self.servers.len() - i,
        {
            proof {
                lemma_server_views_index(self.servers@, i as int);
            }
            let mut server = self.servers[i].clone();
            server.enabled = false;
            flipped.push(server);
            i = i + 1;
        }
        self.servers = flipped;
        proof {
            assert forall|j: int|
                0 <= j < old(self).servers_view().len() implies #[trigger] self.servers_view()[j]
                    == (ServerView { enabled: false, ..old(self).servers_view()[j] }) by {
                lemma_server_views_index(self.servers@, j);
            }
        }
    }
}

/// Signing up and then logging in succeeds: an account whose stored hash
/// parses and matches a password — as every account built from a fresh
/// password hash does — is accepted once stored, as long as no earlier
/// account already carries its name.
pub proof fn lemma_signup_then_login(users: Seq<UserView>, account: UserView, password: Seq<char>)
    requires
        forall|i: int|
            0 <= i < users.len() ==> (#[trigger] users[i]).username != account.username,
        phc_parses(account.hashed_password),
        password_matches(account.hashed_password, password),
    ensures
        login_accepted(users.push(account), account.username, password),
{
    let stored = users.push(account);
    let k = users.len() as int;
    assert(stored[k] == account);
    assert forall|j: int| 0 <= j < k implies (#[trigger] stored[j]).username
        != account.username by {
        assert(stored[j] == users[j]);
    }
}

} // verus!
