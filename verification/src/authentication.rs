//! Logins: users with hashed passwords and the role a login grants.

use sha2::Digest;
use vstd::prelude::*;
use vstd::string::*;

verus! {

/// The SHA-256 digest of the UTF-8 bytes of `text`, as sixty-four
/// upper-case hexadecimal digits.
pub uninterp spec fn sha256_upper_hex(text: Seq<char>) -> Seq<char>;

/// `text` with every character in lower case, as Unicode defines it.
pub uninterp spec fn lowercase(text: Seq<char>) -> Seq<char>;

/// `str::to_lowercase` depends on the text alone; the contract names its
/// result [`lowercase`].
pub assume_specification[ str::to_lowercase ](text: &str) -> (lower: String)
    ensures
        lower@ == lowercase(text@),
;

/// Hashes a password: `sha2::Sha256::digest` on its bytes, formatted in
/// upper-case hexadecimal. The digest depends on the text alone; the
/// contract names it [`sha256_upper_hex`].
#[verifier::external_body]
pub fn hash_password(password: &str) -> (digest: String)
    ensures
        digest@ == sha256_upper_hex(password@),
{
    format!("{:X}", sha2::Sha256::digest(password))
}

/// The greeting for `name`.
pub fn greet_user(name: &str) -> (greeting: String)
    ensures
        greeting@ == "Hello, "@ + name@ + "!"@,
{
    String::from_str("Hello, ").concat(name).concat("!")
}

/// What a login grants.
#[derive(Debug, Clone, Copy, PartialEq, Eq, Structural)]
pub enum LoginRole {
    Admin,
    User,
}

/// The outcome of a login by a known user.
#[derive(Debug, Clone, Copy, PartialEq, Eq, Structural)]
pub enum LoginAction {
    /// The password matched; the user has this role.
    Granted(LoginRole),
    /// The password did not match.
    Denied,
}

/// A user: the name in lower case, the password hashed.
#[derive(Debug, PartialEq, Eq)]
pub struct User {
    pub username: String,
    pub password: String,
    pub role: LoginRole,
}

/// A [`User`] with its texts as sequences.
pub struct UserView {
    pub username: Seq<char>,
    pub password: Seq<char>,
    pub role: LoginRole,
}

impl View for User {
    type V = UserView;

    open spec fn view(&self) -> UserView {
        UserView { username: self.username@, password: self.password@, role: self.role }
    }
}

/// The user made from a name and a clear password.
pub open spec fn new_user(username: Seq<char>, password: Seq<char>, role: LoginRole) -> UserView {
    UserView { username: lowercase(username), password: sha256_upper_hex(password), role }
}

impl User {
    /// Makes a user: the name is put in lower case, the password is hashed.
    pub fn new(username: &str, password: &str, role: LoginRole) -> (user: User)
        ensures
            user@ == new_user(username@, password@, role),
    {
        User { username: username.to_lowercase(), password: hash_password(password), role }
    }
}

/// The user filed under `key`: the first entry with that key.
pub open spec fn lookup(users: Seq<(String, User)>, key: Seq<char>) -> Option<UserView>
    decreases users.len(),
{
    if users.len() == 0 {
        None
    } else if users[0].0@ == key {
        Some(users[0].1@)
    } else {
        lookup(users.skip(1), key)
    }
}

/// No key is filed twice.
pub open spec fn distinct_keys(users: Seq<(String, User)>) -> bool {
    forall|i: int, j: int| 0 <= i < j < users.len() ==> users[i].0@ != users[j].0@
}

/// The outcome of a login: the name is looked up in lower case; a user
/// found is granted their role where the hash of the password is the one
/// stored, and denied otherwise; an unknown name gives `None`.
pub open spec fn login_spec(users: Seq<(String, User)>, username: Seq<char>, password: Seq<char>)
    -> Option<LoginAction> {
    match lookup(users, lowercase(username)) {
        Some(user) => if user.password == sha256_upper_hex(password) {
            Some(LoginAction::Granted(user.role))
        } else {
            Some(LoginAction::Denied)
        },
        None => None,
    }
}

/// The users that exist where none were stored: an administrator `admin`
/// and a plain user `mike`, each filed under its name, both with the
/// password `password`.
pub fn get_default_users() -> (users: Vec<(String, User)>)
    ensures
        users@.len() == 2,
        users@[0].0@ == "admin"@,
        users@[0].1@ == new_user("admin"@, "password"@, LoginRole::Admin),
        users@[1].0@ == "mike"@,
        users@[1].1@ == new_user("mike"@, "password"@, LoginRole::User),
        distinct_keys(users@),
{
    let mut users: Vec<(String, User)> = Vec::new();
    users.push((String::from_str("admin"), User::new("admin", "password", LoginRole::Admin)));
    users.push((String::from_str("mike"), User::new("mike", "password", LoginRole::User)));
    proof {
        reveal_strlit("admin");
        reveal_strlit("mike");
        assert("admin"@.len() != "mike"@.len());
    }
    users
}

/// Checks a login against `users`.
pub fn login(users: &Vec<(String, User)>, username: &str, password: &str) -> (outcome: Option<
    LoginAction,
>)
    ensures
        outcome == login_spec(users@, username@, password@),
{
    let key: String = username.to_lowercase();
    let hashed: String = hash_password(password);
    let mut i: usize = 0;
    assert(users@.skip(0) =~= users@);
    while i < users.len()
        invariant
            i <= users@.len(),
            key@ == lowercase(username@),
            hashed@ == sha256_upper_hex(password@),
            lookup(users@, key@) == lookup(users@.skip(i as int), key@),
        decreases users@.len() - i,
    {
        if users[i].0 == key {
            assert(users@.skip(i as int)[0] == users@[i as int]);
            if users[i].1.password == hashed {
                return Some(LoginAction::Granted(users[i].1.role));
            } else {
                return Some(LoginAction::Denied);
            }
        }
        assert(users@.skip(i as int)[0] == users@[i as int]);
        assert(users@.skip(i as int).skip(1) =~= users@.skip(i + 1));
        i += 1;
    }
    assert(users@.skip(i as int).len() == 0);
    None
}

} // verus!
