use collector::authentication::{
    get_default_users, greet_user, hash_password, login, LoginAction, LoginRole, User,
};

#[test]
fn test_greet_user() {
    assert_eq!("Hello, Michael!", greet_user("Michael"));
}

#[test]
fn test_login() {
    let users = get_default_users();
    assert_eq!(Some(LoginAction::Granted(LoginRole::Admin)), login(&users, "ADMIN", "password"));
    assert_eq!(Some(LoginAction::Granted(LoginRole::Admin)), login(&users, "admin", "password"));
    assert_eq!(Some(LoginAction::Granted(LoginRole::User)), login(&users, "mike", "password"));
    assert_eq!(Some(LoginAction::Denied), login(&users, "admin", "wrong_password"));
    assert_eq!(None, login(&users, "wrong_username", "password"));
}

#[test]
fn greeting_of_an_empty_name() {
    assert_eq!(greet_user(""), "Hello, !");
}

#[test]
fn passwords_are_hashed_with_sha256_in_upper_hex() {
    assert_eq!(
        hash_password("password"),
        "5E884898DA28047151D0E56F8DC6292773603D0D6AABBDD62A11EF721D1542D8"
    );
    assert_eq!(
        hash_password(""),
        "E3B0C44298FC1C149AFBF4C8996FB92427AE41E4649B934CA495991B7852B855"
    );
}

#[test]
fn a_new_user_has_a_lower_case_name_and_a_hashed_password() {
    let user = User::new("MiKe", "password", LoginRole::User);
    assert_eq!(user.username, "mike");
    assert_eq!(
        user.password,
        "5E884898DA28047151D0E56F8DC6292773603D0D6AABBDD62A11EF721D1542D8"
    );
    assert_eq!(user.role, LoginRole::User);
}

#[test]
fn the_default_users_are_admin_and_mike() {
    let users = get_default_users();
    assert_eq!(users.len(), 2);
    assert_eq!(users[0].0, "admin");
    assert_eq!(users[0].1, User::new("admin", "password", LoginRole::Admin));
    assert_eq!(users[1].0, "mike");
    assert_eq!(users[1].1, User::new("mike", "password", LoginRole::User));
}

#[test]
fn login_takes_the_first_entry_under_a_key() {
    let users = vec![
        ("ann".to_string(), User::new("ann", "one", LoginRole::User)),
        ("ann".to_string(), User::new("ann", "two", LoginRole::Admin)),
    ];
    assert_eq!(login(&users, "Ann", "one"), Some(LoginAction::Granted(LoginRole::User)));
    assert_eq!(login(&users, "ann", "two"), Some(LoginAction::Denied));
    assert_eq!(login(&Vec::new(), "ann", "one"), None);
}
