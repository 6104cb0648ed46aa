use robustmq::security::{
    authentication_acl, check_fetched_user, check_login_auth, plaintext_check, Login, LoginDecision, MQTTUser,
};

fn login(u: &str, p: &str) -> Login {
    Login { username: u.to_string(), password: p.to_string() }
}

fn user(u: &str, p: &str) -> MQTTUser {
    MQTTUser { username: u.to_string(), password: p.to_string(), is_superuser: false }
}

#[test]
fn plaintext_login_of_admin() {
    let l = Some(login("admin", "pwd123"));
    assert_eq!(check_login_auth(false, &l, &Some(user("admin", "pwd123"))), LoginDecision::Allow);
    assert_eq!(check_login_auth(false, &l, &Some(user("admin", "other"))), LoginDecision::Deny);
    assert_eq!(check_login_auth(false, &l, &None), LoginDecision::FetchUser);
    assert_eq!(check_login_auth(false, &None, &None), LoginDecision::Deny);
    assert_eq!(check_login_auth(true, &None, &None), LoginDecision::Allow);
}

#[test]
fn fetched_user_is_checked() {
    let l = login("admin", "pwd123");
    assert!(check_fetched_user(&l, &Some(user("admin", "pwd123"))));
    assert!(!check_fetched_user(&l, &Some(user("admin", "x"))));
    assert!(!check_fetched_user(&l, &None));
    assert!(plaintext_check(&user("a", "b"), &login("a", "b")));
    assert!(!plaintext_check(&user("a", "b"), &login("b", "b")));
}

#[test]
fn acl_authentication_is_off() {
    assert!(!authentication_acl());
}
