use std::io::BufRead;

use file_hosting::accounts::{
    add_account, is_lookup_defined,
    check_login, is_name_taken, login_reply, login_reply_for, outcome_after_check,
    parse_users_file, register_user, user_hash_field, user_name_field, users_file_text,
    LoginOutcome, RegisterError,
};

// A bcrypt hash of "correctbatteryhorsestapler" at cost 4.
const HASH: &str = "$2b$04$EGdrhbKUv8Oc9vGiXX0HQOxSg445d458Muh7DAHskb6QbtCvdxcie";

fn strings(v: &[&str]) -> Vec<String> {
    v.iter().map(|s| s.to_string()).collect()
}

#[test]
fn reading_the_accounts_file() {
    assert_eq!(parse_users_file("alice=h1\nbob=h2"), strings(&["alice=h1", "bob=h2"]));
    assert_eq!(parse_users_file("a\r\nb\n"), strings(&["a", "b"]));
    assert_eq!(parse_users_file("a\n\nb"), strings(&["a", "", "b"]));
    assert_eq!(parse_users_file("x\r"), strings(&["x\r"]));
    assert_eq!(parse_users_file(""), Vec::<String>::new());
    assert_eq!(parse_users_file("\n"), strings(&[""]));
    for text in ["a\r\nb\n", "a\n\nb", "x\r", "\n\n", "one"] {
        let expected: Vec<String> = std::io::Cursor::new(text).lines().map(|l| l.unwrap()).collect();
        assert_eq!(parse_users_file(text), expected);
    }
}

#[test]
fn writing_the_accounts_file() {
    assert_eq!(users_file_text(&strings(&["alice=h1", "bob=h2"])), "alice=h1\nbob=h2");
    assert_eq!(users_file_text(&Vec::new()), "");
}

#[test]
fn accounts_file_round_trip() {
    let users = strings(&["alice=h1", "", "bob=h2"]);
    assert_eq!(parse_users_file(&users_file_text(&users)), users);
}

#[test]
fn fields_of_an_accounts_line() {
    assert_eq!(user_name_field("bob=xyz"), "bob");
    assert_eq!(user_name_field("nofield"), "nofield");
    assert_eq!(user_hash_field("a=b=c"), "b");
    assert_eq!(user_hash_field("a="), "");
    assert!(is_name_taken(&strings(&["alice=1", "bob=2"]), "bob"));
    assert!(!is_name_taken(&strings(&["alice=1", "bob=2"]), "bo"));
}

#[test]
fn login_with_the_right_password() {
    let users = vec![format!("alice={}", HASH)];
    assert_eq!(login_reply(&users, "alice", "correctbatteryhorsestapler"), "Login Successful\n");
}

#[test]
fn login_with_a_wrong_password() {
    let users = vec![format!("alice={}", HASH)];
    assert_eq!(login_reply(&users, "alice", "wrong"), "Password Incorrect\n");
}

#[test]
fn login_of_an_unknown_user() {
    let users = vec![format!("alice={}", HASH)];
    assert_eq!(login_reply(&users, "bob", "x"), "Username not found\n");
    assert_eq!(check_login(&Vec::new(), "bob", "x"), LoginOutcome::UnknownUser);
}

#[test]
fn login_against_an_unreadable_hash() {
    let users = strings(&["alice=zzz"]);
    assert_eq!(login_reply(&users, "alice", "x"), "Hello\n");
}

#[test]
fn login_uses_the_last_matching_line() {
    let users = vec![format!("alice={}", HASH), "alice=zzz".to_string(), "bob=1".to_string()];
    assert_eq!(check_login(&users, "alice", "correctbatteryhorsestapler"), LoginOutcome::Accepted);
    let users = vec![format!("alice={}", HASH), format!("alice={}", HASH.replace("Muh7", "Muh8"))];
    assert_eq!(check_login(&users, "alice", "correctbatteryhorsestapler"), LoginOutcome::Rejected);
}

#[test]
fn outcome_steps() {
    assert_eq!(outcome_after_check(LoginOutcome::UnknownUser, None), LoginOutcome::Unverified);
    assert_eq!(outcome_after_check(LoginOutcome::Accepted, None), LoginOutcome::Accepted);
    assert_eq!(outcome_after_check(LoginOutcome::Accepted, Some(false)), LoginOutcome::Rejected);
    assert_eq!(outcome_after_check(LoginOutcome::Rejected, Some(true)), LoginOutcome::Accepted);
    assert_eq!(login_reply_for(LoginOutcome::Unverified), "Hello\n");
}

#[test]
fn registering_a_taken_name_fails() {
    let users = strings(&["alice=1", "bob=2"]);
    assert_eq!(register_user(&users, "bob", "pw"), Err(RegisterError::UsernameTaken));
}

#[test]
fn registered_user_can_log_in_after_reload() {
    let users = strings(&["alice=1"]);
    let new_users = register_user(&users, "carol", "s3cret").unwrap();
    assert_eq!(new_users.len(), 2);
    assert_eq!(new_users[0], "alice=1");
    let line = &new_users[1];
    assert!(line.starts_with("carol=$2b$12$"));
    let hash = user_hash_field(line);
    assert_eq!(hash.len(), 60);
    assert_ne!(hash, "s3cret");
    let reloaded = parse_users_file(&users_file_text(&new_users));
    assert_eq!(reloaded, new_users);
    assert_eq!(login_reply(&reloaded, "carol", "s3cret"), "Login Successful\n");
    assert_eq!(login_reply(&reloaded, "carol", "s3cret2"), "Password Incorrect\n");
}

#[test]
fn adding_an_account_line() {
    let users = strings(&["alice=1"]);
    assert_eq!(add_account(&users, "bob", "h"), Ok(strings(&["alice=1", "bob=h"])));
    assert_eq!(add_account(&users, "alice", "h"), Err(RegisterError::UsernameTaken));
    assert_eq!(add_account(&Vec::new(), "a", "b"), Ok(strings(&["a=b"])));
}

#[test]
fn lookup_needs_a_hash_on_matching_lines() {
    assert!(is_lookup_defined(&strings(&["alice", "bob=1"]), "bob"));
    assert!(!is_lookup_defined(&strings(&["alice", "bob=1"]), "alice"));
    assert!(is_lookup_defined(&Vec::new(), "alice"));
}

#[test]
fn registration_keeps_old_lines_and_distinct_names() {
    let old = strings(&[&format!("amy={}", HASH), &format!("carl={}", HASH)]);
    let new_users = add_account(&old, "bob", HASH).unwrap();
    assert_eq!(&new_users[..2], &old[..]);
    let names: Vec<String> = new_users.iter().map(|l| user_name_field(l)).collect();
    assert_eq!(names, strings(&["amy", "carl", "bob"]));
    assert_eq!(add_account(&new_users, "carl", HASH), Err(RegisterError::UsernameTaken));
    let reread = parse_users_file(&users_file_text(&new_users));
    assert_eq!(reread, new_users);
}

#[test]
fn login_with_distinct_names_is_accepted_exactly_when_the_line_verifies() {
    let users = strings(&[&format!("amy={}", HASH), "bob=$2b$04$notavalidhashatall", &format!("carl={}", HASH)]);
    assert_eq!(login_reply(&users, "carl", "correctbatteryhorsestapler"), "Login Successful\n");
    assert_eq!(login_reply(&users, "carl", "wrong"), "Password Incorrect\n");
    assert_eq!(login_reply(&users, "bob", "correctbatteryhorsestapler"), "Hello\n");
    assert_eq!(login_reply(&users, "dan", "correctbatteryhorsestapler"), "Username not found\n");
}
