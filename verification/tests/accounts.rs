use cryptocraft::auth::{
    confirm_password, greeting, read_wish, AuthProvider, LocalAuthProvider,
    LoginEvent, LoginStep, UserRecord, Wish,
};

const SALT: &str = "AAAAAAAAAAAAAAAAAAAAAA";

fn empty() -> LocalAuthProvider {
    LocalAuthProvider::load(Vec::new())
}

fn record(id: &str, email: &str, hash: &str) -> UserRecord {
    UserRecord {
        user_id: id.to_string(),
        email: email.to_string(),
        password_hash: hash.to_string(),
        created_at: 1,
    }
}

fn register(p: &mut LocalAuthProvider, email: &str, password: &str) -> Result<String, String> {
    p.register_with(email, password, SALT, "id-1".to_string(), 5).map(|s| s.user_id)
}

#[test]
fn registered_account_can_log_in() {
    let mut p = empty();
    assert!(!p.has_users());
    let s = p.register("  Ann@Example.com \n", "correct horse").unwrap();
    assert!(p.has_users());
    assert_eq!(s.email, "ann@example.com");
    assert_eq!(s.chain_file, "cryptocraft_chain_ann_example_com-ad.json");
    let t = p.login("ANN@example.com", "correct horse").unwrap();
    assert_eq!(t.email, s.email);
    assert_eq!(t.user_id, s.user_id);
    assert_eq!(t.chain_file, s.chain_file);
    assert_eq!(p.login("ann@example.com", "wrong horse").unwrap_err(), "Incorrect password.");
}

#[test]
fn passwords_are_kept_as_salted_hashes() {
    let mut p = empty();
    p.register("a@x", "same password").unwrap();
    p.register("b@x", "same password").unwrap();
    assert!(p.users[0].password_hash.starts_with("$argon2id$v=19$m=19456,t=2,p=1$"));
    assert!(!p.users[0].password_hash.contains("same password"));
    assert_ne!(p.users[0].password_hash, p.users[1].password_hash);
}

#[test]
fn given_salt_gives_a_given_hash() {
    let mut p = empty();
    let mut q = empty();
    register(&mut p, "a@x", "same password").unwrap();
    register(&mut q, "b@x", "same password").unwrap();
    assert_eq!(p.users[0].password_hash, q.users[0].password_hash);
    let head = format!("$argon2id$v=19$m=19456,t=2,p=1${}$", SALT);
    assert!(p.users[0].password_hash.starts_with(&head));
    assert_eq!(p.users[0].password_hash.len(), head.len() + 43);
    let mut r = empty();
    let other = "AAAAAAAAAAAAAAAAAAAAAQ";
    r.register_with("a@x", "same password", other, "id".to_string(), 0).unwrap();
    assert_ne!(p.users[0].password_hash, r.users[0].password_hash);
    assert_eq!(p.users[0].created_at, 5);
    assert_eq!(p.users[0].user_id, "id-1");
}

#[test]
fn user_ids_are_random_identifiers() {
    let mut p = empty();
    let a = p.register("a@x", "password").unwrap().user_id;
    let b = p.register("b@x", "password").unwrap().user_id;
    assert_ne!(a, b);
    for id in [a, b] {
        let c: Vec<char> = id.chars().collect();
        assert_eq!(c.len(), 36);
        for (i, ch) in c.iter().enumerate() {
            if [8, 13, 18, 23].contains(&i) {
                assert_eq!(*ch, '-');
            } else {
                assert!(ch.is_ascii_digit() || ('a'..='f').contains(ch));
            }
        }
        assert_eq!(c[14], '4');
        assert!("89ab".contains(c[19]));
    }
}

#[test]
fn bad_registrations_are_refused() {
    let mut p = empty();
    for email in ["", "   ", "ann"] {
        assert_eq!(
            register(&mut p, email, "password").unwrap_err(),
            "Please enter a valid email address."
        );
    }
    assert_eq!(
        register(&mut p, "ann@x", "1234567").unwrap_err(),
        "Password must be at least 8 characters."
    );
    assert!(!p.has_users());
    assert_eq!(register(&mut p, "ann@x", "12345678").unwrap(), "id-1");
    assert_eq!(
        register(&mut p, " ANN@x", "another password").unwrap_err(),
        "An account with that email already exists."
    );
    assert_eq!(p.users.len(), 1);
}

#[test]
fn password_length_is_in_bytes() {
    let mut p = empty();
    assert!(register(&mut p, "ann@x", "ääää").is_ok());
}

#[test]
fn short_password_is_named_before_a_taken_address() {
    let mut p = empty();
    register(&mut p, "ann@x", "password").unwrap();
    assert_eq!(
        register(&mut p, "ann@x", "short").unwrap_err(),
        "Password must be at least 8 characters."
    );
}

#[test]
fn unusable_salt_is_reported() {
    let mut p = empty();
    let e = p.register_with("ann@x", "password", "a_b", "id".to_string(), 0).unwrap_err();
    assert!(e.contains("salt"));
    assert!(!p.has_users());
}

#[test]
fn unknown_accounts_and_broken_hashes_do_not_log_in() {
    let mut p = LocalAuthProvider::load(vec![record("1", "ann@x", "not a hash")]);
    assert_eq!(p.login("bob@x", "password").unwrap_err(), "No account found with that email.");
    let e = p.login("ann@x", "password").unwrap_err();
    assert_ne!(e, "Incorrect password.");
    assert!(e.contains("password hash"));
}

#[test]
fn nothing_fits_a_hash_with_too_many_lanes() {
    let mut p = empty();
    register(&mut p, "ann@x", "password").unwrap();
    let good = p.users[0].password_hash.clone();
    for lanes in ["536870912", "99999999", "4294967295", "4294967296", "16777216", "12345678901"] {
        let bad = good.replace("p=1", &format!("p={}", lanes));
        let mut q = LocalAuthProvider::load(vec![record("1", "ann@x", &bad)]);
        assert_eq!(q.login("ann@x", "password").unwrap_err(), "Incorrect password.");
    }
    for (lanes, fits) in [("p=536870912,p=1", true), ("p=1,p=536870912", false)] {
        let twice = good.replace("p=1", lanes);
        let mut q = LocalAuthProvider::load(vec![record("1", "ann@x", &twice)]);
        assert_eq!(q.login("ann@x", "password").is_ok(), fits);
    }
    let broken = "p=536870912";
    let mut q = LocalAuthProvider::load(vec![record("1", "ann@x", broken)]);
    assert_ne!(q.login("ann@x", "password").unwrap_err(), "Incorrect password.");
    let mut q = LocalAuthProvider::load(vec![record("1", "ann@x", &good)]);
    assert!(q.login("ann@x", "password").is_ok());
}

#[test]
fn last_record_of_an_address_counts() {
    let p = LocalAuthProvider::load(vec![
        record("1", "ann@x", "h1"),
        record("2", "bob@x", "h2"),
        record("3", "ann@x", "h3"),
    ]);
    assert_eq!(p.users.len(), 2);
    assert_eq!(p.users[0].user_id, "3");
    assert_eq!(p.users[1].user_id, "2");
}

#[test]
fn registering_leaves_others_alone() {
    let mut p = empty();
    p.register("ann@x", "password one").unwrap();
    p.register("bob@x", "password two").unwrap();
    assert!(p.login("ann@x", "password one").is_ok());
    assert!(p.login("ann@x", "password two").is_err());
    assert!(p.login("bob@x", "password two").is_ok());
}

#[test]
fn chain_files_have_safe_names() {
    assert_eq!(LocalAuthProvider::chain_file_for("a.b+c d@x"), "cryptocraft_chain_a_b_c_d_x.json");
    assert_eq!(LocalAuthProvider::chain_file_for("plain"), "cryptocraft_chain_plain.json");
    assert_eq!(LocalAuthProvider::chain_file_for("jo.d+x y@m.io"), "cryptocraft_chain_jo_d_x_y_m_io.json");
    assert_eq!(LocalAuthProvider::chain_file_for("../a\\b@x"), "cryptocraft_chain____a_b_x.json");
}

#[test]
fn accounts_have_their_own_files() {
    let mut p = empty();
    let emails = ["a.b@x", "a_b@x", "a+b@x", "a b@x", "a/b@x", "a\\b@x", "a.b.x@", "a-b@x", "a-@x"];
    let mut files: Vec<String> = Vec::new();
    for email in emails {
        let s = p.register_with(email, "password", SALT, email.to_string(), 0).unwrap();
        assert_eq!(s.email, email);
        assert_eq!(s.user_id, email);
        assert!(s.chain_file.starts_with("cryptocraft_chain_"));
        let stem = s.chain_file.strip_suffix(".json").unwrap();
        assert!(!stem.contains(['@', '.', '+', ' ', '/', '\\']));
        assert!(!files.contains(&s.chain_file));
        files.push(s.chain_file);
    }
    let s = LocalAuthProvider::make_session(&record("7", "a.b@x", "h"));
    assert_eq!(s.email, "a.b@x");
    assert_eq!(s.user_id, "7");
    assert_eq!(s.chain_file, files[0]);
    assert_eq!(files[0], "cryptocraft_chain_a_b_x-da.json");
    assert_eq!(files[1], "cryptocraft_chain_a_b_x-ua.json");
    assert_eq!(files[2], "cryptocraft_chain_a_b_x-pa.json");
    assert_eq!(files[3], "cryptocraft_chain_a_b_x-sa.json");
    assert_eq!(files[4], "cryptocraft_chain_a_b_x-fa.json");
    assert_eq!(files[5], "cryptocraft_chain_a_b_x-ba.json");
}

#[test]
fn visitors_log_in_or_register() {
    assert_eq!(read_wish(true, " 1 "), Wish::Login);
    assert_eq!(read_wish(true, "2"), Wish::Register);
    assert_eq!(read_wish(true, ""), Wish::Register);
    assert_eq!(read_wish(false, "1"), Wish::Register);
}

#[test]
fn visitors_are_greeted() {
    assert!(confirm_password("a", "a").is_ok());
    assert_eq!(confirm_password("a", "b").unwrap_err(), "Passwords do not match.");
    let mut p = empty();
    let s = p.register("ann@x", "password").unwrap();
    assert_eq!(greeting(Wish::Login, &s), "Logged in as ann@x. Welcome back!");
    assert_eq!(greeting(Wish::Register, &s), "Account created! Welcome, ann@x!");
}

fn typed(s: &str) -> LoginEvent {
    LoginEvent::Typed(s.to_string())
}

fn walk(has_users: bool, lines: &[&str]) -> LoginStep {
    let mut step = LoginStep::AskWish;
    for line in lines {
        let (next, told) = step.advance(has_users, typed(line));
        assert_eq!(told, None);
        step = next;
    }
    step
}

#[test]
fn visitors_are_led_to_log_in() {
    match walk(true, &[" 1\n", " ann@x \n", "password"]) {
        LoginStep::TryLogin { email, password } => {
            assert_eq!(email, "ann@x");
            assert_eq!(password, "password");
        }
        _ => panic!("no attempt to log in"),
    }
    let step = walk(true, &["1", "ann@x", "password"]);
    let (step, told) = step.advance(true, LoginEvent::Outcome(Err("no".to_string())));
    assert!(matches!(step, LoginStep::AskWish));
    assert_eq!(told.unwrap(), "Error: no");
    let mut p = empty();
    let session = p.register("ann@x", "password").unwrap();
    let file = session.chain_file.clone();
    let step = walk(true, &["1", "ann@x", "password"]);
    let (step, told) = step.advance(true, LoginEvent::Outcome(Ok(session)));
    assert_eq!(told.unwrap(), "Logged in as ann@x. Welcome back!");
    match step {
        LoginStep::Done(s) => assert_eq!(s.chain_file, file),
        _ => panic!("not in"),
    }
}

#[test]
fn visitors_are_led_to_register() {
    let (step, told) =
        walk(true, &["2", "ann@x", "password"]).advance(true, typed("passwort"));
    assert!(matches!(step, LoginStep::AskWish));
    assert_eq!(told.unwrap(), "Passwords do not match.");
    match walk(false, &["1", "\tann@x", "password", "password"]) {
        LoginStep::TryRegister { email, password } => {
            assert_eq!(email, "ann@x");
            assert_eq!(password, "password");
        }
        _ => panic!("no attempt to register"),
    }
    let mut p = empty();
    let session = p.register("ann@x", "password").unwrap();
    let step = walk(true, &["2", "ann@x", "password", "password"]);
    let (step, told) = step.advance(true, LoginEvent::Outcome(Ok(session)));
    assert_eq!(told.unwrap(), "Account created! Welcome, ann@x!");
    assert!(matches!(step, LoginStep::Done(_)));
}

#[test]
fn steps_wait_for_what_they_asked_for() {
    let (step, told) = walk(true, &["1"]).advance(true, LoginEvent::Outcome(Err("no".to_string())));
    assert!(matches!(step, LoginStep::AskEmail(Wish::Login)));
    assert_eq!(told, None);
    let (step, told) = walk(true, &["1", "ann@x", "password"]).advance(true, typed("again"));
    assert!(matches!(step, LoginStep::TryLogin { .. }));
    assert_eq!(told, None);
}
