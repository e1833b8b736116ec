use argon2::password_hash::{PasswordHash, PasswordVerifier};
use argon2::Argon2;
use tnsm_relay::account::{gen_hash, hash_under, pick_password, typed_password, HashError};

fn verifies(hash: &str, password: &str) -> bool {
    match PasswordHash::new(hash) {
        Ok(parsed) => Argon2::default().verify_password(password.as_bytes(), &parsed).is_ok(),
        Err(_) => false,
    }
}

#[test]
fn line_end_is_not_part_of_the_password() {
    assert_eq!(typed_password("secret\n"), "secret");
    assert_eq!(typed_password("secret\r\n"), "secret");
    assert_eq!(typed_password("secret"), "secret");
    assert_eq!(typed_password(" se\ncret \n\r\n"), " se\ncret ");
    assert_eq!(typed_password("\n"), "");
}

#[test]
fn password_given_comes_first() {
    let given = pick_password(Some("arg\n".to_string()), Some("typed\n".to_string()));
    assert!(matches!(given, Ok(p) if p == "arg\n"));
    let typed = pick_password(None, Some("typed\n".to_string()));
    assert!(matches!(typed, Ok(p) if p == "typed"));
}

#[test]
fn no_password_no_hash() {
    assert!(matches!(gen_hash(None, None), Err(HashError::Unread)));
    assert!(matches!(gen_hash(Some(String::new()), Some("x".to_string())), Err(HashError::Empty)));
    assert!(matches!(gen_hash(None, Some("\r\n".to_string())), Err(HashError::Empty)));
}

#[test]
fn messages() {
    assert_eq!(HashError::Unread.message(), "failed to read password");
    assert_eq!(HashError::Empty.message(), "empty password; aborting");
    assert_eq!(HashError::Failed("invalid password".to_string()).message(), "hash error: invalid password");
}

#[test]
fn hash_says_how_it_was_made() {
    let salt = "AAECAwQFBgcICQoLDA0ODw";
    match hash_under("hunter2", salt) {
        Ok(h) => {
            let prefix = format!("$argon2id$v=19$m=19456,t=2,p=1${}$", salt);
            assert!(h.starts_with(&prefix), "{}", h);
            assert_eq!(h.len(), prefix.len() + 43);
            assert!(verifies(&h, "hunter2"));
            assert!(!verifies(&h, "hunter3"));
        }
        Err(e) => panic!("{}", e.message()),
    }
}

#[test]
fn hash_depends_on_password_and_salt_alone() {
    let a = hash_under("pw", "AAECAwQFBgcICQoLDA0ODw").ok();
    let b = hash_under("pw", "AAECAwQFBgcICQoLDA0ODw").ok();
    let c = hash_under("pw", "AAECAwQFBgcICQoLDA0OAA").ok();
    let d = hash_under("pw2", "AAECAwQFBgcICQoLDA0ODw").ok();
    assert!(a.is_some());
    assert_eq!(a, b);
    assert_ne!(a, c);
    assert_ne!(a, d);
}

#[test]
fn every_hash_has_its_own_salt() {
    let a = gen_hash(Some("pw".to_string()), None);
    let b = gen_hash(None, Some("pw\n".to_string()));
    match (a, b) {
        (Ok(a), Ok(b)) => {
            assert!(verifies(&a, "pw"));
            assert!(verifies(&b, "pw"));
            assert_ne!(a, b);
            let fields: Vec<&str> = a.split('$').collect();
            assert_eq!(fields.len(), 6);
            assert_eq!(fields[4].len(), 22);
            assert!("AQgw".contains(&fields[4][21..]));
        }
        _ => panic!("both have a hash"),
    }
}
