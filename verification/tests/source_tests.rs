use auth::codec::decode_role;
use auth::password::Password;
use auth::source::{
    ChangePasswordContext, ChangePasswordError, IdContext, MemoryUserSource, StoreError,
};
use auth::{Role, User};

#[test]
fn test_db_ops() {
    let mut store = MemoryUserSource::new();
    let cx = IdContext { username: "foo", password: "bar" };
    let u = User {
        username: cx.username.into(),
        password: Password::generate(cx.password),
        role: None,
    };
    store.write(&u).unwrap();
    let r_u = store.id(&cx).unwrap();
    assert_eq!(u.username, r_u.username);
}

#[test]
fn test_db_compatibility() {
    // A credential maps to the stored row form and back, byte-exactly.
    let password = Password::generate("foo");
    let u = User {
        username: "bar".into(),
        password,
        role: Some(Role::Guest),
    };
    let mut store = MemoryUserSource::new();
    store.write(&u).unwrap();
    assert_eq!(store.rows.len(), 1);
    let row = &store.rows[0];
    assert_eq!(row.username, "bar");
    let decoded = Password::decode(&row.password_text).unwrap();
    assert!(decoded.matches("foo"));
    assert_eq!(decode_role(row.role_text.as_ref().unwrap()), Some(Role::Guest));
    let r_u = store.id(&IdContext { username: "bar", password: "foo" }).unwrap();
    assert_eq!(r_u.role, Some(Role::Guest));
}

#[test]
fn test_authenticate_outcomes() {
    let mut store = MemoryUserSource::new();
    let u = User {
        username: "foo".into(),
        password: Password::generate("bar"),
        role: None,
    };
    store.write(&u).unwrap();
    let admitted = store.id(&IdContext { username: "foo", password: "bar" }).unwrap();
    assert_eq!(admitted.username, "foo");
    // Anti-enumeration: a wrong secret and an absent username are the same
    // outcome, a bare absence.
    let wrong = store.id(&IdContext { username: "foo", password: "wrong" });
    let missing = store.id(&IdContext { username: "missing", password: "bar" });
    assert!(wrong.is_none());
    assert!(missing.is_none());
}

#[test]
fn test_idempotent_write() {
    let mut store = MemoryUserSource::new();
    let first = User {
        username: "foo".into(),
        password: Password::generate("one"),
        role: None,
    };
    let second = User {
        username: "foo".into(),
        password: Password::generate("two"),
        role: Some(Role::Admin),
    };
    store.write(&first).unwrap();
    store.write(&second).unwrap();
    // Exactly one record remains, and the second write's credential wins.
    assert_eq!(store.rows.len(), 1);
    assert!(store.id(&IdContext { username: "foo", password: "one" }).is_none());
    let r_u = store.id(&IdContext { username: "foo", password: "two" }).unwrap();
    assert_eq!(r_u.role, Some(Role::Admin));
}

#[test]
fn test_write_keeps_other_records() {
    let mut store = MemoryUserSource::new();
    let a = User {
        username: "a".into(),
        password: Password::generate("pa"),
        role: None,
    };
    let b = User {
        username: "b".into(),
        password: Password::generate("pb"),
        role: Some(Role::Standard),
    };
    store.write(&a).unwrap();
    store.write(&b).unwrap();
    let a2 = User {
        username: "a".into(),
        password: Password::generate("pa2"),
        role: None,
    };
    store.write(&a2).unwrap();
    assert_eq!(store.rows.len(), 2);
    assert!(store.id(&IdContext { username: "b", password: "pb" }).is_some());
    assert!(store.id(&IdContext { username: "a", password: "pa2" }).is_some());
    assert!(store.id(&IdContext { username: "a", password: "pa" }).is_none());
}

#[test]
fn test_change_password() {
    let mut store = MemoryUserSource::new();
    let u = User {
        username: "foo".into(),
        password: Password::generate("bar"),
        role: Some(Role::Standard),
    };
    store.write(&u).unwrap();
    store
        .change_password("foo", &ChangePasswordContext { old_password: "bar", new_password: "baz" })
        .unwrap();
    assert!(store.id(&IdContext { username: "foo", password: "bar" }).is_none());
    let r_u = store.id(&IdContext { username: "foo", password: "baz" }).unwrap();
    // The username and role are carried over; only the credential changed.
    assert_eq!(r_u.username, "foo");
    assert_eq!(r_u.role, Some(Role::Standard));
}

#[test]
fn test_change_password_wrong_old() {
    let mut store = MemoryUserSource::new();
    let u = User {
        username: "foo".into(),
        password: Password::generate("bar"),
        role: None,
    };
    store.write(&u).unwrap();
    let r = store.change_password(
        "foo",
        &ChangePasswordContext { old_password: "wrong", new_password: "baz" },
    );
    assert!(matches!(r, Err(ChangePasswordError::WrongOldPassword)));
    // No mutation occurred: the old credential still verifies.
    assert!(store.id(&IdContext { username: "foo", password: "bar" }).is_some());
    assert!(store.id(&IdContext { username: "foo", password: "baz" }).is_none());
    // A missing username fails the same way.
    let r = store.change_password(
        "missing",
        &ChangePasswordContext { old_password: "bar", new_password: "baz" },
    );
    assert!(matches!(r, Err(ChangePasswordError::WrongOldPassword)));
}

#[test]
fn test_error_messages() {
    assert_eq!(ChangePasswordError::WrongOldPassword.message(), "Wrong old password");
    let e = ChangePasswordError::Db(StoreError { message: "store unreachable".into() });
    assert_eq!(e.message(), "store unreachable");
}
