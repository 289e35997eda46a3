use auth::codec::{decode_role, encode_role};
use auth::password::Password;
use auth::Role;

#[test]
fn test_matches() {
    let c = Password::generate("foo");
    assert!(c.matches("foo"));
    assert!(!c.matches("bar"));
}

#[test]
fn test_empty_secret_accepted() {
    let c = Password::generate("");
    assert!(c.matches(""));
    assert!(!c.matches("x"));
}

#[test]
fn test_salt_freshness() {
    let a = Password::generate("foo");
    let b = Password::generate("foo");
    // Fresh independent salts: the same secret hashes differently, with
    // overwhelming probability.
    assert_ne!(a.salt, b.salt);
    assert_ne!(a.hash, b.hash);
}

#[test]
fn test_rejection_under_fixed_credential() {
    let c = Password::generate("s1");
    assert!(!c.matches("s2"));
    assert!(!c.matches("S1"));
    assert!(!c.matches("s1 "));
}

#[test]
fn test_serialization_round_trip() {
    let p = Password::generate("secret");
    let e = p.encode();
    assert_eq!(e.len(), 80);
    assert!(e.iter().all(|c| c.is_ascii_hexdigit()));
    let d = Password::decode(&e).unwrap();
    assert_eq!(d.hash, p.hash);
    assert_eq!(d.salt, p.salt);
    // The serialized form is canonical: re-encoding reproduces it exactly.
    assert_eq!(d.encode(), e);
}

#[test]
fn test_decode_rejects_corrupt_text() {
    assert!(Password::decode(b"").is_none());
    assert!(Password::decode(&[b'a'; 79]).is_none());
    assert!(Password::decode(&[b'a'; 81]).is_none());
    assert!(Password::decode(&[b'z'; 80]).is_none());
    let mut e = Password::generate("s").encode();
    e[0] = b'G';
    assert!(Password::decode(&e).is_none());
}

#[test]
fn test_decode_rejects_uppercase_armor() {
    let mut e = Password::generate("s").encode();
    for c in e.iter_mut() {
        *c = c.to_ascii_uppercase();
    }
    assert!(Password::decode(&e).is_none());
}

#[test]
fn test_role_codec_round_trip() {
    for role in [Role::Admin, Role::Standard, Role::Guest] {
        let e = encode_role(&role);
        assert_eq!(e.len(), 1);
        assert_eq!(decode_role(&e), Some(role));
    }
    assert_eq!(decode_role(b""), None);
    assert_eq!(decode_role(b"x"), None);
    assert_eq!(decode_role(b"ag"), None);
}
