use instrumentality::concepts::user::User;
use instrumentality::routes::users::invite::Referral;
use instrumentality::utils::random::{
    bytes_to_hex_string, credential_of, hash_string, new_invite_code, new_key, new_uuid,
    uuid_from_random_bytes,
};

#[test]
fn hex_of_bytes() {
    assert_eq!(bytes_to_hex_string(&[0x00, 0x0f, 0xa5, 0xff]), "000FA5FF");
    assert_eq!(bytes_to_hex_string(&[0x12, 0x34, 0x56, 0x78, 0x9a, 0xbc, 0xde, 0xf0]), "123456789ABCDEF0");
    assert_eq!(bytes_to_hex_string(&[]), "");
}

#[test]
fn digest_of_known_text() {
    assert_eq!(
        hash_string("abc"),
        "BA7816BF8F01CFEA414140DE5DAE2223B00361A396177A9CB410FF61F20015AD"
    );
    assert_eq!(
        hash_string(""),
        "E3B0C44298FC1C149AFBF4C8996FB92427AE41E4649B934CA495991B7852B855"
    );
}

#[test]
fn digest_differs_from_its_text() {
    let text = "INVALID_API_KEY";
    let hashed = hash_string(text);
    assert_ne!(hashed, text);
    assert_eq!(hashed.len(), 64);
    assert_eq!(hashed, hash_string(text));
}

#[test]
fn key_is_64_digits_with_its_digest() {
    let (key, hashed) = new_key().unwrap();
    assert_eq!(key.len(), 64);
    assert!(key.chars().all(|c| c.is_ascii_digit() || ('A'..='F').contains(&c)));
    assert_eq!(hashed, hash_string(&key));
}

#[test]
fn invite_code_is_128_digits_with_its_digest() {
    let (code, hashed) = new_invite_code().unwrap();
    assert_eq!(code.len(), 128);
    assert!(code.chars().all(|c| c.is_ascii_digit() || ('A'..='F').contains(&c)));
    assert_eq!(hashed, hash_string(&code));
}

#[test]
fn keys_differ() {
    let (first, _) = new_key().unwrap();
    let (second, _) = new_key().unwrap();
    assert_ne!(first, second);
}

#[test]
fn user_test_new_user() {
    let (user, _) = User::new("test").unwrap();

    assert!(!user.banned);
    assert!(!user.admin);
    assert_eq!(user.name, "test");
}

#[test]
fn user_test_key() {
    let (_, key) = User::new("test").unwrap();
    let re = regex::Regex::new(r"^([A-F0-9])*$").unwrap();

    assert_eq!(key.len(), 64);
    assert!(re.is_match(&key));
}

#[test]
fn user_keeps_the_digest_of_its_key() {
    let (user, key) = User::new("test").unwrap();
    assert_eq!(user.hashed_key, hash_string(&key));
    assert_eq!(user.uuid.len(), 36);
}

#[test]
fn new_admin_is_admin() {
    let (user, key) = User::new_admin("root").unwrap();
    assert!(user.admin);
    assert!(!user.banned);
    assert_eq!(user.name, "root");
    assert_eq!(user.hashed_key, hash_string(&key));
}

#[test]
fn invite_test_new_invite() {
    let (referral, _) = Referral::new("test".to_string()).unwrap();

    assert!(!referral.used);
    assert_eq!(referral.created_by, "test");
    assert_eq!(referral.used_by, None);
}

#[test]
fn invite_test_code() {
    let (_, invite_code) = Referral::new("test".to_string()).unwrap();

    let re = regex::Regex::new(r"^([A-F0-9])*$").unwrap();
    assert_eq!(invite_code.len(), 128);
    assert!(re.is_match(&invite_code));
}

#[test]
fn invite_keeps_the_digest_of_its_code() {
    let (referral, invite_code) = Referral::new("test".to_string()).unwrap();
    assert_eq!(referral.hashed_code, hash_string(&invite_code));
}

#[test]
fn credential_of_given_bytes() {
    assert_eq!(
        credential_of(&[0xab, 0x01]),
        ("AB01".to_string(), hash_string("AB01"))
    );
    assert_eq!(
        credential_of(&[]),
        (
            String::new(),
            "E3B0C44298FC1C149AFBF4C8996FB92427AE41E4649B934CA495991B7852B855".to_string()
        )
    );
    let (key, hashed) = credential_of(&[0x5a; 32]);
    assert_eq!(key, "5A".repeat(32));
    assert_eq!(hashed.len(), 64);
    assert_ne!(hashed, key);
}

#[test]
fn identifier_of_given_bytes() {
    assert_eq!(
        uuid_from_random_bytes(&[0; 16]),
        Some("00000000-0000-4000-8000-000000000000".to_string())
    );
    assert_eq!(
        uuid_from_random_bytes(&[0xff; 16]),
        Some("ffffffff-ffff-4fff-bfff-ffffffffffff".to_string())
    );
    assert_eq!(uuid_from_random_bytes(&[0; 15]), None);
    assert_eq!(uuid_from_random_bytes(&[0; 17]), None);
    assert_eq!(uuid_from_random_bytes(&[]), None);
}

#[test]
fn fresh_identifiers() {
    let first = new_uuid().unwrap();
    let second = new_uuid().unwrap();
    assert_eq!(first.len(), 36);
    assert_ne!(first, second);
    assert_eq!(first.as_bytes()[14], b'4');
}
