use instrumentality::concepts::data::{Data, Datas};
use instrumentality::concepts::user::User;
use instrumentality::config::{IConfig, MDBConfig, NetworkConfig, Settings, TLSConfig};
use instrumentality::database::Database;
use instrumentality::routes::add::{add, add_at, get_queue_item};
use instrumentality::routes::halt::{halt, SHUTDOWN_GRACE_SECS};
use instrumentality::routes::queue::{add_queue_item_with_id, lease_at};
use instrumentality::routes::response::StatusCode;
use instrumentality::routes::subjects::create::CreateSubjectRequest;
use instrumentality::routes::user::from_request_parts::{from_request_parts, API_KEY_HEADER};
use instrumentality::routes::user::login::login;
use instrumentality::routes::user::reset::{reset, reset_with};
use instrumentality::routes::users::invite::{invite, invite_with, Referral};
use instrumentality::routes::users::register::{register, register_with, RegisterRequest};
use instrumentality::utils::random::hash_string;

const NOTHING_VALID: &str = "No valid data was submitted. Ensure the given platforms and content/presence types are supported by this server. Ensure all data was correctly labeled for queue jobs.";

fn config() -> IConfig {
    IConfig {
        mongodb: MDBConfig {
            address: "127.0.0.1".to_string(),
            port: "27017".to_string(),
            database: "test".to_string(),
            credentials: None,
        },
        content_types: vec![
            ("PLATFORM_1".to_string(), vec!["post".to_string(), "story".to_string()]),
            ("PLATFORM_2".to_string(), vec!["scrobble".to_string()]),
        ],
        presence_types: vec![
            ("PLATFORM_1".to_string(), vec!["live".to_string()]),
            ("PLATFORM_2".to_string(), vec!["streaming_now".to_string()]),
        ],
        settings: Settings::default(),
        network: NetworkConfig { address: "127.0.0.1".to_string(), port: "12321".to_string() },
        tls: TLSConfig { cert: "tls/cert.pem".to_string(), key: "tls/privkey.pem".to_string() },
    }
}

fn operator(uuid: &str, key: &str, admin: bool) -> User {
    User {
        uuid: uuid.to_string(),
        name: "test".to_string(),
        hashed_key: hash_string(key),
        admin,
        banned: false,
        created_at: 1,
    }
}

fn environment() -> (Database, User) {
    let mut db = Database::new();
    let user = operator("OPERATOR", "KEY", false);
    assert!(db.restore_user(user.clone()));
    (db, user)
}

fn mock_content(id: &str, platform: &str, content_type: &str) -> Data {
    Data::Content {
        id: id.to_string(),
        platform: platform.to_string(),
        content_type: content_type.to_string(),
        retrieved_at: 50,
        content_id: "CONTENT".to_string(),
        deleted: Some(false),
        retrieved_from: None,
        created_at: None,
        body: None,
        media: None,
        references: None,
        added_by: None,
        added_at: None,
    }
}

fn mock_presence(id: &str, platform: &str, presence_type: &str) -> Data {
    Data::Presence {
        id: id.to_string(),
        platform: platform.to_string(),
        presence_type: presence_type.to_string(),
        retrieved_at: 60,
        added_by: None,
        added_at: None,
    }
}

fn create_subject(
    user: &User,
    db: &mut Database,
    config: &IConfig,
    data: CreateSubjectRequest,
    uuid: String,
    now: i64,
) -> Result<
    (StatusCode, instrumentality::routes::response::CreateResponse),
    (StatusCode, instrumentality::routes::response::ErrorResponse),
> {
    let count: usize = data.profiles.iter().map(|(_, ids)| ids.len()).sum();
    let queue_ids = (0..count).map(|i| format!("{uuid}-{i}")).collect();
    instrumentality::routes::subjects::create::create_with(
        user, db, config, data, uuid, now, queue_ids,
    )
}

#[test]
fn invite_issues_a_code() {
    let (mut db, user) = environment();
    let (status, body) = invite_with(&user, &mut db, "CODE".to_string(), 5).unwrap();
    assert_eq!(status, StatusCode::CREATED);
    assert_eq!(body.response, "OK");
    assert_eq!(body.code, "CODE");
    assert_eq!(
        db.referrals,
        vec![Referral {
            created_by: "OPERATOR".to_string(),
            created_at: 5,
            hashed_code: hash_string("CODE"),
            used: false,
            used_by: None,
        }]
    );
}

#[test]
fn invite_with_a_fresh_code() {
    let (mut db, user) = environment();
    let (status, body) = invite(&user, &mut db).unwrap();
    assert_eq!(status, StatusCode::CREATED);
    assert_eq!(body.response, "OK".to_string());
    let re = regex::Regex::new(r"^([A-F0-9])*$").unwrap();
    assert!(body.code.len() == 128);
    assert!(re.is_match(&body.code));
    assert_eq!(db.referrals[0].hashed_code, hash_string(&body.code));
    assert_ne!(db.referrals[0].hashed_code, body.code);
}

#[test]
fn invite_refusals() {
    let (mut db, user) = environment();
    let stranger = operator("STRANGER", "OTHER_KEY", false);
    let (status, body) = invite_with(&stranger, &mut db, "CODE".to_string(), 5).unwrap_err();
    assert_eq!(status, StatusCode::UNAUTHORIZED);
    assert_eq!(body.text, "Unauthorised.");
    invite_with(&user, &mut db, "CODE".to_string(), 5).unwrap();
    let (status, body) = invite_with(&user, &mut db, "CODE".to_string(), 6).unwrap_err();
    assert_eq!(status, StatusCode::INTERNAL_SERVER_ERROR);
    assert_eq!(body.text, "Internal server error.");
    assert_eq!(db.referrals.len(), 1);
}

#[test]
fn register_with_invite() {
    let (mut db, user) = environment();
    let (_, ir) = invite_with(&user, &mut db, "CODE".to_string(), 5).unwrap();
    let (status, rr) = register_with(
        &mut db,
        RegisterRequest { code: ir.code.clone(), name: "TEST_USER_1".to_string() },
        "NEWCOMER".to_string(),
        "NEW_KEY".to_string(),
        9,
    )
    .unwrap();
    assert_eq!(status, StatusCode::CREATED);
    assert_eq!(rr.response, "OK".to_string());
    assert_eq!(rr.user.name, "TEST_USER_1".to_string());
    assert_eq!(rr.key, "NEW_KEY");
    assert_eq!(
        rr.user,
        User {
            uuid: "NEWCOMER".to_string(),
            name: "TEST_USER_1".to_string(),
            hashed_key: hash_string("NEW_KEY"),
            admin: false,
            banned: false,
            created_at: 9,
        }
    );
    assert_eq!(db.users.len(), 2);
    assert_eq!(db.users[1], rr.user);
    assert!(db.referrals[0].used);
    assert_eq!(db.referrals[0].used_by, Some("NEWCOMER".to_string()));

    let caller = from_request_parts(Some(&rr.key), &db).unwrap();
    let (status, lr) = login(&caller, &db);
    assert_eq!(status, StatusCode::OK);
    assert_eq!(lr.response, "OK".to_string());
    assert_eq!(lr.user.name, "TEST_USER_1");
    assert!(lr.subjects.is_empty());
    assert!(lr.groups.is_empty());
}

#[test]
fn register_bad_invite_code() {
    let (mut db, _) = environment();
    let (status, body) = register_with(
        &mut db,
        RegisterRequest { code: "INVALID_INVITE_CODE".to_string(), name: "TEST_USER_1".to_string() },
        "NEWCOMER".to_string(),
        "NEW_KEY".to_string(),
        9,
    )
    .unwrap_err();
    assert_eq!(status, StatusCode::UNAUTHORIZED);
    assert_eq!(body.response, "ERROR");
    assert_eq!(body.text, "Invalid invite code.");
    assert_eq!(db.users.len(), 1);
    let (status, _) = register(
        &mut db,
        RegisterRequest { code: "INVALID_INVITE_CODE".to_string(), name: "TEST_USER_1".to_string() },
    )
    .unwrap_err();
    assert_eq!(status, StatusCode::UNAUTHORIZED);
}

#[test]
fn invite_admits_one_registration() {
    let (mut db, user) = environment();
    invite_with(&user, &mut db, "CODE".to_string(), 5).unwrap();
    let request =
        |name: &str| RegisterRequest { code: "CODE".to_string(), name: name.to_string() };
    let (status, _) =
        register_with(&mut db, request("first"), "FIRST".to_string(), "FIRST_KEY".to_string(), 9)
            .unwrap();
    assert_eq!(status, StatusCode::CREATED);
    let (status, body) =
        register_with(&mut db, request("second"), "SECOND".to_string(), "SECOND_KEY".to_string(), 10)
            .unwrap_err();
    assert_eq!(status, StatusCode::UNAUTHORIZED);
    assert_eq!(body.text, "Invalid invite code.");
    assert_eq!(db.users.len(), 2);
    assert_eq!(db.referrals[0].used_by, Some("FIRST".to_string()));
}

#[test]
fn register_with_fresh_identity() {
    let (mut db, user) = environment();
    invite_with(&user, &mut db, "CODE".to_string(), 5).unwrap();
    let (status, rr) =
        register(&mut db, RegisterRequest { code: "CODE".to_string(), name: "new".to_string() }).unwrap();
    assert_eq!(status, StatusCode::CREATED);
    assert_eq!(rr.key.len(), 64);
    assert_eq!(rr.user.hashed_key, hash_string(&rr.key));
    assert_eq!(rr.user.uuid.len(), 36);
    assert!(!rr.user.admin);
    assert_eq!(from_request_parts(Some(&rr.key), &db).unwrap(), rr.user);
}

#[test]
fn register_collisions_keep_the_invite() {
    let (mut db, user) = environment();
    invite_with(&user, &mut db, "CODE".to_string(), 5).unwrap();
    let request = || RegisterRequest { code: "CODE".to_string(), name: "new".to_string() };
    let (status, _) =
        register_with(&mut db, request(), "OPERATOR".to_string(), "NEW_KEY".to_string(), 9).unwrap_err();
    assert_eq!(status, StatusCode::INTERNAL_SERVER_ERROR);
    let (status, _) =
        register_with(&mut db, request(), "NEWCOMER".to_string(), "KEY".to_string(), 9).unwrap_err();
    assert_eq!(status, StatusCode::INTERNAL_SERVER_ERROR);
    assert!(!db.referrals[0].used);
    assert_eq!(db.users.len(), 1);
}

#[test]
fn login_bad_key() {
    let (db, _) = environment();
    let (status, er) = from_request_parts(Some("INVALID_API_KEY"), &db).unwrap_err();
    assert_eq!(status, StatusCode::UNAUTHORIZED);
    assert_eq!(er.response, "ERROR".to_string());
    assert_eq!(er.text, "Unauthorised.");
}

#[test]
fn login_no_key() {
    let (db, _) = environment();
    let (status, er) = from_request_parts(None, &db).unwrap_err();
    assert_eq!(status, StatusCode::UNAUTHORIZED);
    assert_eq!(er.response, "ERROR".to_string());
    assert_eq!(API_KEY_HEADER, "x-api-key");
}

#[test]
fn login_lists_what_the_caller_owns() {
    let (mut db, user) = environment();
    let other = operator("OTHER", "OTHER_KEY", false);
    assert!(db.restore_user(other.clone()));
    let config = config();
    for (owner, uuid, name) in [(&user, "S1", "mine"), (&other, "S2", "theirs"), (&user, "S3", "mine too")] {
        create_subject(
            owner,
            &mut db,
            &config,
            CreateSubjectRequest { name: name.to_string(), profiles: vec![], description: None },
            uuid.to_string(),
            1,
        )
        .unwrap();
    }
    instrumentality::routes::groups::create::create_with(
        &other,
        &mut db,
        instrumentality::routes::groups::create::CreateGroupRequest {
            name: "group".to_string(),
            subjects: vec!["S1".to_string()],
            description: None,
        },
        "G".to_string(),
        2,
    )
    .unwrap();
    let caller = from_request_parts(Some("KEY"), &db).unwrap();
    assert_eq!(caller, user);
    let (status, lr) = login(&caller, &db);
    assert_eq!(status, StatusCode::OK);
    assert_eq!(lr.user, user);
    let names: Vec<&str> = lr.subjects.iter().map(|subject| subject.name.as_str()).collect();
    assert_eq!(names, vec!["mine", "mine too"]);
    assert!(lr.groups.is_empty());
    assert_eq!(user.subjects(&db).unwrap().len(), 2);
    assert_eq!(user.groups(&db), None);
    assert_eq!(other.groups(&db).unwrap()[0].uuid, "G");
    assert_eq!(User::with_key(&hash_string("OTHER_KEY"), &db), Some(other));
    assert_eq!(User::with_key("OTHER_KEY", &db), None);
}

#[test]
fn reset_replaces_the_key() {
    let (mut db, user) = environment();
    let (status, body) = reset_with(&user, &mut db, "NEW_KEY".to_string()).unwrap();
    assert_eq!(status, StatusCode::OK);
    assert_eq!(body.response, "OK");
    assert_eq!(body.key, "NEW_KEY");
    assert_eq!(db.users[0].hashed_key, hash_string("NEW_KEY"));
    assert_eq!(db.users[0].uuid, "OPERATOR");
    assert!(from_request_parts(Some("KEY"), &db).is_err());
    assert_eq!(from_request_parts(Some("NEW_KEY"), &db).unwrap().uuid, "OPERATOR");
}

#[test]
fn reset_with_a_fresh_key() {
    let (mut db, user) = environment();
    let (status, body) = reset(&user, &mut db).unwrap();
    assert_eq!(status, StatusCode::OK);
    let re = regex::Regex::new(r"^([A-F0-9])*$").unwrap();
    assert_eq!(body.key.len(), 64);
    assert!(re.is_match(&body.key));
    assert_eq!(from_request_parts(Some(&body.key), &db).unwrap().uuid, "OPERATOR");
}

#[test]
fn reset_refusals() {
    let (mut db, user) = environment();
    let other = operator("OTHER", "OTHER_KEY", false);
    assert!(db.restore_user(other));
    let (status, body) = reset_with(&user, &mut db, "OTHER_KEY".to_string()).unwrap_err();
    assert_eq!(status, StatusCode::INTERNAL_SERVER_ERROR);
    assert_eq!(body.text, "Could not reset key. Your key remains the same. Please try again.");
    let stranger = operator("STRANGER", "UNKNOWN", false);
    let (status, body) = reset_with(&stranger, &mut db, "NEW_KEY".to_string()).unwrap_err();
    assert_eq!(status, StatusCode::UNAUTHORIZED);
    assert_eq!(body.text, "Unauthorised.");
    assert_eq!(db.users[0].hashed_key, hash_string("KEY"));
}

#[test]
fn halt_by_an_administrator() {
    let admin = operator("ROOT", "ROOT_KEY", true);
    let (status, body) = halt(&admin).unwrap();
    assert_eq!(status, StatusCode::OK);
    assert_eq!(body.response, "OK");
    assert_eq!(SHUTDOWN_GRACE_SECS, 5);
}

#[test]
fn halt_bad_permissions() {
    let user = operator("OPERATOR", "KEY", false);
    let (status, body) = halt(&user).unwrap_err();
    assert_eq!(status, StatusCode::UNAUTHORIZED);
    assert_eq!(body.text, "Unauthorised.");
}

#[test]
fn add_without_lease() {
    let (mut db, user) = environment();
    let datas = Datas { queue_id: None, data: vec![mock_content("TEST_USER_1", "PLATFORM_1", "story")] };
    let (status, okr) = add_at(&user, &mut db, &config(), datas, 8, Some("FRESH".to_string())).unwrap();
    assert_eq!(status, StatusCode::CREATED);
    assert_eq!(okr.response, "OK".to_string());
    assert_eq!(db.data, vec![mock_content("TEST_USER_1", "PLATFORM_1", "story").tag_at("OPERATOR", 8)]);
}

#[test]
fn add_multiple() {
    let (mut db, user) = environment();
    let datas = Datas {
        queue_id: None,
        data: vec![
            mock_content("TEST_USER_1", "PLATFORM_1", "story"),
            mock_presence("TEST_USER_1", "PLATFORM_1", "live"),
        ],
    };
    let (status, okr) = add(&user, &mut db, &config(), datas).unwrap();
    assert_eq!(status, StatusCode::CREATED);
    assert_eq!(okr.response, "OK".to_string());
    assert_eq!(db.data.len(), 2);
}

#[test]
fn add_keeps_what_is_valid() {
    let (mut db, user) = environment();
    let datas = Datas {
        queue_id: None,
        data: vec![
            mock_content("A", "PLATFORM_1", "scrobble"),
            mock_presence("B", "PLATFORM_1", "live"),
            mock_presence("C", "PLATFORM_1", "streaming_now"),
        ],
    };
    add_at(&user, &mut db, &config(), datas, 8, Some("FRESH".to_string())).unwrap();
    assert_eq!(db.data, vec![mock_presence("B", "PLATFORM_1", "live").tag_at("OPERATOR", 8)]);
}

#[test]
fn add_bad_key() {
    let (mut db, _) = environment();
    let stranger = operator("STRANGER", "INVALID_API_KEY", false);
    let datas = Datas { queue_id: None, data: vec![mock_content("TEST_USER_1", "PLATFORM_1", "story")] };
    let (status, er) = add_at(&stranger, &mut db, &config(), datas, 8, Some("FRESH".to_string())).unwrap_err();
    assert_eq!(status, StatusCode::UNAUTHORIZED);
    assert_eq!(er.response, "ERROR".to_string());
    assert!(db.data.is_empty());
}

#[test]
fn add_bad_queue_id() {
    let (mut db, user) = environment();
    let datas = Datas {
        queue_id: Some("INVALID_QUEUE_ID".to_string()),
        data: vec![mock_content("TEST_USER_1", "PLATFORM_1", "story")],
    };
    let (status, er) = add_at(&user, &mut db, &config(), datas, 8, Some("FRESH".to_string())).unwrap_err();
    assert_eq!(status, StatusCode::BAD_REQUEST);
    assert_eq!(er.response, "ERROR".to_string());
    assert!(er.text.contains("Invalid queue ID."));
    assert!(db.data.is_empty());
}

#[test]
fn add_empty_data() {
    let (mut db, user) = environment();
    let datas = Datas { queue_id: None, data: vec![] };
    let (status, er) = add_at(&user, &mut db, &config(), datas, 8, Some("FRESH".to_string())).unwrap_err();
    assert_eq!(status, StatusCode::BAD_REQUEST);
    assert_eq!(er.response, "ERROR".to_string());
    assert_eq!(er.text, "No data was submitted.");
}

#[test]
fn add_invalid_content_type() {
    let (mut db, user) = environment();
    let datas = Datas {
        queue_id: None,
        data: vec![mock_content("TEST_USER_1", "PLATFORM_1", "INVALID_CONTENT_TYPE")],
    };
    let (status, er) = add_at(&user, &mut db, &config(), datas, 8, Some("FRESH".to_string())).unwrap_err();
    assert_eq!(status, StatusCode::BAD_REQUEST);
    assert_eq!(er.text, NOTHING_VALID);
}

#[test]
fn add_invalid_presence_type() {
    let (mut db, user) = environment();
    let datas = Datas {
        queue_id: None,
        data: vec![mock_presence("TEST_USER_1", "PLATFORM_1", "INVALID_PRESENCE_TYPE")],
    };
    let (status, _) = add_at(&user, &mut db, &config(), datas, 8, Some("FRESH".to_string())).unwrap_err();
    assert_eq!(status, StatusCode::BAD_REQUEST);
}

#[test]
fn add_invalid_presence_type_for_platform() {
    let (mut db, user) = environment();
    let datas = Datas {
        queue_id: None,
        data: vec![mock_presence("TEST_USER_1", "PLATFORM_1", "streaming_now")],
    };
    let (status, _) = add_at(&user, &mut db, &config(), datas, 8, Some("FRESH".to_string())).unwrap_err();
    assert_eq!(status, StatusCode::BAD_REQUEST);
}

#[test]
fn add_invalid_content_type_for_platform() {
    let (mut db, user) = environment();
    let datas = Datas {
        queue_id: None,
        data: vec![mock_content("TEST_USER_1", "PLATFORM_1", "scrobble")],
    };
    let (status, _) = add_at(&user, &mut db, &config(), datas, 8, Some("FRESH".to_string())).unwrap_err();
    assert_eq!(status, StatusCode::BAD_REQUEST);
    assert!(db.data.is_empty());
}

#[test]
fn add_for_the_wrong_profile_is_refused_and_keeps_the_lease() {
    let (mut db, user) = environment();
    add_queue_item_with_id("TEST_USER_1", "PLATFORM_1", &mut db, true, "Q1".to_string());
    lease_at(&mut db, &user.uuid, &vec!["PLATFORM_1".to_string()], 5);
    let datas = Datas {
        queue_id: Some("Q1".to_string()),
        data: vec![mock_content("SOMEONE_ELSE", "PLATFORM_1", "story")],
    };
    let (status, er) = add_at(&user, &mut db, &config(), datas, 8, Some("FRESH".to_string())).unwrap_err();
    assert_eq!(status, StatusCode::BAD_REQUEST);
    assert_eq!(er.text, NOTHING_VALID);
    assert_eq!(db.queue[0].lock_holder, Some("OPERATOR".to_string()));
    assert_eq!(db.queue[0].last_processed, 0);
    assert!(db.data.is_empty());
}

#[test]
fn add_under_another_operators_lease_is_refused() {
    let (mut db, user) = environment();
    let other = operator("OTHER", "OTHER_KEY", false);
    assert!(db.restore_user(other.clone()));
    add_queue_item_with_id("TEST_USER_1", "PLATFORM_1", &mut db, true, "Q1".to_string());
    lease_at(&mut db, &other.uuid, &vec!["PLATFORM_1".to_string()], 5);
    assert_eq!(get_queue_item("Q1", &user, &db), None);
    assert_eq!(get_queue_item("Q1", &other, &db).unwrap().platform_id, "TEST_USER_1");
    let datas = Datas {
        queue_id: Some("Q1".to_string()),
        data: vec![mock_content("TEST_USER_1", "PLATFORM_1", "story")],
    };
    let (status, er) = add_at(&user, &mut db, &config(), datas, 8, Some("FRESH".to_string())).unwrap_err();
    assert_eq!(status, StatusCode::BAD_REQUEST);
    assert_eq!(er.text, "Invalid queue ID.");
}
