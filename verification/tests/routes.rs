use instrumentality::concepts::data::{Data, Datas};
use instrumentality::concepts::user::User;
use instrumentality::config::{IConfig, MDBConfig, NetworkConfig, Settings, TLSConfig};
use instrumentality::database::Database;
use instrumentality::routes::groups::create::CreateGroupRequest;
use instrumentality::routes::queue::QueueQuery;
use instrumentality::routes::response::StatusCode;
use instrumentality::routes::subjects::create::CreateSubjectRequest;
use instrumentality::routes::user::from_request_parts::from_request_parts;
use instrumentality::routes::view::ViewQuery;
use instrumentality::utils::deserialise_array::deserialise_array;
use instrumentality::utils::random::hash_string;

const PLATFORM_NAME: &str = "PLATFORM_1";
const USERNAME: &str = "TEST_USER_1";

fn config() -> IConfig {
    IConfig {
        mongodb: MDBConfig {
            address: "127.0.0.1".to_string(),
            port: "27017".to_string(),
            database: "test".to_string(),
            credentials: None,
        },
        content_types: vec![
            ("PLATFORM_1".to_string(), vec!["post".to_string(), "story".to_string()]),
            ("PLATFORM_2".to_string(), vec!["scrobble".to_string()]),
        ],
        presence_types: vec![
            ("PLATFORM_1".to_string(), vec!["live".to_string()]),
            ("PLATFORM_2".to_string(), vec!["streaming_now".to_string()]),
        ],
        settings: Settings::default(),
        network: NetworkConfig { address: "127.0.0.1".to_string(), port: "12321".to_string() },
        tls: TLSConfig { cert: "tls/cert.pem".to_string(), key: "tls/privkey.pem".to_string() },
    }
}

struct Environment {
    db: Database,
    user: User,
    admin: User,
    user_key: String,
    admin_key: String,
    config: IConfig,
}

fn environment() -> Environment {
    let mut db = Database::new();
    let (user, user_key) = User::new("test").unwrap();
    let (admin, admin_key) = User::new_admin("test_admin").unwrap();
    assert!(db.restore_user(user.clone()));
    assert!(db.restore_user(admin.clone()));
    Environment { db, user, admin, user_key, admin_key, config: config() }
}

fn mock_content(id: &str, platform: &str) -> Data {
    Data::Content {
        id: id.to_string(),
        platform: platform.to_string(),
        content_type: "story".to_string(),
        retrieved_at: 50,
        content_id: "CONTENT".to_string(),
        deleted: Some(false),
        retrieved_from: None,
        created_at: None,
        body: None,
        media: None,
        references: None,
        added_by: None,
        added_at: None,
    }
}

fn new_subject() -> CreateSubjectRequest {
    CreateSubjectRequest {
        name: "test".to_string(),
        profiles: vec![(
            PLATFORM_NAME.to_string(),
            vec![USERNAME.to_string(), "TEST_USER_1_PRIV".to_string()],
        )],
        description: None,
    }
}

#[test]
fn add() {
    let mut env = environment();
    let caller = from_request_parts(Some(&env.user_key), &env.db).unwrap();
    let datas = Datas { queue_id: None, data: vec![mock_content(USERNAME, PLATFORM_NAME)] };
    let (status, okr) =
        instrumentality::routes::add::add(&caller, &mut env.db, &env.config, datas).unwrap();
    assert_eq!(status, StatusCode::CREATED);
    assert_eq!(okr.response, "OK".to_string());
    assert_eq!(env.db.data.len(), 1);
}

#[test]
fn frontpage() {
    let (status, body) = instrumentality::routes::frontpage::frontpage();
    assert_eq!(status, StatusCode::OK);
    assert_eq!(body.response, "OK");
}

#[test]
fn types() {
    let env = environment();
    let (status, tr) = instrumentality::routes::types::types(&env.config);
    assert_eq!(status, StatusCode::OK);
    assert_eq!(tr.response, "OK");
    assert_eq!(tr.content_types, env.config.content_types);
    assert_eq!(tr.presence_types, env.config.presence_types);
}

#[test]
fn halt() {
    let env = environment();
    let caller = from_request_parts(Some(&env.admin_key), &env.db).unwrap();
    assert_eq!(caller, env.admin);
    let (status, _) = instrumentality::routes::halt::halt(&caller).unwrap();
    assert_eq!(status, StatusCode::OK);
}

#[test]
fn halt_bad_key() {
    let env = environment();
    let (status, _) = from_request_parts(Some("INVALID_API_KEY"), &env.db).unwrap_err();
    assert_eq!(status, StatusCode::UNAUTHORIZED);
}

#[test]
fn invite() {
    let mut env = environment();
    let caller = from_request_parts(Some(&env.user_key), &env.db).unwrap();
    let (status, ir) = instrumentality::routes::users::invite::invite(&caller, &mut env.db).unwrap();
    assert_eq!(status, StatusCode::CREATED);
    assert_eq!(ir.response, "OK".to_string());
    let re = regex::Regex::new(r"^([A-F0-9])*$").unwrap();
    assert!(ir.code.len() == 128);
    assert!(re.is_match(&ir.code));
}

#[test]
fn invite_bad_key() {
    let env = environment();
    let (status, er) = from_request_parts(Some("INVALID_API_KEY"), &env.db).unwrap_err();
    assert_eq!(status, StatusCode::UNAUTHORIZED);
    assert_eq!(er.response, "ERROR".to_string());
}

#[test]
fn login() {
    let env = environment();
    let caller = from_request_parts(Some(&env.user_key), &env.db).unwrap();
    let (status, lr) = instrumentality::routes::user::login::login(&caller, &env.db);
    assert_eq!(status, StatusCode::OK);
    assert_eq!(lr.response, "OK".to_string());
    assert_eq!(lr.user, env.user);
    assert!(lr.subjects.is_empty());
    assert!(lr.groups.is_empty());
}

#[test]
fn reset() {
    let mut env = environment();
    let caller = from_request_parts(Some(&env.user_key), &env.db).unwrap();
    let (status, rr) = instrumentality::routes::user::reset::reset(&caller, &mut env.db).unwrap();
    assert_eq!(status, StatusCode::OK);
    assert_eq!(rr.response, "OK".to_string());
    let re = regex::Regex::new(r"^([A-F0-9])*$").unwrap();
    assert_eq!(rr.key.len(), 64);
    assert!(re.is_match(&rr.key));
    assert_ne!(rr.key, env.user_key);

    let caller = from_request_parts(Some(&rr.key), &env.db).unwrap();
    let (status, lr) = instrumentality::routes::user::login::login(&caller, &env.db);
    assert_eq!(status, StatusCode::OK);
    assert_eq!(lr.response, "OK".to_string());
    assert_eq!(lr.user.uuid, env.user.uuid);
    assert_eq!(lr.user.hashed_key, hash_string(&rr.key));
    assert!(from_request_parts(Some(&env.user_key), &env.db).is_err());
}

#[test]
fn subject_bad_key_creation() {
    let env = environment();
    let (status, er) = from_request_parts(Some("INVALID_API_KEY"), &env.db).unwrap_err();
    assert_eq!(status, StatusCode::UNAUTHORIZED);
    assert_eq!(er.response, "ERROR".to_string());
    assert!(env.db.subjects.is_empty());
}

#[test]
fn group_bad_key_creation() {
    let mut env = environment();
    let (status, okr) = instrumentality::routes::subjects::create::create(
        &env.user,
        &mut env.db,
        &env.config,
        new_subject(),
    )
    .unwrap();
    assert_eq!(status, StatusCode::CREATED);
    assert_eq!(okr.response, "OK".to_string());

    let (status, er) = from_request_parts(Some("INVALID_API_KEY"), &env.db).unwrap_err();
    assert_eq!(status, StatusCode::UNAUTHORIZED);
    assert_eq!(er.response, "ERROR".to_string());
    assert!(env.db.groups.is_empty());

    let (status, _) = instrumentality::routes::groups::create::create(
        &env.user,
        &mut env.db,
        CreateGroupRequest { name: "test".to_string(), subjects: vec![okr.uuid], description: None },
    )
    .unwrap();
    assert_eq!(status, StatusCode::CREATED);
    assert_eq!(env.db.groups.len(), 1);
}

#[test]
fn queue_entry_created_alternate_syntax() {
    let mut env = environment();
    instrumentality::routes::subjects::create::create(
        &env.user,
        &mut env.db,
        &env.config,
        new_subject(),
    )
    .unwrap();
    for written in ["PLATFORM_1", "[PLATFORM_1]"] {
        let query = QueueQuery { platforms: deserialise_array(written) };
        let (status, qr) = instrumentality::routes::queue::queue(
            Some(query),
            &mut env.db,
            &env.user,
            &env.config,
        )
        .unwrap();
        assert_eq!(status, StatusCode::OK);
        assert_eq!(qr.response, "OK");
        assert_eq!(qr.platform, PLATFORM_NAME);
        assert_eq!(qr.platform_username_hint, qr.platform_id);
    }
    assert_eq!(env.db.queue[0].lock_holder, Some(env.user.uuid.clone()));
    assert_eq!(env.db.queue[1].lock_holder, Some(env.user.uuid.clone()));
}

#[test]
fn view() {
    let mut env = environment();
    let (_, made) = instrumentality::routes::subjects::create::create(
        &env.user,
        &mut env.db,
        &env.config,
        CreateSubjectRequest {
            name: "test".to_string(),
            profiles: vec![(PLATFORM_NAME.to_string(), vec![USERNAME.to_string()])],
            description: None,
        },
    )
    .unwrap();
    let datas = Datas { queue_id: None, data: vec![mock_content(USERNAME, PLATFORM_NAME)] };
    instrumentality::routes::add::add(&env.user, &mut env.db, &env.config, datas).unwrap();

    let query = ViewQuery { subjects: deserialise_array(&format!("[{}]", made.uuid)) };
    let (status, vr) = instrumentality::routes::view::view(Some(query), &env.db, &env.user).unwrap();
    assert_eq!(status, StatusCode::OK);
    assert_eq!(vr.response, "OK");
    assert_eq!(vr.view_data.subject_data.len(), 1);
    let shown = &vr.view_data.subject_data[0];
    assert_eq!(shown.subject.uuid, made.uuid);
    assert_eq!(shown.platforms[0].platform, PLATFORM_NAME);
    assert_eq!(shown.platforms[0].profiles[0].content.len(), 1);
    assert_eq!(shown.platforms[0].profiles[0].content[0], env.db.data[0]);
}
