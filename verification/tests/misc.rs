use instrumentality::concepts::data::Data;
use instrumentality::concepts::group::Group;
use instrumentality::concepts::subject::Subject;
use instrumentality::concepts::user::User;
use instrumentality::config::{IConfig, MDBConfig, NetworkConfig, Settings, TLSConfig};
use instrumentality::database::Database;
use instrumentality::routes::default::{error_handler, error_transformer, REQUEST_TIMEOUT_SECS};
use instrumentality::routes::frontpage::frontpage;
use instrumentality::routes::queue::InternalQueueItem;
use instrumentality::routes::response::{
    CreateResponse, ErrorResponse, InviteResponse, LoginResponse, OkResponse, QueueResponse,
    RegisterResponse, ResetResponse, StatusCode, TypesResponse, UserResponse, ViewResponse,
};
use instrumentality::routes::types::types;
use instrumentality::routes::users::invite::Referral;
use instrumentality::routes::view::ViewData;
use instrumentality::utils::deserialise_array::deserialise_array;

fn config() -> IConfig {
    IConfig {
        mongodb: MDBConfig {
            address: "127.0.0.1".to_string(),
            port: "27017".to_string(),
            database: "test".to_string(),
            credentials: None,
        },
        content_types: vec![
            ("instagram".to_string(), vec!["post".to_string(), "story".to_string()]),
            ("last_fm".to_string(), vec!["scrobble".to_string()]),
        ],
        presence_types: vec![("twitch_tv".to_string(), vec!["live".to_string()])],
        settings: Settings::default(),
        network: NetworkConfig { address: "127.0.0.1".to_string(), port: "12321".to_string() },
        tls: TLSConfig { cert: "tls/cert.pem".to_string(), key: "tls/privkey.pem".to_string() },
    }
}

fn operator(uuid: &str) -> User {
    User {
        uuid: uuid.to_string(),
        name: "test".to_string(),
        hashed_key: format!("digest of {uuid}"),
        admin: false,
        banned: false,
        created_at: 1,
    }
}

#[test]
fn settings_defaults() {
    assert_eq!(Settings::default_log_level(), "INFO");
    assert_eq!(Settings::default_queue_timeout_secs(), 30);
    let settings = Settings::default();
    assert_eq!(settings.log_level, "INFO");
    assert_eq!(settings.queue_timeout_secs, 30);
}

#[test]
fn config_validity() {
    let config = config();
    assert!(config.well_formed());
    let mut twice = self::config();
    twice.presence_types.push(("twitch_tv".to_string(), vec![]));
    assert!(!twice.well_formed());
    assert!(config.valid_content_type("instagram", "story"));
    assert!(!config.valid_content_type("instagram", "scrobble"));
    assert!(!config.valid_content_type("twitch_tv", "live"));
    assert!(!config.valid_content_type("", ""));
    assert!(config.valid_presence_type("twitch_tv", "live"));
    assert!(!config.valid_presence_type("instagram", "live"));
    assert!(!config.valid_presence_type("twitch_tv", "Live"));
    assert!(config.valid_platform("instagram"));
    assert!(config.valid_platform("twitch_tv"));
    assert!(config.valid_platform("last_fm"));
    assert!(!config.valid_platform("BADPLATFORM"));
    assert!(!config.valid_platform("Instagram"));
}

#[test]
fn types_lists_the_configuration() {
    let config = config();
    let (status, body) = types(&config);
    assert_eq!(status, StatusCode::OK);
    assert_eq!(body.response, "OK");
    assert_eq!(body.content_types, config.content_types);
    assert_eq!(body.presence_types, config.presence_types);
}

#[test]
fn frontpage_is_ok() {
    let (status, body) = frontpage();
    assert_eq!(status, StatusCode::OK);
    assert_eq!(body, OkResponse { response: "OK".to_string() });
}

#[test]
fn catcher_404() {
    let (status, er) = instrumentality::routes::default::default();
    assert_eq!(status, StatusCode::NOT_FOUND);
    assert_eq!(er.response, "ERROR".to_string());
    assert_eq!(er.text, "Not found.");
}

#[test]
fn frontpage_bad_method() {
    let (status, er) = error_transformer(405).unwrap();
    assert_eq!(status, StatusCode::METHOD_NOT_ALLOWED);
    assert_eq!(er.text, "Method not allowed.");
}

#[test]
fn transport_errors() {
    let (status, er) = error_transformer(422).unwrap();
    assert_eq!(status, StatusCode::UNPROCESSABLE_ENTITY);
    assert_eq!(er.text, "The given data is missing a field or is otherwise unprocessable.");
    assert_eq!(error_transformer(200), None);
    assert_eq!(error_transformer(404), None);
    assert_eq!(error_transformer(500), None);
    let (status, er) = error_handler(true);
    assert_eq!(status, StatusCode::REQUEST_TIMEOUT);
    assert_eq!(er.text, "Request timed out.");
    let (status, er) = error_handler(false);
    assert_eq!(status, StatusCode::INTERNAL_SERVER_ERROR);
    assert_eq!(er.text, "Internal server error.");
    assert_eq!(REQUEST_TIMEOUT_SECS, 5);
}

#[test]
fn status_codes() {
    let codes: Vec<u16> = [
        StatusCode::OK,
        StatusCode::CREATED,
        StatusCode::BAD_REQUEST,
        StatusCode::UNAUTHORIZED,
        StatusCode::NOT_FOUND,
        StatusCode::METHOD_NOT_ALLOWED,
        StatusCode::REQUEST_TIMEOUT,
        StatusCode::CONFLICT,
        StatusCode::UNPROCESSABLE_ENTITY,
        StatusCode::INTERNAL_SERVER_ERROR,
    ]
    .iter()
    .map(|status| status.as_u16())
    .collect();
    assert_eq!(codes, vec![200, 201, 400, 401, 404, 405, 408, 409, 422, 500]);
}

#[test]
fn response_bodies() {
    assert_eq!(
        ErrorResponse::from_text("text"),
        ErrorResponse { response: "ERROR".to_string(), text: "text".to_string() }
    );
    assert_eq!(OkResponse::new(), OkResponse { response: "OK".to_string() });
    assert_eq!(OkResponse::default(), OkResponse::new());
    assert_eq!(
        InviteResponse::new("CODE".to_string()),
        InviteResponse { response: "OK".to_string(), code: "CODE".to_string() }
    );
    assert_eq!(
        QueueResponse::new("Q".to_string(), "P".to_string(), "ID".to_string(), "HINT".to_string()),
        QueueResponse {
            response: "OK".to_string(),
            queue_id: "Q".to_string(),
            platform: "P".to_string(),
            platform_id: "ID".to_string(),
            platform_username_hint: "HINT".to_string(),
        }
    );
    assert_eq!(
        ResetResponse::from_key("KEY".to_string()),
        ResetResponse { response: "OK".to_string(), key: "KEY".to_string() }
    );
    assert_eq!(
        CreateResponse::from_uuid("UUID"),
        CreateResponse { response: "OK".to_string(), uuid: "UUID".to_string() }
    );
    let user = operator("OPERATOR");
    assert_eq!(
        UserResponse::from_user(user.clone()),
        UserResponse { response: "OK".to_string(), user: user.clone() }
    );
    assert_eq!(
        RegisterResponse::from_user_with_code(user.clone(), "KEY".to_string()),
        RegisterResponse { response: "OK".to_string(), user: user.clone(), key: "KEY".to_string() }
    );
    assert_eq!(
        LoginResponse::from_user_data(user.clone(), vec![], vec![]),
        LoginResponse { response: "OK".to_string(), user, subjects: vec![], groups: vec![] }
    );
    let config = config();
    let types = TypesResponse::from_types(config.content_types, config.presence_types);
    assert_eq!(types.response, "OK");
    assert_eq!(types.content_types[1].0, "last_fm");
    let view = ViewResponse::from_view_data(ViewData { subject_data: vec![] });
    assert_eq!(view.response, "OK");
    assert!(view.view_data.subject_data.is_empty());
}

#[test]
fn lists_in_queries() {
    assert_eq!(deserialise_array("PLATFORM_1"), vec!["PLATFORM_1"]);
    assert_eq!(deserialise_array("[PLATFORM_1]"), vec!["PLATFORM_1"]);
    assert_eq!(deserialise_array("[a,b]"), vec!["a", "b"]);
    assert_eq!(deserialise_array("a,b"), vec!["a", "b"]);
    assert_eq!(deserialise_array(" [ a , b b ,\tc\n] "), vec!["a", "b b", "c"]);
    assert_eq!(deserialise_array(""), vec![""]);
    assert_eq!(deserialise_array("[]"), vec![""]);
    assert_eq!(deserialise_array(","), vec!["", ""]);
    assert_eq!(deserialise_array("a,,b,"), vec!["a", "", "b", ""]);
    assert_eq!(deserialise_array("a[b]c"), vec!["abc"]);
    assert_eq!(deserialise_array("\u{a0}a\u{3000},\u{2003}"), vec!["a", ""]);
    assert_eq!(deserialise_array("é , ü"), vec!["é", "ü"]);
    assert_eq!(deserialise_array("a\u{200b}"), vec!["a\u{200b}"]);
}

#[test]
fn lists_in_queries_agree_with_the_standard_library() {
    for text in ["", " a ", "[x, y ,z]", "\t\r\n", "a,\u{85}b\u{1680}", "]]a[[,  ,b", " , ,"] {
        let stripped: String = text.chars().filter(|c| *c != '[' && *c != ']').collect();
        let expected: Vec<String> = stripped.split(',').map(|piece| piece.trim().to_string()).collect();
        assert_eq!(deserialise_array(text), expected);
    }
}

#[test]
fn restore_takes_what_keeps_the_state_well_formed() {
    let mut db = Database::new();
    assert!(db.restore_user(operator("OPERATOR")));
    assert!(!db.restore_user(operator("OPERATOR")));
    let mut same_key = operator("OTHER");
    same_key.hashed_key = "digest of OPERATOR".to_string();
    assert!(!db.restore_user(same_key));
    assert_eq!(db.users.len(), 1);

    let subject = |uuid: &str, owner: &str, name: &str| Subject {
        uuid: uuid.to_string(),
        created_at: 1,
        created_by: owner.to_string(),
        name: name.to_string(),
        profiles: vec![("P".to_string(), vec!["U".to_string()])],
        description: None,
    };
    assert!(db.restore_subject(subject("S1", "OPERATOR", "one")));
    assert!(!db.restore_subject(subject("S1", "OPERATOR", "two")));
    assert!(!db.restore_subject(subject("S2", "OPERATOR", "one")));
    assert!(db.restore_subject(subject("S2", "SOMEONE", "one")));
    let mut twice = subject("S3", "OPERATOR", "three");
    twice.profiles.push(("P".to_string(), vec![]));
    assert!(!db.restore_subject(twice));
    assert!(db.queue.is_empty());

    let group = |uuid: &str, name: &str, listed: &str| Group {
        uuid: uuid.to_string(),
        created_at: 1,
        created_by: "OPERATOR".to_string(),
        name: name.to_string(),
        subjects: vec![listed.to_string()],
        description: None,
    };
    assert!(db.restore_group(group("G1", "one", "S1")));
    assert!(!db.restore_group(group("G2", "two", "MISSING")));
    assert!(!db.restore_group(group("G1", "two", "S1")));
    assert!(!db.restore_group(group("G2", "one", "S1")));
    assert_eq!(db.groups.len(), 1);

    let entry = |id: &str, references: u64, holder: Option<&str>, since: Option<i64>| InternalQueueItem {
        queue_id: format!("Q-{id}"),
        platform_id: id.to_string(),
        platform: "P".to_string(),
        last_processed: 0,
        lock_holder: holder.map(|holder| holder.to_string()),
        lock_acquired_at: since,
        references,
        confirmed_id: false,
    };
    assert!(db.restore_queue_item(entry("U", 1, None, None)));
    assert!(!db.restore_queue_item(entry("U", 1, None, None)));
    assert!(!db.restore_queue_item(entry("V", 0, None, None)));
    assert!(!db.restore_queue_item(entry("V", 1, Some("OPERATOR"), None)));
    assert!(!db.restore_queue_item(entry("V", 1, None, Some(5))));
    assert!(db.restore_queue_item(entry("V", 3, Some("OPERATOR"), Some(5))));
    let mut same_id = entry("W", 1, None, None);
    same_id.queue_id = "Q-U".to_string();
    assert!(!db.restore_queue_item(same_id));
    assert_eq!(db.queue.len(), 2);

    let record = |by: Option<&str>, at: Option<i64>| Data::Presence {
        id: "U".to_string(),
        platform: "P".to_string(),
        presence_type: "live".to_string(),
        retrieved_at: 1,
        added_by: by.map(|by| by.to_string()),
        added_at: at,
    };
    assert!(db.restore_record(record(Some("OPERATOR"), Some(2))));
    assert!(!db.restore_record(record(Some("STRANGER"), Some(2))));
    assert!(!db.restore_record(record(None, Some(2))));
    assert!(!db.restore_record(record(Some("OPERATOR"), None)));
    assert_eq!(db.data.len(), 1);

    let referral = |code: &str, issuer: &str, used: bool, by: Option<&str>| Referral {
        created_by: issuer.to_string(),
        created_at: 1,
        hashed_code: code.to_string(),
        used,
        used_by: by.map(|by| by.to_string()),
    };
    assert!(db.restore_referral(referral("C1", "OPERATOR", false, None)));
    assert!(!db.restore_referral(referral("C1", "OPERATOR", false, None)));
    assert!(!db.restore_referral(referral("C2", "STRANGER", false, None)));
    assert!(!db.restore_referral(referral("C2", "OPERATOR", true, None)));
    assert!(!db.restore_referral(referral("C2", "OPERATOR", false, Some("OPERATOR"))));
    assert!(!db.restore_referral(referral("C2", "OPERATOR", true, Some("STRANGER"))));
    assert!(db.restore_referral(referral("C2", "OPERATOR", true, Some("OPERATOR"))));
    assert_eq!(db.referrals.len(), 2);
    assert!(db.is_operator("OPERATOR"));
    assert!(!db.is_operator("STRANGER"));
    assert!(db.is_subject("S2"));
    assert!(!db.is_subject("S3"));
}

#[test]
fn well_formed_states() {
    let mut db = Database::new();
    assert!(db.well_formed());
    assert!(db.restore_user(operator("OPERATOR")));
    let entry = |id: &str, references: u64| InternalQueueItem {
        queue_id: format!("Q-{id}"),
        platform_id: id.to_string(),
        platform: "P".to_string(),
        last_processed: 0,
        lock_holder: None,
        lock_acquired_at: None,
        references,
        confirmed_id: false,
    };
    assert!(db.restore_queue_item(entry("U", 1)));
    assert!(db.well_formed());

    db.queue.push(entry("U", 1));
    assert!(!db.well_formed());
    db.queue.pop();
    db.queue.push(entry("V", 0));
    assert!(!db.well_formed());
    db.queue.pop();
    let mut same_id = entry("V", 1);
    same_id.queue_id = "Q-U".to_string();
    db.queue.push(same_id);
    assert!(!db.well_formed());
    db.queue.pop();
    db.queue[0].lock_holder = Some("OPERATOR".to_string());
    assert!(!db.well_formed());
    db.queue[0].lock_acquired_at = Some(1);
    assert!(db.well_formed());

    db.users.push(operator("OPERATOR"));
    assert!(!db.well_formed());
    db.users.pop();

    db.groups.push(Group {
        uuid: "G".to_string(),
        created_at: 1,
        created_by: "OPERATOR".to_string(),
        name: "group".to_string(),
        subjects: vec!["MISSING".to_string()],
        description: None,
    });
    assert!(!db.well_formed());
    db.groups[0].subjects.clear();
    assert!(db.well_formed());

    db.data.push(Data::Presence {
        id: "U".to_string(),
        platform: "P".to_string(),
        presence_type: "live".to_string(),
        retrieved_at: 1,
        added_by: Some("STRANGER".to_string()),
        added_at: Some(1),
    });
    assert!(!db.well_formed());
    db.data.clear();

    db.referrals.push(Referral {
        created_by: "OPERATOR".to_string(),
        created_at: 1,
        hashed_code: "C".to_string(),
        used: true,
        used_by: None,
    });
    assert!(!db.well_formed());
    db.referrals[0].used = false;
    assert!(db.well_formed());
    let again = db.referrals[0].clone();
    db.referrals.push(again);
    assert!(!db.well_formed());
}
