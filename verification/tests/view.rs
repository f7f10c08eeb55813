use instrumentality::concepts::data::Data;
use instrumentality::concepts::user::User;
use instrumentality::config::{IConfig, MDBConfig, NetworkConfig, Settings, TLSConfig};
use instrumentality::database::Database;
use instrumentality::routes::response::StatusCode;
use instrumentality::routes::subjects::create::CreateSubjectRequest;
use instrumentality::routes::view::{
    first_metadata, recent_records, view, view_profile, ViewQuery, VIEW_LIMIT,
};

fn config() -> IConfig {
    IConfig {
        mongodb: MDBConfig {
            address: "127.0.0.1".to_string(),
            port: "27017".to_string(),
            database: "test".to_string(),
            credentials: None,
        },
        content_types: vec![("PLATFORM_1".to_string(), vec!["story".to_string()])],
        presence_types: vec![("PLATFORM_1".to_string(), vec!["live".to_string()])],
        settings: Settings::default(),
        network: NetworkConfig { address: "127.0.0.1".to_string(), port: "12321".to_string() },
        tls: TLSConfig { cert: "tls/cert.pem".to_string(), key: "tls/privkey.pem".to_string() },
    }
}

fn operator() -> User {
    User {
        uuid: "OPERATOR".to_string(),
        name: "test".to_string(),
        hashed_key: "digest".to_string(),
        admin: false,
        banned: false,
        created_at: 1,
    }
}

fn content(id: &str, content_id: &str, retrieved_at: i64) -> Data {
    Data::Content {
        id: id.to_string(),
        platform: "PLATFORM_1".to_string(),
        content_type: "story".to_string(),
        retrieved_at,
        content_id: content_id.to_string(),
        deleted: None,
        retrieved_from: None,
        created_at: None,
        body: None,
        media: None,
        references: None,
        added_by: Some("OPERATOR".to_string()),
        added_at: Some(1),
    }
}

fn presence(id: &str, retrieved_at: i64) -> Data {
    Data::Presence {
        id: id.to_string(),
        platform: "PLATFORM_1".to_string(),
        presence_type: "live".to_string(),
        retrieved_at,
        added_by: Some("OPERATOR".to_string()),
        added_at: Some(1),
    }
}

fn meta(id: &str, username: &str, retrieved_at: i64) -> Data {
    Data::Meta {
        id: id.to_string(),
        platform: "PLATFORM_1".to_string(),
        username: username.to_string(),
        private: false,
        banned: false,
        retrieved_at,
        display_name: None,
        profile_picture: None,
        bio: None,
        verified: None,
        references: None,
        link: None,
        added_by: Some("OPERATOR".to_string()),
        added_at: Some(1),
    }
}

fn environment() -> (Database, User) {
    let mut db = Database::new();
    let user = operator();
    assert!(db.restore_user(user.clone()));
    let config = config();
    for (uuid, name, ids) in [("S1", "one", vec!["A", "B"]), ("S2", "two", vec!["C"])] {
        create_subject(
            &user,
            &mut db,
            &config,
            CreateSubjectRequest {
                name: name.to_string(),
                profiles: vec![(
                    "PLATFORM_1".to_string(),
                    ids.iter().map(|id| id.to_string()).collect(),
                )],
                description: None,
            },
            uuid.to_string(),
            1,
        )
        .unwrap();
    }
    for record in [
        content("A", "first", 10),
        presence("A", 5),
        content("A", "third", 30),
        meta("A", "name", 7),
        content("B", "other", 99),
        content("A", "second", 20),
        content("A", "tie", 20),
        meta("A", "later name", 8),
        presence("A", 6),
    ] {
        assert!(db.restore_record(record));
    }
    (db, user)
}

fn create_subject(
    user: &User,
    db: &mut Database,
    config: &IConfig,
    data: CreateSubjectRequest,
    uuid: String,
    now: i64,
) -> Result<
    (StatusCode, instrumentality::routes::response::CreateResponse),
    (StatusCode, instrumentality::routes::response::ErrorResponse),
> {
    let count: usize = data.profiles.iter().map(|(_, ids)| ids.len()).sum();
    let queue_ids = (0..count).map(|i| format!("{uuid}-{i}")).collect();
    instrumentality::routes::subjects::create::create_with(
        user, db, config, data, uuid, now, queue_ids,
    )
}

#[test]
fn view_no_subjects() {
    let (db, user) = environment();
    let (status, er) = view(None, &db, &user).unwrap_err();
    assert_eq!(status, StatusCode::BAD_REQUEST);
    assert_eq!(er.response, "ERROR");
    assert_eq!(er.text, "You must provide a list of subjects.");
}

#[test]
fn view_of_subjects() {
    let (db, user) = environment();
    let query = ViewQuery { subjects: vec!["S2".to_string(), "UNKNOWN".to_string(), "S1".to_string()] };
    let (status, body) = view(Some(query), &db, &user).unwrap();
    assert_eq!(status, StatusCode::OK);
    assert_eq!(body.response, "OK");
    let shown = &body.view_data.subject_data;
    assert_eq!(shown.len(), 2);
    assert_eq!(shown[0].subject, db.subjects[0]);
    assert_eq!(shown[1].subject.uuid, "S2");
    assert_eq!(shown[0].platforms.len(), 1);
    assert_eq!(shown[0].platforms[0].platform, "PLATFORM_1");
    let profiles = &shown[0].platforms[0].profiles;
    assert_eq!(profiles.len(), 2);
    assert_eq!(profiles[0].meta, Some(meta("A", "name", 7)));
    assert_eq!(
        profiles[0].content,
        vec![
            content("A", "third", 30),
            content("A", "second", 20),
            content("A", "tie", 20),
            content("A", "first", 10),
        ]
    );
    assert_eq!(profiles[0].presence, vec![presence("A", 6), presence("A", 5)]);
    assert_eq!(profiles[1].meta, None);
    assert_eq!(profiles[1].content, vec![content("B", "other", 99)]);
    assert!(profiles[1].presence.is_empty());
    let empty = &shown[1].platforms[0].profiles[0];
    assert_eq!(empty.meta, None);
    assert!(empty.content.is_empty());
    assert!(empty.presence.is_empty());
}

#[test]
fn view_of_nothing() {
    let (db, user) = environment();
    let (status, body) = view(Some(ViewQuery { subjects: vec![] }), &db, &user).unwrap();
    assert_eq!(status, StatusCode::OK);
    assert!(body.view_data.subject_data.is_empty());
}

#[test]
fn view_holds_the_hundred_latest() {
    let (mut db, _) = environment();
    for at in 0..150 {
        assert!(db.restore_record(presence("C", (at * 7) % 150)));
    }
    let latest = recent_records(&db, false, "PLATFORM_1", "C");
    assert_eq!(VIEW_LIMIT, 100);
    assert_eq!(latest.len(), 100);
    let instants: Vec<i64> = latest.iter().map(|record| record.retrieved_at()).collect();
    let expected: Vec<i64> = (50..150).rev().collect();
    assert_eq!(instants, expected);
    assert!(recent_records(&db, true, "PLATFORM_1", "C").is_empty());
}

#[test]
fn view_of_a_profile() {
    let (db, _) = environment();
    assert_eq!(first_metadata(&db, "PLATFORM_1", "A"), Some(meta("A", "name", 7)));
    assert_eq!(first_metadata(&db, "PLATFORM_2", "A"), None);
    let profile = view_profile(&db, "PLATFORM_1", "B");
    assert_eq!(profile.meta, None);
    assert_eq!(profile.content.len(), 1);
}
