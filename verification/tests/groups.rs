use instrumentality::concepts::group::Group;
use instrumentality::concepts::user::User;
use instrumentality::config::{IConfig, MDBConfig, NetworkConfig, Settings, TLSConfig};
use instrumentality::database::Database;
use instrumentality::routes::groups::create::{
    create, create_with, group_from_create, group_from_create_with, CreateGroupRequest,
};
use instrumentality::routes::groups::delete::{delete, DeleteGroupRequest};
use instrumentality::routes::groups::update::{update, UpdateGroupRequest};
use instrumentality::routes::response::StatusCode;
use instrumentality::routes::subjects::create::CreateSubjectRequest;

fn config() -> IConfig {
    IConfig {
        mongodb: MDBConfig {
            address: "127.0.0.1".to_string(),
            port: "27017".to_string(),
            database: "test".to_string(),
            credentials: None,
        },
        content_types: vec![("PLATFORM_1".to_string(), vec!["story".to_string()])],
        presence_types: vec![("PLATFORM_2".to_string(), vec!["live".to_string()])],
        settings: Settings::default(),
        network: NetworkConfig { address: "127.0.0.1".to_string(), port: "12321".to_string() },
        tls: TLSConfig { cert: "tls/cert.pem".to_string(), key: "tls/privkey.pem".to_string() },
    }
}

fn operator(uuid: &str) -> User {
    User {
        uuid: uuid.to_string(),
        name: format!("name of {uuid}"),
        hashed_key: format!("digest of {uuid}"),
        admin: false,
        banned: false,
        created_at: 1,
    }
}

fn environment() -> (Database, User) {
    let mut db = Database::new();
    let user = operator("OPERATOR");
    assert!(db.restore_user(user.clone()));
    let config = config();
    for (uuid, name, platform, id) in
        [("S1", "test", "PLATFORM_1", "TEST_USER_1"), ("S2", "test2", "PLATFORM_2", "user2")]
    {
        create_subject(
            &user,
            &mut db,
            &config,
            CreateSubjectRequest {
                name: name.to_string(),
                profiles: vec![(platform.to_string(), vec![id.to_string()])],
                description: None,
            },
            uuid.to_string(),
            1,
        )
        .unwrap();
    }
    (db, user)
}

fn request(name: &str, subjects: &[&str]) -> CreateGroupRequest {
    CreateGroupRequest {
        name: name.to_string(),
        subjects: subjects.iter().map(|uuid| uuid.to_string()).collect(),
        description: Some("The testers.".to_string()),
    }
}

fn create_subject(
    user: &User,
    db: &mut Database,
    config: &IConfig,
    data: CreateSubjectRequest,
    uuid: String,
    now: i64,
) -> Result<
    (StatusCode, instrumentality::routes::response::CreateResponse),
    (StatusCode, instrumentality::routes::response::ErrorResponse),
> {
    let count: usize = data.profiles.iter().map(|(_, ids)| ids.len()).sum();
    let queue_ids = (0..count).map(|i| format!("{uuid}-{i}")).collect();
    instrumentality::routes::subjects::create::create_with(
        user, db, config, data, uuid, now, queue_ids,
    )
}

#[test]
fn group_from_request() {
    let user = operator("OPERATOR");
    let group = group_from_create_with(request("testers", &["S1"]), &user, "G".to_string(), 9);
    assert_eq!(
        group,
        Group {
            uuid: "G".to_string(),
            created_at: 9,
            created_by: "OPERATOR".to_string(),
            name: "testers".to_string(),
            subjects: vec!["S1".to_string()],
            description: Some("The testers.".to_string()),
        }
    );
    let minted = group_from_create(request("testers", &[]), &user).unwrap();
    assert_eq!(minted.uuid.len(), 36);
    assert_eq!(minted.name, "testers");
}

#[test]
fn group_creation() {
    let (mut db, user) = environment();
    let (status, body) =
        create_with(&user, &mut db, request("testers", &["S1"]), "G".to_string(), 9).unwrap();
    assert_eq!(status, StatusCode::CREATED);
    assert_eq!(body.response, "OK");
    assert_eq!(body.uuid, "G");
    assert_eq!(db.groups.len(), 1);
    assert_eq!(db.groups[0].subjects, vec!["S1".to_string()]);
    assert_eq!(db.groups[0].created_by, "OPERATOR");
    assert_eq!(db.queue.len(), 2);
}

#[test]
fn group_creation_with_the_clock() {
    let (mut db, user) = environment();
    let (status, body) = create(&user, &mut db, request("testers", &["S1", "S2"])).unwrap();
    assert_eq!(status, StatusCode::CREATED);
    assert_eq!(body.uuid, db.groups[0].uuid);
    assert_eq!(body.uuid.len(), 36);
}

#[test]
fn group_bad_uuid_creation() {
    let (mut db, user) = environment();
    let (status, body) =
        create_with(&user, &mut db, request("testers", &["S1", "SOMETHINGELSE"]), "G".to_string(), 9)
            .unwrap_err();
    assert_eq!(status, StatusCode::BAD_REQUEST);
    assert_eq!(body.response, "ERROR");
    assert_eq!(body.text, "One or more of the subjects does not exist.");
    assert!(db.groups.is_empty());
}

#[test]
fn group_name_conflict_and_identifier_collision() {
    let (mut db, user) = environment();
    create_with(&user, &mut db, request("testers", &["S1"]), "G".to_string(), 9).unwrap();
    let (status, body) =
        create_with(&user, &mut db, request("testers", &["S2"]), "G2".to_string(), 9).unwrap_err();
    assert_eq!(status, StatusCode::CONFLICT);
    assert_eq!(body.text, "Group by that name already exists.");
    let (status, body) =
        create_with(&user, &mut db, request("others", &["S2"]), "G".to_string(), 9).unwrap_err();
    assert_eq!(status, StatusCode::INTERNAL_SERVER_ERROR);
    assert_eq!(body.text, "Internal server error.");
    assert_eq!(db.groups.len(), 1);
}

#[test]
fn group_deletion() {
    let (mut db, user) = environment();
    create_with(&user, &mut db, request("testers", &["S1"]), "G".to_string(), 9).unwrap();
    create_with(&user, &mut db, request("others", &["S2"]), "H".to_string(), 9).unwrap();
    let (status, _) =
        delete(&operator("OTHER"), &mut db, DeleteGroupRequest { uuid: "G".to_string() }).unwrap_err();
    assert_eq!(status, StatusCode::BAD_REQUEST);
    let (status, body) = delete(&user, &mut db, DeleteGroupRequest { uuid: "G".to_string() }).unwrap();
    assert_eq!(status, StatusCode::OK);
    assert_eq!(body.response, "OK");
    assert_eq!(db.groups.len(), 1);
    assert_eq!(db.groups[0].uuid, "H");
    assert_eq!(db.subjects.len(), 2);
    let (status, body) =
        delete(&user, &mut db, DeleteGroupRequest { uuid: "G".to_string() }).unwrap_err();
    assert_eq!(status, StatusCode::BAD_REQUEST);
    assert_eq!(
        body.text,
        "No such group exists or it was not created by the user with the given key."
    );
}

#[test]
fn group_subject_deletion() {
    const USERNAME: &str = "TEST_USER_1";
    const USERNAME_PRIV: &str = "TEST_USER_1_PRIV";
    const PLATFORM_NAME: &str = "PLATFORM_1";

    let mut db = Database::new();
    let user = operator("OPERATOR");
    assert!(db.restore_user(user.clone()));
    let config = config();

    let new_subject = CreateSubjectRequest {
        name: "test".to_string(),
        profiles: vec![(
            PLATFORM_NAME.to_string(),
            vec![USERNAME.to_string(), USERNAME_PRIV.to_string()],
        )],
        description: None,
    };
    let (status, cr) =
        create_subject(&user, &mut db, &config, new_subject, "SUBJECT".to_string(), 1).unwrap();
    assert_eq!(status, StatusCode::CREATED);
    assert_eq!(cr.response, "OK".to_string());

    let (_, lr) = instrumentality::routes::user::login::login(&user, &db);
    assert_eq!(lr.response, "OK".to_string());
    assert_eq!(lr.user, user.clone());
    assert!(
        lr.subjects[0].profiles[0]
            == (PLATFORM_NAME.to_string(), vec![USERNAME.to_string(), USERNAME_PRIV.to_string()])
    );
    assert!(lr.groups.is_empty());

    let subject_uuid = lr.subjects[0].uuid.clone();
    let new_group = CreateGroupRequest {
        name: "test".to_string(),
        subjects: vec![subject_uuid.clone()],
        description: None,
    };
    let (status, _) = create_with(&user, &mut db, new_group, "GROUP".to_string(), 2).unwrap();
    assert_eq!(status, StatusCode::CREATED);

    let (_, lr) = instrumentality::routes::user::login::login(&user, &db);
    assert_eq!(lr.response, "OK".to_string());
    assert_eq!(lr.user, user.clone());
    assert!(
        lr.subjects[0].profiles[0]
            == (PLATFORM_NAME.to_string(), vec![USERNAME.to_string(), USERNAME_PRIV.to_string()])
    );
    assert_eq!(lr.groups[0].subjects[0], subject_uuid.clone());

    let (status, okr) = instrumentality::routes::subjects::delete::delete(
        &user,
        &mut db,
        instrumentality::routes::subjects::delete::DeleteSubjectRequest { uuid: subject_uuid },
    )
    .unwrap();
    assert_eq!(status, StatusCode::OK);
    assert_eq!(okr.response, "OK".to_string());

    let (_, lr) = instrumentality::routes::user::login::login(&user, &db);
    assert_eq!(lr.response, "OK".to_string());
    assert_eq!(lr.user, user.clone());
    assert_eq!(lr.groups[0].subjects.len(), 0);
    assert!(lr.subjects.is_empty());
}

#[test]
fn group_keeps_its_other_subjects() {
    let (mut db, user) = environment();
    create_with(&user, &mut db, request("testers", &["S1", "S2"]), "G".to_string(), 9).unwrap();
    instrumentality::routes::subjects::delete::delete(
        &user,
        &mut db,
        instrumentality::routes::subjects::delete::DeleteSubjectRequest { uuid: "S1".to_string() },
    )
    .unwrap();
    assert_eq!(db.groups.len(), 1);
    assert_eq!(db.groups[0].subjects, vec!["S2".to_string()]);
}

#[test]
fn group_update() {
    let (mut db, user) = environment();
    create_with(&user, &mut db, request("testers", &["S1"]), "G".to_string(), 9).unwrap();
    let (status, body) = update(
        &user,
        &mut db,
        UpdateGroupRequest {
            uuid: "G".to_string(),
            name: "renamed".to_string(),
            subjects: vec!["S2".to_string(), "S1".to_string()],
            description: None,
        },
    )
    .unwrap();
    assert_eq!(status, StatusCode::OK);
    assert_eq!(body.response, "OK");
    assert_eq!(
        db.groups,
        vec![Group {
            uuid: "G".to_string(),
            created_at: 9,
            created_by: "OPERATOR".to_string(),
            name: "renamed".to_string(),
            subjects: vec!["S2".to_string(), "S1".to_string()],
            description: None,
        }]
    );
}

#[test]
fn group_bad_uuid_update() {
    let (mut db, user) = environment();
    create_with(&user, &mut db, request("testers", &["S1"]), "G".to_string(), 9).unwrap();
    create_with(&user, &mut db, request("others", &["S2"]), "H".to_string(), 9).unwrap();
    let change = |uuid: &str, name: &str, subjects: &[&str]| UpdateGroupRequest {
        uuid: uuid.to_string(),
        name: name.to_string(),
        subjects: subjects.iter().map(|uuid| uuid.to_string()).collect(),
        description: None,
    };
    let (status, body) =
        update(&user, &mut db, change("G", "testers", &["S1", "SOMETHINGELSE"])).unwrap_err();
    assert_eq!(status, StatusCode::BAD_REQUEST);
    assert_eq!(body.text, "One or more of the subjects does not exist.");
    let (status, body) = update(&user, &mut db, change("NOPE", "testers", &["S1"])).unwrap_err();
    assert_eq!(status, StatusCode::BAD_REQUEST);
    assert_eq!(body.text, "Group does not exist or was not created by you.");
    let (status, body) = update(&user, &mut db, change("G", "others", &["S1"])).unwrap_err();
    assert_eq!(status, StatusCode::CONFLICT);
    assert_eq!(body.text, "Group by that name already exists.");
    assert_eq!(db.groups[0].name, "testers");
    assert_eq!(db.groups[0].subjects, vec!["S1".to_string()]);
}

#[test]
fn group_without_a_subject() {
    let group = Group {
        uuid: "G".to_string(),
        created_at: 9,
        created_by: "OPERATOR".to_string(),
        name: "testers".to_string(),
        subjects: vec!["A".to_string(), "B".to_string(), "A".to_string(), "C".to_string()],
        description: None,
    };
    assert_eq!(group.without("A").subjects, vec!["B".to_string(), "C".to_string()]);
    assert_eq!(group.without("Z"), group);
}
