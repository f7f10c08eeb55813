use instrumentality::concepts::data::{Data, Datas, Timestamp};
use instrumentality::config::{IConfig, MDBConfig, NetworkConfig, Settings, TLSConfig};
use instrumentality::routes::queue::InternalQueueItem;

fn config() -> IConfig {
    IConfig {
        mongodb: MDBConfig {
            address: "127.0.0.1".to_string(),
            port: "27017".to_string(),
            database: "test".to_string(),
            credentials: None,
        },
        content_types: vec![
            ("PLATFORM_1".to_string(), vec!["post".to_string(), "story".to_string()]),
            ("PLATFORM_2".to_string(), vec!["scrobble".to_string()]),
        ],
        presence_types: vec![
            ("PLATFORM_1".to_string(), vec!["live".to_string()]),
            ("PLATFORM_3".to_string(), vec!["streaming_now".to_string()]),
        ],
        settings: Settings::default(),
        network: NetworkConfig { address: "127.0.0.1".to_string(), port: "12321".to_string() },
        tls: TLSConfig { cert: "tls/cert.pem".to_string(), key: "tls/privkey.pem".to_string() },
    }
}

fn content(id: &str, platform: &str, content_type: &str) -> Data {
    Data::Content {
        id: id.to_string(),
        platform: platform.to_string(),
        content_type: content_type.to_string(),
        retrieved_at: 1_000,
        content_id: "CONTENT_1".to_string(),
        deleted: Some(false),
        retrieved_from: Some("https://example.org/1".to_string()),
        created_at: Some(Timestamp::Span(10, 20)),
        body: Some("body".to_string()),
        media: Some(vec!["https://example.org/1.png".to_string()]),
        references: Some(std::collections::HashMap::from([(
            "reply_to".to_string(),
            "CONTENT_0".to_string(),
        )])),
        added_by: None,
        added_at: None,
    }
}

fn presence(id: &str, platform: &str, presence_type: &str) -> Data {
    Data::Presence {
        id: id.to_string(),
        platform: platform.to_string(),
        presence_type: presence_type.to_string(),
        retrieved_at: 2_000,
        added_by: None,
        added_at: None,
    }
}

fn meta(id: &str, platform: &str, username: &str) -> Data {
    Data::Meta {
        id: id.to_string(),
        platform: platform.to_string(),
        username: username.to_string(),
        private: false,
        banned: false,
        retrieved_at: 3_000,
        display_name: Some("Display".to_string()),
        profile_picture: None,
        bio: None,
        verified: Some(true),
        references: None,
        link: None,
        added_by: None,
        added_at: None,
    }
}

fn lease(platform_id: &str, platform: &str, confirmed_id: bool) -> InternalQueueItem {
    InternalQueueItem {
        queue_id: "QUEUE_1".to_string(),
        platform_id: platform_id.to_string(),
        platform: platform.to_string(),
        last_processed: 0,
        lock_holder: Some("OPERATOR".to_string()),
        lock_acquired_at: Some(5),
        references: 1,
        confirmed_id,
    }
}

#[test]
fn tag_stamps_attribution_and_keeps_the_rest() {
    let tagged = content("U", "PLATFORM_1", "story").tag_at("OPERATOR", 77);
    let expected = Data::Content {
        id: "U".to_string(),
        platform: "PLATFORM_1".to_string(),
        content_type: "story".to_string(),
        retrieved_at: 1_000,
        content_id: "CONTENT_1".to_string(),
        deleted: Some(false),
        retrieved_from: Some("https://example.org/1".to_string()),
        created_at: Some(Timestamp::Span(10, 20)),
        body: Some("body".to_string()),
        media: Some(vec!["https://example.org/1.png".to_string()]),
        references: Some(std::collections::HashMap::from([(
            "reply_to".to_string(),
            "CONTENT_0".to_string(),
        )])),
        added_by: Some("OPERATOR".to_string()),
        added_at: Some(77),
    };
    assert_eq!(tagged, expected);
}

#[test]
fn tag_replaces_an_earlier_attribution() {
    let once = presence("U", "PLATFORM_1", "live").tag_at("FIRST", 1);
    let twice = once.tag_at("SECOND", 2);
    assert_eq!(
        twice,
        Data::Presence {
            id: "U".to_string(),
            platform: "PLATFORM_1".to_string(),
            presence_type: "live".to_string(),
            retrieved_at: 2_000,
            added_by: Some("SECOND".to_string()),
            added_at: Some(2),
        }
    );
}

#[test]
fn tag_of_meta_keeps_username() {
    let tagged = meta("123", "PLATFORM_1", "name").tag_at("OPERATOR", 9);
    match tagged {
        Data::Meta { id, username, added_by, added_at, display_name, verified, .. } => {
            assert_eq!(id, "123");
            assert_eq!(username, "name");
            assert_eq!(added_by, Some("OPERATOR".to_string()));
            assert_eq!(added_at, Some(9));
            assert_eq!(display_name, Some("Display".to_string()));
            assert_eq!(verified, Some(true));
        }
        _ => panic!("expected metadata"),
    }
}

#[test]
fn tag_with_the_clock_attributes_to_the_operator() {
    let tagged = presence("U", "PLATFORM_1", "live").tag("OPERATOR");
    match tagged {
        Data::Presence { added_by, added_at, .. } => {
            assert_eq!(added_by, Some("OPERATOR".to_string()));
            assert!(added_at.unwrap() > 1_500_000_000_000_000);
        }
        _ => panic!("expected presence"),
    }
}

#[test]
fn batch_tag_stamps_every_record() {
    let batch = Datas {
        queue_id: Some("Q".to_string()),
        data: vec![presence("U", "PLATFORM_1", "live"), meta("1", "PLATFORM_1", "U")],
    };
    let tagged = batch.tag_at("OPERATOR", 5);
    assert_eq!(tagged.queue_id, Some("Q".to_string()));
    assert_eq!(tagged.data.len(), 2);
    assert_eq!(tagged.data[0], presence("U", "PLATFORM_1", "live").tag_at("OPERATOR", 5));
    assert_eq!(tagged.data[1], meta("1", "PLATFORM_1", "U").tag_at("OPERATOR", 5));
}

#[test]
fn verify_by_kind() {
    let config = config();
    assert!(content("U", "PLATFORM_1", "story").verify(&config));
    assert!(!content("U", "PLATFORM_1", "INVALID_CONTENT_TYPE").verify(&config));
    assert!(!content("U", "PLATFORM_1", "scrobble").verify(&config));
    assert!(content("U", "PLATFORM_2", "scrobble").verify(&config));
    assert!(presence("U", "PLATFORM_1", "live").verify(&config));
    assert!(!presence("U", "PLATFORM_1", "streaming_now").verify(&config));
    assert!(!presence("U", "PLATFORM_2", "live").verify(&config));
    assert!(meta("1", "PLATFORM_1", "U").verify(&config));
    assert!(meta("1", "PLATFORM_2", "U").verify(&config));
    assert!(meta("1", "PLATFORM_3", "U").verify(&config));
    assert!(!meta("1", "BADPLATFORM", "U").verify(&config));
}

#[test]
fn verify_for_config_drops_in_order() {
    let config = config();
    let batch = Datas {
        queue_id: None,
        data: vec![
            content("A", "PLATFORM_1", "story"),
            content("B", "PLATFORM_1", "nope"),
            presence("C", "PLATFORM_1", "live"),
            meta("D", "BADPLATFORM", "d"),
            meta("E", "PLATFORM_2", "e"),
        ],
    };
    let verified = batch.verify_for_config(&config);
    assert_eq!(verified.queue_id, None);
    assert_eq!(
        verified.data,
        vec![
            content("A", "PLATFORM_1", "story"),
            presence("C", "PLATFORM_1", "live"),
            meta("E", "PLATFORM_2", "e"),
        ]
    );
}

#[test]
fn verify_for_config_twice_is_once() {
    let config = config();
    let batch = || Datas {
        queue_id: Some("Q".to_string()),
        data: vec![
            content("A", "PLATFORM_1", "story"),
            content("B", "PLATFORM_9", "story"),
            presence("C", "PLATFORM_3", "streaming_now"),
        ],
    };
    let once = batch().verify_for_config(&config);
    let twice = batch().verify_for_config(&config).verify_for_config(&config);
    assert_eq!(once, twice);
    assert_eq!(once.data.len(), 2);
}

#[test]
fn verify_for_config_may_leave_nothing() {
    let config = config();
    let batch = Datas { queue_id: None, data: vec![content("B", "PLATFORM_1", "nope")] };
    assert!(batch.verify_for_config(&config).data.is_empty());
}

#[test]
fn verify_for_queue_on_confirmed_lease() {
    let batch = Datas {
        queue_id: Some("QUEUE_1".to_string()),
        data: vec![
            meta("123", "PLATFORM_1", "U"),
            meta("999", "PLATFORM_1", "U"),
            content("123", "PLATFORM_1", "story"),
            content("123", "PLATFORM_2", "story"),
            presence("999", "PLATFORM_1", "live"),
            presence("123", "PLATFORM_1", "live"),
        ],
    };
    let verified = batch.verify_for_queue(lease("123", "PLATFORM_1", true));
    assert_eq!(
        verified.data,
        vec![
            meta("123", "PLATFORM_1", "U"),
            content("123", "PLATFORM_1", "story"),
            presence("123", "PLATFORM_1", "live"),
        ]
    );
}

#[test]
fn verify_for_queue_on_unconfirmed_lease_lets_metadata_rename() {
    let batch = Datas {
        queue_id: Some("QUEUE_1".to_string()),
        data: vec![
            meta("123456789", "PLATFORM_1", "TEST_USER_1"),
            content("123456789", "PLATFORM_1", "story"),
            presence("TEST_USER_1", "PLATFORM_1", "live"),
            meta("123456789", "PLATFORM_2", "TEST_USER_1"),
        ],
    };
    let verified = batch.verify_for_queue(lease("TEST_USER_1", "PLATFORM_1", false));
    assert_eq!(
        verified.data,
        vec![
            meta("123456789", "PLATFORM_1", "TEST_USER_1"),
            presence("TEST_USER_1", "PLATFORM_1", "live"),
        ]
    );
}

#[test]
fn meta_is_the_first_metadata() {
    let batch = Datas {
        queue_id: None,
        data: vec![
            content("A", "PLATFORM_1", "story"),
            meta("1", "PLATFORM_1", "first"),
            meta("2", "PLATFORM_1", "second"),
        ],
    };
    assert_eq!(batch.meta(), Some(meta("1", "PLATFORM_1", "first")));
    let none = Datas { queue_id: None, data: vec![content("A", "PLATFORM_1", "story")] };
    assert_eq!(none.meta(), None);
    let empty = Datas { queue_id: None, data: vec![] };
    assert_eq!(empty.meta(), None);
}

#[test]
fn info_prefers_metadata() {
    let batch = Datas {
        queue_id: None,
        data: vec![
            content("A", "PLATFORM_2", "scrobble"),
            meta("123", "PLATFORM_1", "name"),
            meta("456", "PLATFORM_1", "other"),
        ],
    }
    .tag_at("OPERATOR", 1);
    assert_eq!(
        batch.info(),
        (
            "123".to_string(),
            "PLATFORM_1".to_string(),
            "OPERATOR".to_string(),
            Some("name".to_string())
        )
    );
}

#[test]
fn info_without_metadata_reads_the_first_record() {
    let batch = Datas {
        queue_id: None,
        data: vec![presence("P", "PLATFORM_3", "streaming_now"), content("A", "PLATFORM_2", "scrobble")],
    }
    .tag_at("OPERATOR", 1);
    assert_eq!(
        batch.info(),
        ("P".to_string(), "PLATFORM_3".to_string(), "OPERATOR".to_string(), None)
    );
}

#[test]
fn lease_check_of_single_records() {
    let unconfirmed = lease("TEST_USER_1", "PLATFORM_1", false);
    assert!(meta("123", "PLATFORM_1", "TEST_USER_1").verify_for_lease(&unconfirmed));
    assert!(!meta("123", "PLATFORM_2", "TEST_USER_1").verify_for_lease(&unconfirmed));
    assert!(!content("123", "PLATFORM_1", "story").verify_for_lease(&unconfirmed));
    assert!(content("TEST_USER_1", "PLATFORM_1", "story").verify_for_lease(&unconfirmed));
    let confirmed = lease("123", "PLATFORM_1", true);
    assert!(!meta("124", "PLATFORM_1", "TEST_USER_1").verify_for_lease(&confirmed));
    assert!(meta("123", "PLATFORM_1", "TEST_USER_1").verify_for_lease(&confirmed));
}

#[test]
fn record_copies_are_equal() {
    let record = content("A", "PLATFORM_1", "story");
    assert_eq!(record.clone(), record);
    let record = meta("1", "PLATFORM_1", "name");
    assert_eq!(record.clone(), record);
}
