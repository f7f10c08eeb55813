//! The active configuration: which platforms and record types the server
//! accepts, and the settings of its surroundings.

use vstd::prelude::*;

use crate::utils::text::{contains_text, Text};

verus! {

/// The record types allowed on each platform, as a list of platforms with
/// their types. It is a table by platform: no platform is listed twice.
///
/// A list and not a hash map, because the contracts say what stands under a
/// platform, and of a map with text for keys vstd states nothing: it has no
/// key model for `String`.
pub type TypeTable = Vec<(String, Vec<String>)>;

/// What the rules read of a configuration.
pub struct ConfigView {
    pub content_types: Seq<(Text, Seq<Text>)>,
    pub presence_types: Seq<(Text, Seq<Text>)>,
}

/// Whether `table` has an entry for `platform`.
pub open spec fn lists_platform(table: Seq<(Text, Seq<Text>)>, platform: Text) -> bool {
    exists|i: int| 0 <= i < table.len() && (#[trigger] table[i]).0 == platform
}

/// Whether `table` allows `kind` on `platform`.
pub open spec fn lists_type(table: Seq<(Text, Seq<Text>)>, platform: Text, kind: Text) -> bool {
    exists|i: int|
        0 <= i < table.len() && (#[trigger] table[i]).0 == platform && table[i].1.contains(kind)
}

impl ConfigView {
    /// What holds of a configuration: each of its two tables is a table by
    /// platform, with no platform listed twice.
    pub open spec fn wf(self) -> bool {
        crate::database::distinct_platforms(self.content_types)
            && crate::database::distinct_platforms(self.presence_types)
    }

    /// Whether presence of type `presence_type` may be reported on `platform`.
    pub open spec fn valid_presence_type(self, platform: Text, presence_type: Text) -> bool {
        lists_type(self.presence_types, platform, presence_type)
    }

    /// Whether content of type `content_type` may be reported on `platform`.
    pub open spec fn valid_content_type(self, platform: Text, content_type: Text) -> bool {
        lists_type(self.content_types, platform, content_type)
    }

    /// Whether `platform` is known to either table.
    pub open spec fn valid_platform(self, platform: Text) -> bool {
        lists_platform(self.content_types, platform) || lists_platform(
            self.presence_types,
            platform,
        )
    }
}

pub struct IConfig {
    pub mongodb: MDBConfig,
    pub content_types: TypeTable,
    pub presence_types: TypeTable,
    pub settings: Settings,
    pub network: NetworkConfig,
    pub tls: TLSConfig,
}

impl View for IConfig {
    type V = ConfigView;

    open spec fn view(&self) -> ConfigView {
        ConfigView {
            content_types: self.content_types.deep_view(),
            presence_types: self.presence_types.deep_view(),
        }
    }
}

fn table_lists_type(table: &TypeTable, platform: &str, kind: &str) -> (listed: bool)
    ensures
        listed == lists_type(table.deep_view(), platform@, kind@),
{
    let mut i: usize = 0;
    while i < table.len()
        invariant
            i <= table.len(),
            forall|j: int|
                0 <= j < i ==> !((#[trigger] table.deep_view()[j]).0 == platform@
                    && table.deep_view()[j].1.contains(kind@)),
        decreases table.len() - i,
    {
        assert(table.deep_view()[i as int] == table@[i as int].deep_view());
        if *table[i].0.as_str() == *platform && contains_text(&table[i].1, kind) {
            return true;
        }
        i += 1;
    }
    false
}

fn table_lists_platform(table: &TypeTable, platform: &str) -> (listed: bool)
    ensures
        listed == lists_platform(table.deep_view(), platform@),
{
    let mut i: usize = 0;
    while i < table.len()
        invariant
            i <= table.len(),
            forall|j: int| 0 <= j < i ==> (#[trigger] table.deep_view()[j]).0 != platform@,
        decreases table.len() - i,
    {
        assert(table.deep_view()[i as int] == table@[i as int].deep_view());
        if *table[i].0.as_str() == *platform {
            return true;
        }
        i += 1;
    }
    false
}

impl IConfig {
    /// Whether the configuration is well formed: whether neither table lists
    /// a platform twice.
    pub fn well_formed(&self) -> (ok: bool)
        ensures
            ok == self@.wf(),
    {
        crate::routes::subjects::create::platforms_distinct(&self.content_types)
            && crate::routes::subjects::create::platforms_distinct(&self.presence_types)
    }

    /// Whether presence of type `presence_type` may be reported on `platform`.
    pub fn valid_presence_type(&self, platform: &str, presence_type: &str) -> (valid: bool)
        requires
            self@.wf(),
        ensures
            valid == self@.valid_presence_type(platform@, presence_type@),
    {
        table_lists_type(&self.presence_types, platform, presence_type)
    }

    /// Whether content of type `content_type` may be reported on `platform`.
    pub fn valid_content_type(&self, platform: &str, content_type: &str) -> (valid: bool)
        requires
            self@.wf(),
        ensures
            valid == self@.valid_content_type(platform@, content_type@),
    {
        table_lists_type(&self.content_types, platform, content_type)
    }

    /// Whether `platform` has an entry in either table.
    pub fn valid_platform(&self, platform: &str) -> (valid: bool)
        requires
            self@.wf(),
        ensures
            valid == self@.valid_platform(platform@),
    {
        table_lists_platform(&self.content_types, platform) || table_lists_platform(
            &self.presence_types,
            platform,
        )
    }
}

pub struct Settings {
    pub log_level: String,
    pub queue_timeout_secs: i64,
}

impl Settings {
    /// The log level used when the configuration names none: `INFO`.
    pub fn default_log_level() -> (level: String)
        ensures
            level@ == "INFO"@,
    {
        "INFO".to_string()
    }

    /// The lease timeout used when the configuration names none: 30 seconds.
    pub fn default_queue_timeout_secs() -> (secs: i64)
        ensures
            secs == 30,
    {
        30
    }
}

impl Default for Settings {
    fn default() -> (settings: Self)
        ensures
            settings.log_level@ == "INFO"@,
            settings.queue_timeout_secs == 30,
    {
        Self {
            log_level: Self::default_log_level(),
            queue_timeout_secs: Self::default_queue_timeout_secs(),
        }
    }
}

pub struct TLSConfig {
    pub cert: String,
    pub key: String,
}

pub struct NetworkConfig {
    pub address: String,
    pub port: String,
}

pub struct MDBConfig {
    pub address: String,
    pub port: String,
    pub database: String,
    pub credentials: Option<Credentials>,
}

pub struct Credentials {
    pub username: String,
    pub password: String,
    pub auth_database: String,
}

} // verus!
