//! The platforms and record types that the server accepts.

use vstd::prelude::*;

use crate::concepts::subject::copy_profiles;
use crate::config::IConfig;
use crate::routes::response::{StatusCode, TypesResponse};

verus! {

/// Answers with the content types and the presence types of the
/// configuration.
pub fn types(config: &IConfig) -> (answer: (StatusCode, TypesResponse))
    requires
        config@.wf(),
    ensures
        answer.0 == StatusCode::OK,
        answer.1.response@ == "OK"@,
        answer.1.content_types.deep_view() == config@.content_types,
        answer.1.presence_types.deep_view() == config@.presence_types,
{
    let tr = TypesResponse::from_types(
        copy_profiles(&config.content_types),
        copy_profiles(&config.presence_types),
    );
    (StatusCode::OK, tr)
}

} // verus!
