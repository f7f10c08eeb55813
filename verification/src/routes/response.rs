//! Response bodies and the status codes they travel with.
//!
//! Every body carries `response`: `OK` on success and `ERROR` on failure.

use vstd::prelude::*;

use crate::concepts::group::Group;
use crate::concepts::subject::Subject;
use crate::concepts::user::User;
use crate::config::TypeTable;
use crate::routes::view::ViewData;

verus! {

/// The HTTP status codes that the server answers with, under their usual
/// names.
#[allow(non_camel_case_types)]
#[derive(Clone, Copy, Debug, PartialEq, Eq, Structural)]
pub enum StatusCode {
    OK,
    CREATED,
    BAD_REQUEST,
    UNAUTHORIZED,
    NOT_FOUND,
    METHOD_NOT_ALLOWED,
    REQUEST_TIMEOUT,
    CONFLICT,
    UNPROCESSABLE_ENTITY,
    INTERNAL_SERVER_ERROR,
}

impl StatusCode {
    /// The numeric code.
    pub open spec fn code(self) -> int {
        match self {
            StatusCode::OK => 200,
            StatusCode::CREATED => 201,
            StatusCode::BAD_REQUEST => 400,
            StatusCode::UNAUTHORIZED => 401,
            StatusCode::NOT_FOUND => 404,
            StatusCode::METHOD_NOT_ALLOWED => 405,
            StatusCode::REQUEST_TIMEOUT => 408,
            StatusCode::CONFLICT => 409,
            StatusCode::UNPROCESSABLE_ENTITY => 422,
            StatusCode::INTERNAL_SERVER_ERROR => 500,
        }
    }

    /// The numeric code.
    pub fn as_u16(&self) -> (code: u16)
        ensures
            code == self.code(),
    {
        match self {
            StatusCode::OK => 200,
            StatusCode::CREATED => 201,
            StatusCode::BAD_REQUEST => 400,
            StatusCode::UNAUTHORIZED => 401,
            StatusCode::NOT_FOUND => 404,
            StatusCode::METHOD_NOT_ALLOWED => 405,
            StatusCode::REQUEST_TIMEOUT => 408,
            StatusCode::CONFLICT => 409,
            StatusCode::UNPROCESSABLE_ENTITY => 422,
            StatusCode::INTERNAL_SERVER_ERROR => 500,
        }
    }
}

#[derive(Debug, PartialEq, Eq)]
pub struct ErrorResponse {
    pub response: String,
    pub text: String,
}

impl ErrorResponse {
    pub fn from_text(text: &str) -> (body: Self)
        ensures
            body.response@ == "ERROR"@,
            body.text@ == text@,
    {
        Self { response: "ERROR".to_string(), text: text.to_string() }
    }
}

#[derive(Debug, PartialEq, Eq)]
pub struct OkResponse {
    pub response: String,
}

impl OkResponse {
    pub fn new() -> (body: Self)
        ensures
            body.response@ == "OK"@,
    {
        Self { response: "OK".to_string() }
    }
}

impl Default for OkResponse {
    fn default() -> (body: Self)
        ensures
            body.response@ == "OK"@,
    {
        Self::new()
    }
}

#[derive(Debug, PartialEq, Eq)]
pub struct InviteResponse {
    pub response: String,
    pub code: String,
}

impl InviteResponse {
    pub fn new(code: String) -> (body: Self)
        ensures
            body.response@ == "OK"@,
            body.code == code,
    {
        Self { response: "OK".to_string(), code }
    }
}

#[derive(Debug, PartialEq, Eq)]
pub struct QueueResponse {
    pub response: String,
    pub queue_id: String,
    pub platform: String,
    pub platform_id: String,
    pub platform_username_hint: String,
}

impl QueueResponse {
    pub fn new(
        queue_id: String,
        platform: String,
        platform_id: String,
        platform_username_hint: String,
    ) -> (body: Self)
        ensures
            body.response@ == "OK"@,
            body.queue_id == queue_id,
            body.platform == platform,
            body.platform_id == platform_id,
            body.platform_username_hint == platform_username_hint,
    {
        Self { response: "OK".to_string(), queue_id, platform, platform_id, platform_username_hint }
    }
}

#[derive(Debug, PartialEq, Eq)]
pub struct UserResponse {
    pub response: String,
    pub user: User,
}

impl UserResponse {
    pub fn from_user(user: User) -> (body: Self)
        ensures
            body.response@ == "OK"@,
            body.user == user,
    {
        Self { response: "OK".to_string(), user }
    }
}

/// The answer to a registration: the new operator and the key, which is shown
/// this once.
#[derive(Debug, PartialEq, Eq)]
pub struct RegisterResponse {
    pub response: String,
    pub user: User,
    pub key: String,
}

impl RegisterResponse {
    pub fn from_user_with_code(user: User, key: String) -> (body: Self)
        ensures
            body.response@ == "OK"@,
            body.user == user,
            body.key == key,
    {
        Self { response: "OK".to_string(), user, key }
    }
}

#[derive(Debug, PartialEq, Eq)]
pub struct ViewResponse {
    pub response: String,
    pub view_data: ViewData,
}

impl ViewResponse {
    pub fn from_view_data(view_data: ViewData) -> (body: Self)
        ensures
            body.response@ == "OK"@,
            body.view_data == view_data,
    {
        Self { response: "OK".to_string(), view_data }
    }
}

#[derive(Debug, PartialEq, Eq)]
pub struct TypesResponse {
    pub response: String,
    pub content_types: TypeTable,
    pub presence_types: TypeTable,
}

impl TypesResponse {
    pub fn from_types(content_types: TypeTable, presence_types: TypeTable) -> (body: Self)
        ensures
            body.response@ == "OK"@,
            body.content_types == content_types,
            body.presence_types == presence_types,
    {
        Self { response: "OK".to_string(), content_types, presence_types }
    }
}

#[derive(Debug, PartialEq, Eq)]
pub struct ResetResponse {
    pub response: String,
    pub key: String,
}

impl ResetResponse {
    pub fn from_key(key: String) -> (body: Self)
        ensures
            body.response@ == "OK"@,
            body.key == key,
    {
        Self { response: "OK".to_string(), key }
    }
}

#[derive(Debug, PartialEq, Eq)]
pub struct LoginResponse {
    pub response: String,
    pub user: User,
    pub subjects: Vec<Subject>,
    pub groups: Vec<Group>,
}

impl LoginResponse {
    pub fn from_user_data(user: User, subjects: Vec<Subject>, groups: Vec<Group>) -> (body: Self)
        ensures
            body.response@ == "OK"@,
            body.user == user,
            body.subjects == subjects,
            body.groups == groups,
    {
        Self { response: "OK".to_string(), user, subjects, groups }
    }
}

#[derive(Debug, PartialEq, Eq)]
pub struct CreateResponse {
    pub response: String,
    pub uuid: String,
}

impl CreateResponse {
    pub fn from_uuid(uuid: &str) -> (body: Self)
        ensures
            body.response@ == "OK"@,
            body.uuid@ == uuid@,
    {
        Self { response: "OK".to_string(), uuid: uuid.to_string() }
    }
}

/// A refusal: a status and the body that explains it.
pub type Refusal = (StatusCode, ErrorResponse);

/// The refusal with status `status` and explanation `text`.
pub fn refusal(status: StatusCode, text: &str) -> (refused: Refusal)
    ensures
        refused.0 == status,
        refused.1.response@ == "ERROR"@,
        refused.1.text@ == text@,
{
    (status, ErrorResponse::from_text(text))
}

} // verus!
