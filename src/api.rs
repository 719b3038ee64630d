//! Records exchanged with the read-it-later service, and the errors its HTTP
//! status codes stand for.
use vstd::prelude::*;

verus! {

/// The reply to a batch of actions.
#[derive(Debug)]
pub struct Response {
    pub action_results: Vec<bool>,
    pub action_errors: Vec<Option<String>>,
    pub status: i32,
}

/// Why one action of a batch failed.
#[derive(Debug)]
pub struct ActionError {
    pub message: String,
    pub error_type: String,
    pub code: i32,
}

/// An HTTP status the service answers with when a request fails, and what it
/// means.
#[derive(Debug)]
pub struct ApiRequestError<'a>(pub u32, pub &'a str);

/// The error for an HTTP status code, or `None` for a status that is no
/// failure of the request.
pub open spec fn status_error_spec(status: u16) -> Option<(u32, Seq<char>)> {
    if status == 400 {
        Some(
            (
                400,
                "Invalid request, please make sure you follow the documentation for proper syntax."@,
            ),
        )
    } else if status == 401 {
        Some((401, "Problem authenticating the user."@))
    } else if status == 403 {
        Some(
            (
                403,
                "User was authenticated, but access denied due to lack of permission or rate limiting."@,
            ),
        )
    } else if status == 500 {
        Some((500, "Internal Server Error"@))
    } else if status == 503 {
        Some((502, "Pocket's sync server is down for scheduled maintenance."@))
    } else {
        None
    }
}

impl<'a> ApiRequestError<'a> {
    /// The error that HTTP status `status` stands for.
    pub fn for_status(status: u16) -> (r: Option<ApiRequestError<'static>>)
        ensures
            match status_error_spec(status) {
                Some((code, text)) => r matches Some(e) && e.0 == code && e.1@ == text,
                None => r is None,
            },
    {
        if status == 400 {
            Some(
                ApiRequestError(
                    400,
                    "Invalid request, please make sure you follow the documentation for proper syntax.",
                ),
            )
        } else if status == 401 {
            Some(ApiRequestError(401, "Problem authenticating the user."))
        } else if status == 403 {
            Some(
                ApiRequestError(
                    403,
                    "User was authenticated, but access denied due to lack of permission or rate limiting.",
                ),
            )
        } else if status == 500 {
            Some(ApiRequestError(500, "Internal Server Error"))
        } else if status == 503 {
            Some(ApiRequestError(502, "Pocket's sync server is down for scheduled maintenance."))
        } else {
            None
        }
    }
}

/// The favorite flag of an item whose record leaves it out: not a favorite.
pub fn default_favorite() -> (r: String)
    ensures
        r@ == "0"@,
{
    let v = crate::text::chars_of("0");
    crate::text::string_of(&v)
}

/// Where the user's access token is kept.
pub struct UserTokenStorage;

} // verus!
