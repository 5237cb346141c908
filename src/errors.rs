//! The ways a request fails.
use vstd::prelude::*;

verus! {

/// Why a request is refused.
#[derive(Clone, Copy, Debug, PartialEq, Eq, Structural)]
pub enum MemeError {
    /// The memes directory holds no image.
    NoMemes,
    /// The requested meme does not exist.
    NotFound,
    /// A bulk request asked for no meme or for more than the limit.
    InvalidCount,
    /// A name would leave the memes directory or has no allowed extension.
    InvalidName,
}

/// The body of a refusal: a summary and the details.
pub struct ErrorResponse {
    pub error: String,
    pub details: String,
}

/// The body of the health check.
pub struct HealthResponse {
    pub status: String,
    pub message: String,
}

/// The HTTP status a refusal is answered with.
pub open spec fn status_of(e: MemeError) -> u16 {
    match e {
        MemeError::NoMemes => 500,
        MemeError::NotFound => 404,
        MemeError::InvalidCount => 400,
        MemeError::InvalidName => 400,
    }
}

impl MemeError {
    /// The HTTP status this refusal is answered with: 400 for a bad request,
    /// 404 for a missing meme, 500 for an empty directory.
    pub fn status_code(&self) -> (r: u16)
        ensures
            r == status_of(*self),
    {
        match self {
            MemeError::NoMemes => 500,
            MemeError::NotFound => 404,
            MemeError::InvalidCount => 400,
            MemeError::InvalidName => 400,
        }
    }
}

/// The body of a refusal; `name` is the meme that was asked for, which the
/// details of a missing or refused name quote.
pub fn error_response(e: MemeError, name: &str) -> (r: ErrorResponse)
    ensures
        r.error@ == match e {
            MemeError::NoMemes => "No memes found"@,
            MemeError::NotFound => "Meme not found"@,
            MemeError::InvalidCount => "Invalid count"@,
            MemeError::InvalidName => "Invalid filename"@,
        },
        r.details@ == match e {
            MemeError::NoMemes => "No image memes found in memes directory"@,
            MemeError::NotFound => "Meme '"@ + name@ + "' does not exist"@,
            MemeError::InvalidCount => "Count must be between 1 and 50"@,
            MemeError::InvalidName => "Filename '"@ + name@ + "' is not an allowed meme name"@,
        },
{
    match e {
        MemeError::NoMemes => ErrorResponse {
            error: String::from_str("No memes found"),
            details: String::from_str("No image memes found in memes directory"),
        },
        MemeError::NotFound => {
            let mut details = String::from_str("Meme '");
            details.append(name);
            details.append("' does not exist");
            ErrorResponse { error: String::from_str("Meme not found"), details }
        },
        MemeError::InvalidCount => ErrorResponse {
            error: String::from_str("Invalid count"),
            details: String::from_str("Count must be between 1 and 50"),
        },
        MemeError::InvalidName => {
            let mut details = String::from_str("Filename '");
            details.append(name);
            details.append("' is not an allowed meme name");
            ErrorResponse { error: String::from_str("Invalid filename"), details }
        },
    }
}

/// The answer of the health check.
pub fn health_check() -> (r: HealthResponse)
    ensures
        r.status@ == "OK"@,
        r.message@ == "Meme server is running properly"@,
{
    HealthResponse {
        status: String::from_str("OK"),
        message: String::from_str("Meme server is running properly"),
    }
}

} // verus!
