use vstd::prelude::*;

verus! {

/// Coarse error category, surfaced in machine-readable output.
#[derive(Clone, Copy, Debug, PartialEq, Eq, Structural)]
pub enum ErrorCode {
    Error,
    Parse,
    Conflict,
    NotFound,
    AuthFailed,
    NotAuthorized,
    Io,
    Timeout,
    NotClaimed,
    NotParticipant,
    RateLimited,
    TooLarge,
}

impl ErrorCode {
    /// The stable wire name of the category.
    pub fn as_str(&self) -> (r: &'static str)
        ensures
            r@ == self.wire_name(),
    {
        match self {
            ErrorCode::Error => "error",
            ErrorCode::Parse => "parse",
            ErrorCode::Conflict => "conflict",
            ErrorCode::NotFound => "not_found",
            ErrorCode::AuthFailed => "auth_failed",
            ErrorCode::NotAuthorized => "not_authorized",
            ErrorCode::Io => "io",
            ErrorCode::Timeout => "timeout",
            ErrorCode::NotClaimed => "not_claimed",
            ErrorCode::NotParticipant => "not_participant",
            ErrorCode::RateLimited => "rate_limited",
            ErrorCode::TooLarge => "too_large",
        }
    }

    pub open spec fn wire_name(self) -> Seq<char> {
        match self {
            ErrorCode::Error => "error"@,
            ErrorCode::Parse => "parse"@,
            ErrorCode::Conflict => "conflict"@,
            ErrorCode::NotFound => "not_found"@,
            ErrorCode::AuthFailed => "auth_failed"@,
            ErrorCode::NotAuthorized => "not_authorized"@,
            ErrorCode::Io => "io"@,
            ErrorCode::Timeout => "timeout"@,
            ErrorCode::NotClaimed => "not_claimed"@,
            ErrorCode::NotParticipant => "not_participant"@,
            ErrorCode::RateLimited => "rate_limited"@,
            ErrorCode::TooLarge => "too_large"@,
        }
    }
}

/// An error with a category and a human-readable message.
pub struct RaftError {
    pub code: ErrorCode,
    pub message: String,
}

impl RaftError {
    pub fn coded(code: ErrorCode, message: String) -> (r: RaftError)
        ensures
            r.code == code,
            r.message@ == message@,
    {
        RaftError { code, message }
    }

    /// A copy of the error.
    pub fn duplicate(&self) -> (r: RaftError)
        ensures
            r.code == self.code,
            r.message@ == self.message@,
    {
        RaftError { code: self.code, message: self.message.clone() }
    }

    /// Process exit status: 2 for a timeout, 1 for everything else.
    pub fn exit_code(&self) -> (r: i32)
        ensures
            r == (if self.code == ErrorCode::Timeout { 2i32 } else { 1i32 }),
    {
        match self.code {
            ErrorCode::Timeout => 2,
            _ => 1,
        }
    }
}

} // verus!
