//! Gemini status codes as a closed enum, with the two-way mapping between
//! codes and names.

use vstd::prelude::*;

verus! {

/// A Gemini response status. Codes outside the table map to
/// [`Status::Unsupported`].
#[derive(Debug, PartialEq, Eq, Structural)]
pub enum Status {
    /// Code 10.
    Input,
    /// Code 11.
    SensitiveInput,
    /// Code 20.
    Success,
    /// Code 30.
    TemporaryRedirect,
    /// Code 31.
    PermanentRedirect,
    /// Code 40.
    TemporaryFailure,
    /// Code 41.
    ServerUnavailable,
    /// Code 42.
    CGIError,
    /// Code 43.
    ProxyError,
    /// Code 44.
    SlowDown,
    /// Code 50.
    PermanentFailure,
    /// Code 51.
    NotFound,
    /// Code 52.
    Gone,
    /// Code 53.
    ProxyRefused,
    /// Code 59.
    BadRequest,
    /// Code 60.
    ClientCertificateRequired,
    /// Code 61.
    CertificateNotAuthorised,
    /// Code 62.
    CertificateNotValid,
    /// Any other code.
    Unsupported,
}

/// The code a status writes.
pub open spec fn status_code(s: Status) -> int {
    match s {
        Status::Input => 10,
        Status::SensitiveInput => 11,
        Status::Success => 20,
        Status::TemporaryRedirect => 30,
        Status::PermanentRedirect => 31,
        Status::TemporaryFailure => 40,
        Status::ServerUnavailable => 41,
        Status::CGIError => 42,
        Status::ProxyError => 43,
        Status::SlowDown => 44,
        Status::PermanentFailure => 50,
        Status::NotFound => 51,
        Status::Gone => 52,
        Status::ProxyRefused => 53,
        Status::BadRequest => 59,
        Status::ClientCertificateRequired => 60,
        Status::CertificateNotAuthorised => 61,
        Status::CertificateNotValid => 62,
        Status::Unsupported => 0,
    }
}

/// The status a code names.
pub open spec fn status_of(n: int) -> Status {
    if n == 10 {
        Status::Input
    } else if n == 11 {
        Status::SensitiveInput
    } else if n == 20 {
        Status::Success
    } else if n == 30 {
        Status::TemporaryRedirect
    } else if n == 31 {
        Status::PermanentRedirect
    } else if n == 40 {
        Status::TemporaryFailure
    } else if n == 41 {
        Status::ServerUnavailable
    } else if n == 42 {
        Status::CGIError
    } else if n == 43 {
        Status::ProxyError
    } else if n == 44 {
        Status::SlowDown
    } else if n == 50 {
        Status::PermanentFailure
    } else if n == 51 {
        Status::NotFound
    } else if n == 52 {
        Status::Gone
    } else if n == 53 {
        Status::ProxyRefused
    } else if n == 59 {
        Status::BadRequest
    } else if n == 60 {
        Status::ClientCertificateRequired
    } else if n == 61 {
        Status::CertificateNotAuthorised
    } else if n == 62 {
        Status::CertificateNotValid
    } else {
        Status::Unsupported
    }
}

impl Default for Status {
    /// The default status is success.
    fn default() -> (r: Self)
        ensures
            r == Status::Success,
    {
        Status::Success
    }
}

impl From<Status> for i32 {
    /// The code of a status.
    fn from(n: Status) -> (r: Self) {
        match n {
            Status::Input => 10,
            Status::SensitiveInput => 11,
            Status::Success => 20,
            Status::TemporaryRedirect => 30,
            Status::PermanentRedirect => 31,
            Status::TemporaryFailure => 40,
            Status::ServerUnavailable => 41,
            Status::CGIError => 42,
            Status::ProxyError => 43,
            Status::SlowDown => 44,
            Status::PermanentFailure => 50,
            Status::NotFound => 51,
            Status::Gone => 52,
            Status::ProxyRefused => 53,
            Status::BadRequest => 59,
            Status::ClientCertificateRequired => 60,
            Status::CertificateNotAuthorised => 61,
            Status::CertificateNotValid => 62,
            Status::Unsupported => 0,
        }
    }
}

impl vstd::std_specs::convert::FromSpecImpl<Status> for i32 {
    open spec fn obeys_from_spec() -> bool {
        true
    }

    open spec fn from_spec(n: Status) -> i32 {
        status_code(n) as i32
    }
}

impl From<i32> for Status {
    /// The status a code names; codes outside the table give
    /// [`Status::Unsupported`].
    fn from(n: i32) -> (r: Self) {
        match n {
            10 => Self::Input,
            11 => Self::SensitiveInput,
            20 => Self::Success,
            30 => Self::TemporaryRedirect,
            31 => Self::PermanentRedirect,
            40 => Self::TemporaryFailure,
            41 => Self::ServerUnavailable,
            42 => Self::CGIError,
            43 => Self::ProxyError,
            44 => Self::SlowDown,
            50 => Self::PermanentFailure,
            51 => Self::NotFound,
            52 => Self::Gone,
            53 => Self::ProxyRefused,
            59 => Self::BadRequest,
            60 => Self::ClientCertificateRequired,
            61 => Self::CertificateNotAuthorised,
            62 => Self::CertificateNotValid,
            _ => Self::Unsupported,
        }
    }
}

impl vstd::std_specs::convert::FromSpecImpl<i32> for Status {
    open spec fn obeys_from_spec() -> bool {
        true
    }

    open spec fn from_spec(n: i32) -> Status {
        status_of(n as int)
    }
}

} // verus!
