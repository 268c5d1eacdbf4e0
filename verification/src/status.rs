//! The statuses that a response can carry, with their numeric codes and
//! their status lines.

use vstd::prelude::*;
use vstd::std_specs::convert::FromSpecImpl;
use vstd::std_specs::convert::TryFromSpecImpl;
use vstd::string::*;

verus! {

/// Why a status could not be made.
#[derive(Clone, Copy, Debug, PartialEq, Eq, Structural)]
pub enum StatusError {
    /// The numeric code is not one of the supported ones.
    InvalidStatusCode,
}

/// The outcomes that a response can report.
#[derive(Clone, Copy, Debug, PartialEq, Eq, Structural)]
pub enum HttpStatus {
    Okay,
    NotFound,
    Created,
}

/// The numeric code of each status.
pub open spec fn code_of(status: HttpStatus) -> u16 {
    match status {
        HttpStatus::Okay => 200,
        HttpStatus::NotFound => 404,
        HttpStatus::Created => 201,
    }
}

/// The status line of each status.
pub open spec fn line_of(status: HttpStatus) -> Seq<char> {
    match status {
        HttpStatus::Okay => "HTTP/1.1 200 OK"@,
        HttpStatus::NotFound => "HTTP/1.1 404 Not Found"@,
        HttpStatus::Created => "HTTP/1.1 201 Created"@,
    }
}

/// The status that a numeric code stands for, where it is a supported one.
pub open spec fn status_of(code: u16) -> Result<HttpStatus, StatusError> {
    if code == 200 {
        Ok(HttpStatus::Okay)
    } else if code == 201 {
        Ok(HttpStatus::Created)
    } else if code == 404 {
        Ok(HttpStatus::NotFound)
    } else {
        Err(StatusError::InvalidStatusCode)
    }
}

/// A code is supported exactly when it is the code of some status, and
/// then it stands for that status.
pub proof fn codes_round_trip(status: HttpStatus, code: u16)
    ensures
        status_of(code_of(status)) == Ok::<HttpStatus, StatusError>(status),
        status_of(code) matches Ok(s) ==> code_of(s) == code,
        status_of(code) is Err <==> code != 200 && code != 201 && code != 404,
{
}

impl TryFrom<u16> for HttpStatus {
    type Error = StatusError;

    fn try_from(code: u16) -> (out: Result<HttpStatus, StatusError>)
        ensures
            out == status_of(code),
    {
        if code == 200 {
            Ok(HttpStatus::Okay)
        } else if code == 201 {
            Ok(HttpStatus::Created)
        } else if code == 404 {
            Ok(HttpStatus::NotFound)
        } else {
            Err(StatusError::InvalidStatusCode)
        }
    }
}

impl TryFromSpecImpl<u16> for HttpStatus {
    open spec fn obeys_try_from_spec() -> bool {
        true
    }

    open spec fn try_from_spec(code: u16) -> Result<HttpStatus, StatusError> {
        status_of(code)
    }
}

/// The status of a response.
#[derive(Clone, Copy, Debug, PartialEq, Eq, Structural)]
pub struct Status(HttpStatus);

impl View for Status {
    type V = HttpStatus;

    closed spec fn view(&self) -> HttpStatus {
        self.0
    }
}

impl Status {
    /// The status for one of the supported outcomes.
    pub fn new(http_status: HttpStatus) -> (out: Status)
        ensures
            out@ == http_status,
    {
        Status(http_status)
    }

    /// The numeric code.
    pub fn status_code(&self) -> (code: u16)
        ensures
            code == code_of(self@),
    {
        match self.0 {
            HttpStatus::Okay => 200,
            HttpStatus::NotFound => 404,
            HttpStatus::Created => 201,
        }
    }

    /// The status line, without a line terminator.
    pub fn status_line(&self) -> (line: String)
        ensures
            line@ == line_of(self@),
    {
        match self.0 {
            HttpStatus::Okay => "HTTP/1.1 200 OK".to_owned(),
            HttpStatus::NotFound => "HTTP/1.1 404 Not Found".to_owned(),
            HttpStatus::Created => "HTTP/1.1 201 Created".to_owned(),
        }
    }
}

impl From<HttpStatus> for Status {
    fn from(status: HttpStatus) -> (out: Status)
        ensures
            out@ == status,
    {
        Status::new(status)
    }
}

impl FromSpecImpl<HttpStatus> for Status {
    open spec fn obeys_from_spec() -> bool {
        true
    }

    closed spec fn from_spec(status: HttpStatus) -> Status {
        Status(status)
    }
}

impl TryFrom<u16> for Status {
    type Error = StatusError;

    fn try_from(code: u16) -> (out: Result<Status, StatusError>)
        ensures
            match status_of(code) {
                Ok(status) => out matches Ok(s) && s@ == status,
                Err(e) => out == Err::<Status, StatusError>(e),
            },
    {
        match HttpStatus::try_from(code) {
            Ok(status) => Ok(Status::new(status)),
            Err(e) => Err(e),
        }
    }
}

impl TryFromSpecImpl<u16> for Status {
    open spec fn obeys_try_from_spec() -> bool {
        true
    }

    closed spec fn try_from_spec(code: u16) -> Result<Status, StatusError> {
        match status_of(code) {
            Ok(status) => Ok(Status(status)),
            Err(e) => Err(e),
        }
    }
}

} // verus!
