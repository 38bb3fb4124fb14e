use vstd::prelude::*;

verus! {

/// Status of a response: its numeric code and reason phrase.
#[derive(Debug, Clone, Copy, PartialEq, Eq, Structural)]
pub enum StatusCode {
    OK,
    BadRequest,
    Forbidden,
    NotFound,
}

impl StatusCode {
    /// The numeric code.
    pub open spec fn code_spec(self) -> u16 {
        match self {
            StatusCode::OK => 200,
            StatusCode::BadRequest => 400,
            StatusCode::Forbidden => 403,
            StatusCode::NotFound => 404,
        }
    }

    /// The numeric status code.
    #[verifier::when_used_as_spec(code_spec)]
    pub fn as_u16(self) -> (r: u16)
        ensures
            r == self.code_spec(),
    {
        match self {
            StatusCode::OK => 200,
            StatusCode::BadRequest => 400,
            StatusCode::Forbidden => 403,
            StatusCode::NotFound => 404,
        }
    }
}

impl StatusCode {
    /// The numeric code written in decimal.
    pub open spec fn code_text_spec(self) -> Seq<char> {
        match self {
            StatusCode::OK => "200"@,
            StatusCode::BadRequest => "400"@,
            StatusCode::Forbidden => "403"@,
            StatusCode::NotFound => "404"@,
        }
    }

    /// The reason phrase.
    pub open spec fn reason_spec(self) -> Seq<char> {
        match self {
            StatusCode::OK => "OK"@,
            StatusCode::BadRequest => "Bad Request"@,
            StatusCode::Forbidden => "Forbidden"@,
            StatusCode::NotFound => "Not Found"@,
        }
    }

    /// The numeric code written in decimal.
    pub fn code_text(self) -> (r: &'static str)
        ensures
            r@ == self.code_text_spec(),
    {
        match self {
            StatusCode::OK => "200",
            StatusCode::BadRequest => "400",
            StatusCode::Forbidden => "403",
            StatusCode::NotFound => "404",
        }
    }

    /// The reason phrase.
    pub fn as_str(self) -> (r: &'static str)
        ensures
            r@ == self.reason_spec(),
    {
        match self {
            StatusCode::OK => "OK",
            StatusCode::BadRequest => "Bad Request",
            StatusCode::Forbidden => "Forbidden",
            StatusCode::NotFound => "Not Found",
        }
    }
}

} // verus!
