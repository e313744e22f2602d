use vstd::prelude::*;

verus! {

/// HTTP statuses the service answers with.
#[derive(PartialEq, Eq, Structural, Clone, Copy, Debug)]
pub enum Status {
    Success,
    Created,
    NoContent,
    BadRequest,
    Unauthorized,
    NotFound,
    Conflict,
    InternalServerError,
}

impl Status {
    pub open spec fn spec_code(self) -> u16 {
        match self {
            Status::Success => 200,
            Status::Created => 201,
            Status::NoContent => 204,
            Status::BadRequest => 400,
            Status::Unauthorized => 401,
            Status::NotFound => 404,
            Status::Conflict => 409,
            Status::InternalServerError => 500,
        }
    }

    /// The numeric HTTP status code.
    pub fn code(&self) -> (r: u16)
        ensures
            r == self.spec_code(),
    {
        match self {
            Status::Success => 200,
            Status::Created => 201,
            Status::NoContent => 204,
            Status::BadRequest => 400,
            Status::Unauthorized => 401,
            Status::NotFound => 404,
            Status::Conflict => 409,
            Status::InternalServerError => 500,
        }
    }
}

/// Outcome of an account endpoint: a status with a short message.
pub enum NetworkResponse {
    Success(String),
    Created(String),
    BadRequest(String),
    Unauthorized(String),
    NotFound(String),
    Conflict(String),
    InternalServerError(String),
}

impl NetworkResponse {
    pub open spec fn spec_status(&self) -> Status {
        match self {
            NetworkResponse::Success(_) => Status::Success,
            NetworkResponse::Created(_) => Status::Created,
            NetworkResponse::BadRequest(_) => Status::BadRequest,
            NetworkResponse::Unauthorized(_) => Status::Unauthorized,
            NetworkResponse::NotFound(_) => Status::NotFound,
            NetworkResponse::Conflict(_) => Status::Conflict,
            NetworkResponse::InternalServerError(_) => Status::InternalServerError,
        }
    }

    /// The status this response is sent with.
    pub fn status(&self) -> (r: Status)
        ensures
            r == self.spec_status(),
    {
        match self {
            NetworkResponse::Success(_) => Status::Success,
            NetworkResponse::Created(_) => Status::Created,
            NetworkResponse::BadRequest(_) => Status::BadRequest,
            NetworkResponse::Unauthorized(_) => Status::Unauthorized,
            NetworkResponse::NotFound(_) => Status::NotFound,
            NetworkResponse::Conflict(_) => Status::Conflict,
            NetworkResponse::InternalServerError(_) => Status::InternalServerError,
        }
    }
}

/// Outcome of a recipe endpoint: a payload on success, else a message.
pub enum RecipeResponse<T> {
    Success(T),
    Created(T),
    BadRequest(String),
    Unauthorized(String),
    NotFound(String),
    InternalServerError(String),
}

impl<T> RecipeResponse<T> {
    pub open spec fn spec_status(&self) -> Status {
        match self {
            RecipeResponse::Success(_) => Status::Success,
            RecipeResponse::Created(_) => Status::Created,
            RecipeResponse::BadRequest(_) => Status::BadRequest,
            RecipeResponse::Unauthorized(_) => Status::Unauthorized,
            RecipeResponse::NotFound(_) => Status::NotFound,
            RecipeResponse::InternalServerError(_) => Status::InternalServerError,
        }
    }

    /// The status this response is sent with.
    pub fn status(&self) -> (r: Status)
        ensures
            r == self.spec_status(),
    {
        match self {
            RecipeResponse::Success(_) => Status::Success,
            RecipeResponse::Created(_) => Status::Created,
            RecipeResponse::BadRequest(_) => Status::BadRequest,
            RecipeResponse::Unauthorized(_) => Status::Unauthorized,
            RecipeResponse::NotFound(_) => Status::NotFound,
            RecipeResponse::InternalServerError(_) => Status::InternalServerError,
        }
    }
}

/// Body of an account response.
pub enum ResponseBody {
    Message(String),
    AuthToken(String),
}

/// An account response body wrapper, as sent to clients.
pub struct Response {
    pub body: ResponseBody,
}

/// An owned copy of a string literal.
pub fn text(s: &str) -> (r: String)
    ensures
        r@ == s@,
{
    s.to_owned()
}

} // verus!
