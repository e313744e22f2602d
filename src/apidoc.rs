use vstd::prelude::*;
use crate::responses::Status;

verus! {

/// The OpenAPI document type of utoipa, carried as an opaque value.
#[verifier::external_type_specification]
#[verifier::external_body]
pub struct ExOpenApi(utoipa::openapi::OpenApi);

/// Relies on `utoipa::openapi::OpenApi::to_pretty_json`, which renders the
/// document with `serde_json`; a rendering error becomes `None`.
#[verifier::external_body]
fn to_pretty_json(doc: &utoipa::openapi::OpenApi) -> (r: Option<String>) {
    match doc.to_pretty_json() {
        Ok(s) => Some(s),
        Err(_) => None,
    }
}

/// The answer to a request for the API description: the rendered JSON,
/// or 500 when rendering failed.
pub fn api_doc_response(rendered: Option<String>) -> (r: Result<String, Status>)
    ensures
        match rendered {
            Some(s) => r == Ok::<String, Status>(s),
            None => r == Err::<String, Status>(Status::InternalServerError),
        },
{
    match rendered {
        Some(s) => Ok(s),
        None => Err(Status::InternalServerError),
    }
}

/// Serves the API description as pretty-printed JSON; a failure to render
/// it is 500.
pub fn serve_api_doc(doc: &utoipa::openapi::OpenApi) -> (r: Result<String, Status>)
    ensures
        r matches Err(e) ==> e == Status::InternalServerError,
{
    api_doc_response(to_pretty_json(doc))
}

} // verus!
