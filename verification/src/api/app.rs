//! What the HTTP frontend answers to a request on one key.

use crate::storage::{ErrorMessage, KeyValueStorage};
use vstd::prelude::*;
use vstd::slice::slice_to_vec;
use vstd::utf8::encode_utf8;

verus! {

/// The answer to a request, before it is put on the wire.
#[derive(Debug, PartialEq, Eq)]
pub enum ApiResponse {
    /// 200, with the value as `application/octet-stream`.
    Data(Vec<u8>),
    /// 204, without a body.
    NoContent,
    /// 400, without a body.
    BadRequest,
    /// 404, without a body.
    NotFound,
    /// 500, with a text that names the error.
    ServerError(String),
}

/// The status code that goes with an answer.
pub open spec fn status_of(response: ApiResponse) -> u16 {
    match response {
        ApiResponse::Data(_) => 200,
        ApiResponse::NoContent => 204,
        ApiResponse::BadRequest => 400,
        ApiResponse::NotFound => 404,
        ApiResponse::ServerError(_) => 500,
    }
}

impl ApiResponse {
    /// The HTTP status code of this answer.
    pub fn status_code(&self) -> (code: u16)
        ensures
            code == status_of(*self),
    {
        match self {
            ApiResponse::Data(_) => 200,
            ApiResponse::NoContent => 204,
            ApiResponse::BadRequest => 400,
            ApiResponse::NotFound => 404,
            ApiResponse::ServerError(_) => 500,
        }
    }
}

/// The bytes of a key that came as text.
pub fn key_bytes(key: &String) -> (bytes: Vec<u8>)
    ensures
        bytes@ == encode_utf8(key@),
{
    slice_to_vec(key.as_str().as_bytes())
}

fn server_error<E: ErrorMessage>(e: &E) -> (response: ApiResponse)
    ensures
        response is ServerError,
{
    let mut text = "Error: ".to_owned();
    let message = e.message();
    text.append(message.as_str());
    ApiResponse::ServerError(text)
}

/// Whether `response` answers `GET` for what the store found: the value
/// on a hit, 404 on a miss, 500 on an error.
pub open spec fn answers_get<E>(found: Result<Option<Vec<u8>>, E>, response: ApiResponse) -> bool {
    match found {
        Ok(Some(value)) => response == ApiResponse::Data(value),
        Ok(None) => response is NotFound,
        Err(_) => response is ServerError,
    }
}

/// Whether `response` answers `POST` for what the store did: 204 when
/// the value was stored, 500 on an error.
pub open spec fn answers_set<E>(stored: Result<(), E>, response: ApiResponse) -> bool {
    match stored {
        Ok(_) => response is NoContent,
        Err(_) => response is ServerError,
    }
}

/// The bytes that a `POST` stores: those of the field `value`, which is
/// text, where the request has it, and else those of the field `file`.
pub open spec fn posted_value(value: Option<String>, file: Option<Vec<u8>>) -> Seq<u8> {
    match value {
        Some(text) => encode_utf8(text@),
        None => file->0@,
    }
}

/// Whether `response` answers `DELETE` for what the store did: 204 on a
/// hit, 404 on a miss, 500 on an error.
pub open spec fn answers_del<E>(deleted: Result<bool, E>, response: ApiResponse) -> bool {
    match deleted {
        Ok(true) => response is NoContent,
        Ok(false) => response is NotFound,
        Err(_) => response is ServerError,
    }
}

/// The answer to `GET`: the value on a hit, 404 on a miss, 500 on an error.
pub fn get_response<E: ErrorMessage>(found: Result<Option<Vec<u8>>, E>) -> (response: ApiResponse)
    ensures
        answers_get(found, response),
{
    match found {
        Ok(Some(value)) => ApiResponse::Data(value),
        Ok(None) => ApiResponse::NotFound,
        Err(e) => server_error(&e),
    }
}

/// The answer to `POST`: 204 when the value was stored, 500 on an error.
pub fn set_response<E: ErrorMessage>(stored: Result<(), E>) -> (response: ApiResponse)
    ensures
        answers_set(stored, response),
{
    match stored {
        Ok(_) => ApiResponse::NoContent,
        Err(e) => server_error(&e),
    }
}

/// The answer to `DELETE`: 204 on a hit, 404 on a miss, 500 on an error.
pub fn del_response<E: ErrorMessage>(deleted: Result<bool, E>) -> (response: ApiResponse)
    ensures
        answers_del(deleted, response),
{
    match deleted {
        Ok(true) => ApiResponse::NoContent,
        Ok(false) => ApiResponse::NotFound,
        Err(e) => server_error(&e),
    }
}

/// Answers `GET /{key}`: asks the store for the key's bytes and answers
/// with the value on a hit, 404 on a miss and 500 on an error.
pub fn get_key<S: KeyValueStorage>(storage: &mut S, key: String) -> (response: ApiResponse)
    ensures
        exists|found: Result<Option<Vec<u8>>, S::Error>| #[trigger]
            old(storage).may_get(encode_utf8(key@), final(storage), found) && answers_get(
                found,
                response,
            ),
        response is Data || response is NotFound || response is ServerError,
{
    let found = storage.get(key_bytes(&key));
    let ghost answered = found;
    let response = get_response(found);
    assert(old(storage).may_get(encode_utf8(key@), storage, answered) && answers_get(
        answered,
        response,
    ));
    response
}

/// Answers `POST /{key}`. The request carries the value in its field
/// `value`, as text, or in its field `file`, as bytes. With exactly one of
/// the fields the store is asked to bind the key's bytes to that field's
/// bytes, and the answer is 204 when it did and 500 on an error. With both
/// fields or with neither the request is refused and the store is not
/// called.
pub fn set_key<S: KeyValueStorage>(
    storage: &mut S,
    key: String,
    value: Option<String>,
    file: Option<Vec<u8>>,
) -> (response: ApiResponse)
    ensures
        (value is Some) == (file is Some) ==> response is BadRequest && *final(storage) == *old(
            storage,
        ),
        (value is Some) != (file is Some) ==> exists|stored: Result<(), S::Error>| #[trigger]
            old(storage).may_set(
                encode_utf8(key@),
                posted_value(value, file),
                final(storage),
                stored,
            ) && answers_set(stored, response),
        (value is Some) != (file is Some) ==> response is NoContent || response is ServerError,
{
    let ghost posted = posted_value(value, file);
    match (value, file) {
        (Some(value), None) => {
            let stored = storage.set(key_bytes(&key), key_bytes(&value));
            let ghost answered = stored;
            let response = set_response(stored);
            assert(old(storage).may_set(encode_utf8(key@), posted, storage, answered)
                && answers_set(answered, response));
            response
        },
        (None, Some(file)) => {
            let stored = storage.set(key_bytes(&key), file);
            let ghost answered = stored;
            let response = set_response(stored);
            assert(old(storage).may_set(encode_utf8(key@), posted, storage, answered)
                && answers_set(answered, response));
            response
        },
        _ => ApiResponse::BadRequest,
    }
}

/// Answers `DELETE /{key}`: asks the store to delete the key's bytes and
/// answers with 204 on a hit, 404 on a miss and 500 on an error.
pub fn del_key<S: KeyValueStorage>(storage: &mut S, key: String) -> (response: ApiResponse)
    ensures
        exists|deleted: Result<bool, S::Error>| #[trigger]
            old(storage).may_del(encode_utf8(key@), final(storage), deleted) && answers_del(
                deleted,
                response,
            ),
        response is NoContent || response is NotFound || response is ServerError,
{
    let deleted = storage.del(key_bytes(&key));
    let ghost answered = deleted;
    let response = del_response(deleted);
    assert(old(storage).may_del(encode_utf8(key@), storage, answered) && answers_del(
        answered,
        response,
    ));
    response
}

} // verus!
