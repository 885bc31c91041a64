//! What is answered to a request.

use vstd::prelude::*;

use crate::error::{failure_text, AppError, Failure};
use crate::text::cat2;

verus! {

/// A request that is turned down.
#[derive(Debug, PartialEq, Eq)]
pub struct Refusal {
    pub status: u16,
    pub message: String,
}

/// A file that is handed out.
#[derive(Debug, PartialEq, Eq)]
pub struct FileReply {
    pub content_type: String,
    pub content_length: u64,
    pub body: Vec<u8>,
}

/// What a `Refusal` holds.
#[verifier::ext_equal]
pub struct RefusalModel {
    pub status: u16,
    pub message: Seq<char>,
}

impl DeepView for Refusal {
    type V = RefusalModel;

    open spec fn deep_view(&self) -> RefusalModel {
        RefusalModel { status: self.status, message: self.message@ }
    }
}

/// What a `FileReply` holds.
#[verifier::ext_equal]
pub struct ReplyModel {
    pub content_type: Seq<char>,
    pub content_length: u64,
    pub body: Seq<u8>,
}

impl DeepView for FileReply {
    type V = ReplyModel;

    open spec fn deep_view(&self) -> ReplyModel {
        ReplyModel {
            content_type: self.content_type@,
            content_length: self.content_length,
            body: self.body@,
        }
    }
}

/// The result as a value, or as the status and the message of a refusal.
pub open spec fn verdict<T: DeepView>(
    r: std::result::Result<T, Refusal>,
) -> std::result::Result<T::V, RefusalModel> {
    match r {
        Ok(value) => Ok(value.deep_view()),
        Err(refusal) => Err(refusal.deep_view()),
    }
}

/// A refusal of a status with a message.
pub open spec fn refused(status: u16, message: Seq<char>) -> RefusalModel {
    RefusalModel { status, message }
}

/// A file of a content type; its length is stated.
pub open spec fn reply_of(content_type: Seq<char>, body: Seq<u8>) -> ReplyModel {
    ReplyModel { content_type, content_length: body.len() as u64, body }
}

/// Turns a request down.
pub(crate) fn refuse(status: u16, message: &str) -> (r: Refusal)
    ensures
        r.deep_view() == refused(status, message@),
{
    Refusal { status, message: message.to_string() }
}

/// Turns a request down with a message made of two parts.
pub(crate) fn refuse2(status: u16, a: &str, b: &str) -> (r: Refusal)
    ensures
        r.deep_view() == refused(status, a@ + b@),
{
    Refusal { status, message: cat2(a, b) }
}

/// Hands out a file.
pub(crate) fn file_reply(content_type: String, body: Vec<u8>) -> (r: FileReply)
    ensures
        r.deep_view() == reply_of(content_type@, body@),
{
    let content_length: u64 = body.len() as u64;
    FileReply { content_type, content_length, body }
}

/// Hands out what an upstream sent, under its content type or, where it named
/// none, the given one.
pub fn build_dists_response(
    content: Vec<u8>,
    upstream_ct: Option<String>,
    default_content_type: &str,
) -> (r: FileReply)
    ensures
        r.deep_view() == reply_of(
            match upstream_ct.deep_view() {
                Some(ct) => ct,
                None => default_content_type@,
            },
            content@,
        ),
{
    let content_type = match upstream_ct {
        Some(ct) => ct,
        None => default_content_type.to_string(),
    };
    file_reply(content_type, content)
}

/// How a failed upstream fetch is answered: what is missing upstream is missing
/// here, and everything else is a bad gateway.
pub open spec fn proxy_refusal(failure: Failure) -> RefusalModel {
    match failure {
        Failure::NotFound(message) => refused(404, message),
        _ => refused(502, "Upstream fetch failed: "@ + failure_text(failure)),
    }
}

/// How a failed upstream fetch is answered: the status and the message.
pub fn proxy_err_status_and_message(e: &AppError) -> (r: (u16, String))
    ensures
        refused(r.0, r.1@) == proxy_refusal(e.deep_view()),
{
    match e {
        AppError::NotFound(message) => (404, message.clone()),
        other => (502, cat2("Upstream fetch failed: ", other.message())),
    }
}

/// Answers a failed upstream fetch.
pub fn map_proxy_err(e: AppError) -> (r: Refusal)
    ensures
        r.deep_view() == proxy_refusal(e.deep_view()),
{
    let (status, message) = proxy_err_status_and_message(&e);
    Refusal { status, message }
}

/// Answers a path that may not be fetched.
pub fn map_debian_fetch_path_error(error: AppError) -> (r: Refusal)
    ensures
        r.deep_view() == refused(400, failure_text(error.deep_view())),
{
    refuse(400, error.message())
}

} // verus!
