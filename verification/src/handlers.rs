//! The relay server's HTTP endpoints, as decisions on plain values: which
//! reply a request gets, and which print job it hands on.
use vstd::prelude::*;
use vstd::string::*;
use crate::auth::{auth_outcome, is_authorized, AuthOutcome, AuthorizationField};
use crate::job::{format_print_job, print_job_text, timestamp_shape};
use crate::page::{form_page_spec, render_form, MessageKind};
use crate::relay::RelayError;
use crate::text::char_count;

verus! {

/// The longest text, in characters, that the form accepts.
pub const MAX_FORM_CHARS: usize = 244;

/// The longest text, in characters, that `POST /print` accepts.
pub const MAX_PRINT_JOB_CHARS: usize = 2500;

/// The body of the form submitted to `POST /form`.
pub struct FormRequest {
    pub text: String,
}

/// The JSON body of `POST /print`.
pub struct PrintRequest {
    pub text: String,
}

/// The body of a reply.
pub enum ReplyBody {
    Empty,
    Text(String),
    Html(String),
}

/// An HTTP reply: status, the `WWW-Authenticate` header if any, and body.
pub struct Reply {
    pub status: u16,
    pub www_authenticate: Option<String>,
    pub body: ReplyBody,
}

/// The reply that asks for Basic authentication.
pub open spec fn is_unauthorized_reply(r: Reply) -> bool {
    &&& r.status == 401
    &&& r.www_authenticate matches Some(h) && h@ == "Basic realm=\"thermo\", charset=\"UTF-8\""@
    &&& r.body matches ReplyBody::Text(b) && b@ == "unauthorized"@
}

/// A reply with the given status and HTML page, without authentication
/// header.
pub open spec fn is_html_reply(r: Reply, status: u16, page: Seq<char>) -> bool {
    &&& r.status == status
    &&& r.www_authenticate is None
    &&& r.body matches ReplyBody::Html(b) && b@ == page
}

/// A reply with the given status and plain text, without authentication
/// header.
pub open spec fn is_text_reply(r: Reply, status: u16, text: Seq<char>) -> bool {
    &&& r.status == status
    &&& r.www_authenticate is None
    &&& r.body matches ReplyBody::Text(b) && b@ == text
}

/// What a request that submits a print job leads to.
pub enum Submission {
    /// Answer with this reply; nothing is printed.
    Respond(Reply),
    /// Hand this print job on, then answer according to the outcome.
    Enqueue(String),
}

/// `401 Unauthorized`, asking for Basic authentication in realm `thermo`.
pub fn unauthorized_response() -> (reply: Reply)
    ensures
        is_unauthorized_reply(reply),
{
    Reply {
        status: 401,
        www_authenticate: Some("Basic realm=\"thermo\", charset=\"UTF-8\"".to_owned()),
        body: ReplyBody::Text("unauthorized".to_owned()),
    }
}

fn html_reply(status: u16, page: String) -> (reply: Reply)
    ensures
        is_html_reply(reply, status, page@),
{
    Reply { status, www_authenticate: None, body: ReplyBody::Html(page) }
}

fn text_reply(status: u16, text: &str) -> (reply: Reply)
    ensures
        is_text_reply(reply, status, text@),
{
    Reply { status, www_authenticate: None, body: ReplyBody::Text(text.to_owned()) }
}

/// `GET /form`: the empty form page for an authorized request.
pub fn form_page(authorization: &AuthorizationField, expected_user: &str, expected_password: &str) -> (reply: Reply)
    ensures
        auth_outcome(*authorization, expected_user@, expected_password@) != AuthOutcome::Authorized
            ==> is_unauthorized_reply(reply),
        auth_outcome(*authorization, expected_user@, expected_password@) == AuthOutcome::Authorized
            ==> is_html_reply(reply, 200, form_page_spec(None, None, false)),
{
    if !is_authorized(authorization, expected_user, expected_password) {
        return unauthorized_response();
    }
    html_reply(200, render_form(None, None, false))
}

/// `POST /form`: an authorized text of at most `MAX_FORM_CHARS` characters
/// becomes a print job stamped with the local time; a longer one is refused
/// with `413` and the form showing the error.
pub fn submit_form(
    authorization: &AuthorizationField,
    expected_user: &str,
    expected_password: &str,
    payload: &FormRequest,
) -> (submission: Submission)
    ensures
        auth_outcome(*authorization, expected_user@, expected_password@) != AuthOutcome::Authorized
            ==> (submission matches Submission::Respond(r) && is_unauthorized_reply(r)),
        auth_outcome(*authorization, expected_user@, expected_password@) == AuthOutcome::Authorized
            && payload.text@.len() > MAX_FORM_CHARS ==> (submission matches Submission::Respond(r)
            && is_html_reply(
            r,
            413,
            form_page_spec(
                Some("print job exceeds maximum length of 244 characters"@),
                Some(MessageKind::Error),
                false,
            ),
        )),
        auth_outcome(*authorization, expected_user@, expected_password@) == AuthOutcome::Authorized
            && payload.text@.len() <= MAX_FORM_CHARS ==> (submission matches Submission::Enqueue(job)
            && exists|timestamp: Seq<char>|
            timestamp_shape(timestamp) && !timestamp.contains('\n') && job@ == print_job_text(
                timestamp,
                payload.text@,
            )),
{
    if !is_authorized(authorization, expected_user, expected_password) {
        return Submission::Respond(unauthorized_response());
    }
    if char_count(payload.text.as_str()) > MAX_FORM_CHARS {
        let page = render_form(
            Some("print job exceeds maximum length of 244 characters"),
            Some(MessageKind::Error),
            false,
        );
        return Submission::Respond(html_reply(413, page));
    }
    Submission::Enqueue(format_print_job(payload.text.as_str()))
}

/// The reply to a form submission once its job was handed on: the form,
/// disabled, confirming the submission; or `503` and the form with the
/// error when the job could not be handed on.
pub fn form_submitted_reply(result: &Result<usize, RelayError>) -> (reply: Reply)
    ensures
        result is Ok ==> is_html_reply(
            reply,
            200,
            form_page_spec(Some("print job submitted"@), Some(MessageKind::Success), true),
        ),
        result is Err ==> is_html_reply(
            reply,
            503,
            form_page_spec(Some("failed to queue print job"@), Some(MessageKind::Error), false),
        ),
{
    match result {
        Ok(_) => html_reply(
            200,
            render_form(Some("print job submitted"), Some(MessageKind::Success), true),
        ),
        Err(_) => html_reply(
            503,
            render_form(Some("failed to queue print job"), Some(MessageKind::Error), false),
        ),
    }
}

/// `POST /print`: a text of more than `MAX_PRINT_JOB_CHARS` characters is
/// refused with `413` (before the credentials are looked at); otherwise an
/// authorized text is handed on unchanged as the print job.
pub fn print_request(
    authorization: &AuthorizationField,
    expected_user: &str,
    expected_password: &str,
    payload: PrintRequest,
) -> (submission: Submission)
    ensures
        payload.text@.len() > MAX_PRINT_JOB_CHARS ==> (submission matches Submission::Respond(r)
            && is_text_reply(r, 413, "print job exceeds maximum length of 2500 characters"@)),
        payload.text@.len() <= MAX_PRINT_JOB_CHARS && auth_outcome(
            *authorization,
            expected_user@,
            expected_password@,
        ) != AuthOutcome::Authorized ==> (submission matches Submission::Respond(r)
            && is_unauthorized_reply(r)),
        payload.text@.len() <= MAX_PRINT_JOB_CHARS && auth_outcome(
            *authorization,
            expected_user@,
            expected_password@,
        ) == AuthOutcome::Authorized ==> (submission matches Submission::Enqueue(job) && job@
            == payload.text@),
{
    if char_count(payload.text.as_str()) > MAX_PRINT_JOB_CHARS {
        return Submission::Respond(
            text_reply(413, "print job exceeds maximum length of 2500 characters"),
        );
    }
    if !is_authorized(authorization, expected_user, expected_password) {
        return Submission::Respond(unauthorized_response());
    }
    Submission::Enqueue(payload.text)
}

/// The reply to `POST /print` once its job was handed on: `202 Accepted`,
/// or `503` when the job could not be handed on.
pub fn print_queued_reply(result: &Result<usize, RelayError>) -> (reply: Reply)
    ensures
        result is Ok ==> reply.status == 202 && reply.www_authenticate is None
            && reply.body is Empty,
        result is Err ==> is_text_reply(reply, 503, "failed to queue print job"@),
{
    match result {
        Ok(_) => Reply { status: 202, www_authenticate: None, body: ReplyBody::Empty },
        Err(_) => text_reply(503, "failed to queue print job"),
    }
}

} // verus!
