//! The management client: where it sends its requests, how it reads the
//! answers, and the text of its errors.

use vstd::prelude::*;

use crate::text::{decimal, decimal_string};

pub use crate::address::normalize_management_address;

verus! {

#[verifier::external_type_specification]
#[verifier::external_body]
pub struct ExReqwestClient(reqwest::Client);

/// A new `reqwest::Client` with its default settings. Nothing is stated of
/// it. `reqwest::Client::new` panics where no TLS backend can be initialised
/// or the system's resolver configuration cannot be loaded.
#[verifier::external_body]
fn new_http_client() -> reqwest::Client {
    reqwest::Client::new()
}

/// `reqwest::Client::clone`: a handle to the same connection pool. Nothing is
/// stated of it.
#[verifier::external_body]
fn clone_http_client(client: &reqwest::Client) -> reqwest::Client {
    client.clone()
}

/// A client of the management API at a base URL.
pub struct ManagementClient {
    base_url: String,
    http: reqwest::Client,
}

impl ManagementClient {
    /// The base URL that requests are sent under.
    pub closed spec fn base(&self) -> Seq<char> {
        self.base_url@
    }

    /// The HTTP client that this client sends its requests with.
    pub closed spec fn held_client(&self) -> reqwest::Client {
        self.http
    }

    /// A client for the management API at `base_url`.
    pub fn new(base_url: String) -> (r: Self)
        ensures
            r.base() == base_url@,
    {
        ManagementClient { base_url, http: new_http_client() }
    }

    /// The base URL that requests are sent under.
    pub fn base_url(&self) -> (r: &String)
        ensures
            r@ == self.base(),
    {
        &self.base_url
    }

    /// The HTTP client that sends the requests: the one this client holds.
    pub fn http(&self) -> (r: &reqwest::Client)
        ensures
            *r == self.held_client(),
    {
        &self.http
    }

    /// The URL of `POST /allocate`.
    pub fn allocate_url(&self) -> (r: String)
        ensures
            r@ == self.base() + "/allocate"@,
    {
        let mut url = self.base_url.clone();
        url.append("/allocate");
        url
    }

    /// The URL of `PUT /upload/{uuid}`.
    pub fn upload_url(&self, uuid: &str) -> (r: String)
        ensures
            r@ == self.base() + "/upload/"@ + uuid@,
    {
        let mut url = self.base_url.clone();
        url.append("/upload/");
        url.append(uuid);
        url
    }
}

/// The method of a request.
#[derive(Clone, Copy, PartialEq, Eq, Structural, Debug)]
pub enum HttpMethod {
    Post,
    Put,
}

/// A request of the management API, as the client sends it.
pub struct ApiRequest {
    pub endpoint: Endpoint,
    pub method: HttpMethod,
    pub url: String,
    pub content_type: String,
    pub body: Vec<u8>,
}

impl ManagementClient {
    /// The request that allocates a subpath: `POST /allocate` with the JSON
    /// body `{}`.
    pub fn allocate_request(&self) -> (r: ApiRequest)
        ensures
            r.endpoint == Endpoint::Allocate,
            r.method == HttpMethod::Post,
            r.url@ == self.base() + "/allocate"@,
            r.content_type@ == "application/json"@,
            r.body@ == seq![123u8, 125u8],
    {
        let mut body: Vec<u8> = Vec::new();
        body.push(123u8);
        body.push(125u8);
        assert(body@ =~= seq![123u8, 125u8]);
        ApiRequest {
            endpoint: Endpoint::Allocate,
            method: HttpMethod::Post,
            url: self.allocate_url(),
            content_type: "application/json".to_owned(),
            body,
        }
    }

    /// The request that uploads `archive` to `uuid`: `PUT /upload/{uuid}`
    /// with the `.tar.gz` bytes as its body.
    pub fn upload_request(&self, uuid: &str, archive: Vec<u8>) -> (r: ApiRequest)
        ensures
            r.endpoint == Endpoint::Upload,
            r.method == HttpMethod::Put,
            r.url@ == self.base() + "/upload/"@ + uuid@,
            r.content_type@ == "application/gzip"@,
            r.body@ == archive@,
    {
        ApiRequest {
            endpoint: Endpoint::Upload,
            method: HttpMethod::Put,
            url: self.upload_url(uuid),
            content_type: "application/gzip".to_owned(),
            body: archive,
        }
    }
}

impl Clone for ManagementClient {
    fn clone(&self) -> (r: Self)
        ensures
            r.base() == self.base(),
    {
        ManagementClient { base_url: self.base_url.clone(), http: clone_http_client(&self.http) }
    }
}

/// The body of a successful upload: the public URL of the deployment.
pub struct UploadResponse {
    pub url: String,
}

/// The request that a transport failure happened on.
#[derive(Clone, Copy, PartialEq, Eq, Structural, Debug)]
pub enum Endpoint {
    /// `POST /allocate`.
    Allocate,
    /// `PUT /upload/{uuid}`.
    Upload,
}

/// Why a call of the management API failed.
pub enum ClientError {
    /// The request could not be sent or answered; `detail` is the transport
    /// error.
    Request { endpoint: Endpoint, detail: String },
    /// The body of the answer could not be read.
    ReadBody { detail: String },
    /// A successful answer did not hold the expected JSON.
    ParseSuccess { status: u16, body: String, detail: String },
    /// The API answered with an error status; `message` is the `error` field
    /// of its JSON body, or the whole body.
    Http { status: u16, message: String },
}

/// The reason phrase that `reqwest::StatusCode` gives a status code, where it
/// is a status code with one.
pub uninterp spec fn canonical_reason(code: u16) -> Option<Seq<char>>;

/// The canonical reason phrase of `code`, from
/// `reqwest::StatusCode::canonical_reason`, or `None` where `code` is not
/// a status code (outside 100 to 999) or has none. The contract names the
/// phrase; it does not list the table.
#[verifier::external_body]
fn status_reason(code: u16) -> (r: Option<String>)
    ensures
        match r {
            Some(s) => canonical_reason(code) == Some(s@),
            None => canonical_reason(code) is None,
        },
{
    match reqwest::StatusCode::from_u16(code) {
        Ok(status) => match status.canonical_reason() {
            Some(phrase) => Some(phrase.to_owned()),
            None => None,
        },
        Err(_) => None,
    }
}

/// A status as `reqwest::StatusCode` displays it: the number, a space, and
/// the reason phrase or `<unknown status code>`.
pub open spec fn status_text(code: u16) -> Seq<char> {
    decimal(code as nat) + " "@ + match canonical_reason(code) {
        Some(reason) => reason,
        None => "<unknown status code>"@,
    }
}

/// The text of `status`.
pub fn status_display(code: u16) -> (r: String)
    ensures
        r@ == status_text(code),
{
    let mut s = decimal_string(code as u64);
    s.append(" ");
    match status_reason(code) {
        Some(reason) => s.append(reason.as_str()),
        None => s.append("<unknown status code>"),
    }
    s
}

/// Whether the status is a success (200 to 299).
pub open spec fn is_success(status: u16) -> bool {
    200 <= status <= 299
}

/// What the client makes of an answer: the body of a success, to be read as
/// JSON; or, for an error status, the `error` field of the error body where
/// it has one (`error_field`), else the whole body.
pub fn interpret_response(status: u16, body: String, error_field: Option<String>) -> (r: Result<
    String,
    ClientError,
>)
    ensures
        is_success(status) ==> (r matches Ok(b) && b@ == body@),
        200 <= status <= 299 ==> (r matches Ok(b) && b@ == body@),
        !(200 <= status <= 299) ==> (r matches Err(ClientError::Http { status: s, message: _ }) && s
            == status),
        !is_success(status) ==> (r matches Err(ClientError::Http { status: s, message: m }) && s
            == status && m@ == match error_field {
            Some(f) => f@,
            None => body@,
        }),
{
    if 200 <= status && status <= 299 {
        return Ok(body);
    }
    let message = match error_field {
        Some(f) => f,
        None => body,
    };
    Err(ClientError::Http { status, message })
}

/// The text of the request that failed.
pub open spec fn endpoint_context(e: Endpoint) -> Seq<char> {
    match e {
        Endpoint::Allocate => "failed to call POST /allocate"@,
        Endpoint::Upload => "failed to call PUT /upload/{uuid}"@,
    }
}

/// The text of a client error as tools report it: for a failed request, an
/// unreadable body or a success body that does not parse, what failed (the
/// cause in `detail` is not shown); for an error status, the status and the
/// server's message.
pub open spec fn error_text(e: ClientError) -> Seq<char> {
    match e {
        ClientError::Request { endpoint, detail: _ } => endpoint_context(endpoint),
        ClientError::ReadBody { detail: _ } => "failed to read management API response body"@,
        ClientError::ParseSuccess { status, body, detail: _ } => "failed to parse successful response (HTTP "@
            + status_text(status) + "): "@ + body@,
        ClientError::Http { status, message } => "management API returned HTTP "@ + decimal(
            status as nat,
        ) + ": HTTP "@ + decimal(status as nat) + ": "@ + message@,
    }
}

/// The text of a client error, as tools report it: for an error status it
/// holds the HTTP status and the server's error message.
pub fn format_http_error(error: &ClientError) -> (r: String)
    ensures
        r@ == error_text(*error),
{
    match error {
        ClientError::Request { endpoint, detail: _ } => match endpoint {
            Endpoint::Allocate => "failed to call POST /allocate".to_owned(),
            Endpoint::Upload => "failed to call PUT /upload/{uuid}".to_owned(),
        },
        ClientError::ReadBody { detail: _ } => "failed to read management API response body".to_owned(),
        ClientError::ParseSuccess { status, body, detail: _ } => {
            let mut s = "failed to parse successful response (HTTP ".to_owned();
            let shown = status_display(*status);
            s.append(shown.as_str());
            s.append("): ");
            s.append(body.as_str());
            s
        },
        ClientError::Http { status, message } => {
            let code = decimal_string(*status as u64);
            let mut s = "management API returned HTTP ".to_owned();
            s.append(code.as_str());
            s.append(": HTTP ");
            s.append(code.as_str());
            s.append(": ");
            s.append(message.as_str());
            s
        },
    }
}

/// The error a tool reports for an error status holds the status number and
/// the server's message, the message at its end.
pub proof fn lemma_http_error_shows_status_and_message(status: u16, message: Seq<char>, e: ClientError)
    requires
        e matches ClientError::Http { status: s, message: m } && s == status && m@ == message,
    ensures
        ({
            let t = error_text(e);
            let prefix = "management API returned HTTP "@;
            &&& t.subrange(prefix.len() as int, (prefix.len() + decimal(status as nat).len()) as int)
                == decimal(status as nat)
            &&& t.subrange(t.len() - message.len(), t.len() as int) == message
        }),
{
    let t = error_text(e);
    let prefix = "management API returned HTTP "@;
    let d = decimal(status as nat);
    assert(t == prefix + d + ": HTTP "@ + d + ": "@ + message);
    assert(t.subrange(prefix.len() as int, (prefix.len() + d.len()) as int) =~= d);
    assert(t.subrange(t.len() - message.len(), t.len() as int) =~= message);
}

/// The successful statuses are exactly 200 to 299: every one of them,
/// 200 included, gives the body back, and every other status is an error
/// that carries it.
pub proof fn lemma_success_is_2xx(status: u16)
    ensures
        is_success(status) <==> (200 <= status && status <= 299),
        is_success(200),
        is_success(201),
        is_success(299),
        !is_success(199),
        !is_success(300),
{
}

} // verus!
