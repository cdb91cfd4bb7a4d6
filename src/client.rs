use vstd::prelude::*;
use vstd::string::{StrSliceExecFns, StringExecFns};

use crate::label::{Label, LabelModel};
use crate::reconcile::{Action, ActionModel};

verus! {

/// Why a call to the label service failed: the transport, reading the
/// response, decoding its body (with the body), or a status other than the
/// one expected (with the response body).
#[derive(Debug)]
pub enum ApiError {
    Hyper(hyper::error::Error),
    Io(std::io::Error),
    Json(rustc_serialize::json::DecoderError, String),
    NotOk(String),
}

impl From<hyper::error::Error> for ApiError {
    fn from(error: hyper::error::Error) -> ApiError {
        ApiError::Hyper(error)
    }
}

impl vstd::std_specs::convert::FromSpecImpl<hyper::error::Error> for ApiError {
    open spec fn obeys_from_spec() -> bool {
        true
    }

    open spec fn from_spec(v: hyper::error::Error) -> ApiError {
        ApiError::Hyper(v)
    }
}

impl From<std::io::Error> for ApiError {
    fn from(error: std::io::Error) -> ApiError {
        ApiError::Io(error)
    }
}

impl vstd::std_specs::convert::FromSpecImpl<std::io::Error> for ApiError {
    open spec fn obeys_from_spec() -> bool {
        true
    }

    open spec fn from_spec(v: std::io::Error) -> ApiError {
        ApiError::Io(v)
    }
}

/// The HTTP method of a request.
#[derive(Debug, Clone, Copy, PartialEq, Eq, Structural)]
pub enum Method {
    Get,
    Post,
    Patch,
    Delete,
}

/// Status codes of the label service.
pub const OK: u16 = 200;
pub const CREATED: u16 = 201;
pub const NO_CONTENT: u16 = 204;

/// One request to the label service, with the status that means success.
#[derive(Debug)]
pub struct Request {
    pub method: Method,
    pub url: String,
    pub body: Option<String>,
    pub expected_status: u16,
}

/// The mathematical value of a `Request`.
pub struct RequestModel {
    pub method: Method,
    pub url: Seq<char>,
    pub body: Option<Seq<char>>,
    pub expected_status: u16,
}

impl View for Request {
    type V = RequestModel;

    open spec fn view(&self) -> RequestModel {
        RequestModel {
            method: self.method,
            url: self.url@,
            body: match self.body {
                Some(b) => Some(b@),
                None => None,
            },
            expected_status: self.expected_status,
        }
    }
}

/// The settings of the label service of one repository: every request is
/// addressed under `endpoint` and carries `token` and `user`.
pub struct Client {
    pub repo: String,
    pub token: String,
    pub user: String,
    pub endpoint: String,
}

/// The lower-case hex digit of `n` (below 16).
pub open spec fn hex_digit(n: u32) -> Seq<char> {
    if n == 0 { "0"@ } else if n == 1 { "1"@ } else if n == 2 { "2"@ } else if n == 3 { "3"@ }
    else if n == 4 { "4"@ } else if n == 5 { "5"@ } else if n == 6 { "6"@ } else if n == 7 { "7"@ }
    else if n == 8 { "8"@ } else if n == 9 { "9"@ } else if n == 10 { "a"@ } else if n == 11 { "b"@ }
    else if n == 12 { "c"@ } else if n == 13 { "d"@ } else if n == 14 { "e"@ } else { "f"@ }
}

/// How one character stands inside a JSON string: a quote and a backslash
/// get a backslash before them, a control character (below U+0020) becomes
/// `\u00XX`, any other character stands for itself.
pub open spec fn json_escaped_char(c: char) -> Seq<char> {
    if c == '"' {
        "\\\""@
    } else if c == '\\' {
        "\\\\"@
    } else if (c as u32) < 32 {
        "\\u00"@ + hex_digit((c as u32) / 16) + hex_digit((c as u32) % 16)
    } else {
        seq![c]
    }
}

/// The text of a JSON string literal, without its quotes, that holds `s`.
pub open spec fn json_escaped(s: Seq<char>) -> Seq<char>
    decreases s.len(),
{
    if s.len() == 0 {
        Seq::empty()
    } else {
        json_escaped(s.drop_last()) + json_escaped_char(s.last())
    }
}

/// The JSON object `{name, color}` of a label.
pub open spec fn json_text(l: LabelModel) -> Seq<char> {
    "{\"name\": \""@ + json_escaped(l.name) + "\",\"color\":\""@ + json_escaped(l.color) + "\"}"@
}

/// The hex digit of `n`.
fn hex_str(n: u32) -> (r: &'static str)
    requires
        n < 16,
    ensures
        r@ == hex_digit(n),
{
    if n == 0 { "0" } else if n == 1 { "1" } else if n == 2 { "2" } else if n == 3 { "3" }
    else if n == 4 { "4" } else if n == 5 { "5" } else if n == 6 { "6" } else if n == 7 { "7" }
    else if n == 8 { "8" } else if n == 9 { "9" } else if n == 10 { "a" } else if n == 11 { "b" }
    else if n == 12 { "c" } else if n == 13 { "d" } else if n == 14 { "e" } else { "f" }
}

/// Appends to `out` the characters of `s`, escaped for a JSON string.
pub fn push_json_escaped(out: &mut String, s: &str)
    ensures
        final(out)@ == old(out)@ + json_escaped(s@),
{
    let n = s.unicode_len();
    let ghost start = out@;
    let mut i: usize = 0;
    while i < n
        invariant
            n == s@.len(),
            i <= n,
            out@ == start + json_escaped(s@.take(i as int)),
        decreases n - i,
    {
        let c = s.get_char(i);
        let ghost before = out@;
        if c == '"' {
            out.append("\\\"");
        } else if c == '\\' {
            out.append("\\\\");
        } else if (c as u32) < 32 {
            out.append("\\u00");
            out.append(hex_str((c as u32) / 16));
            out.append(hex_str((c as u32) % 16));
        } else {
            out.append(s.substring_char(i, i + 1));
            assert(s@.subrange(i as int, i as int + 1) =~= seq![c]);
        }
        proof {
            assert(s@.take(i as int + 1).drop_last() =~= s@.take(i as int));
            assert(s@.take(i as int + 1).last() == c);
            assert(out@ =~= before + json_escaped_char(c));
            assert(out@ =~= start + json_escaped(s@.take(i as int + 1)));
        }
        i = i + 1;
    }
    assert(s@.take(n as int) =~= s@);
}

impl Client {
    /// The locator of the repository's label collection.
    pub open spec fn labels_url_text(&self) -> Seq<char> {
        self.endpoint@ + "/repos/"@ + self.user@ + "/"@ + self.repo@ + "/labels"@
    }

    /// The request that carries out `a`.
    pub open spec fn request_model(&self, a: ActionModel) -> RequestModel {
        match a {
            ActionModel::Create(l) => RequestModel {
                method: Method::Post,
                url: self.labels_url_text(),
                body: Some(json_text(l)),
                expected_status: CREATED,
            },
            ActionModel::Update(l) => RequestModel {
                method: Method::Patch,
                url: l.url,
                body: Some(json_text(l)),
                expected_status: OK,
            },
            ActionModel::Delete(l) => RequestModel {
                method: Method::Delete,
                url: l.url,
                body: None,
                expected_status: NO_CONTENT,
            },
        }
    }

    /// The settings for `repo` of `user` at `endpoint`, authenticated by `token`.
    pub fn new(repo: &str, token: &str, user: &str, endpoint: &str) -> (r: Client)
        ensures
            r.repo@ == repo@,
            r.token@ == token@,
            r.user@ == user@,
            r.endpoint@ == endpoint@,
    {
        Client {
            repo: String::from_str(repo),
            token: String::from_str(token),
            user: String::from_str(user),
            endpoint: String::from_str(endpoint),
        }
    }

    /// `{endpoint}/repos/{user}/{repo}/labels`.
    pub fn labels_url(&self) -> (r: String)
        ensures
            r@ == self.labels_url_text(),
    {
        let mut s = self.endpoint.clone();
        s.append("/repos/");
        s.append(self.user.as_str());
        s.append("/");
        s.append(self.repo.as_str());
        s.append("/labels");
        s
    }

    /// The body of a create or update request for `label`.
    pub fn to_json_string(&self, label: &Label) -> (r: String)
        ensures
            r@ == json_text(label@),
    {
        let mut s = String::from_str("{\"name\": \"");
        push_json_escaped(&mut s, label.name.as_str());
        s.append("\",\"color\":\"");
        push_json_escaped(&mut s, label.color.as_str());
        s.append("\"}");
        s
    }

    /// The headers of every request: the bearer token and the user as the
    /// user agent.
    pub fn headers(&self) -> (r: Vec<(String, String)>)
        ensures
            r@.len() == 2,
            r@[0].0@ == "Authorization"@,
            r@[0].1@ == "Bearer "@ + self.token@,
            r@[1].0@ == "User-Agent"@,
            r@[1].1@ == self.user@,
    {
        let mut bearer = String::from_str("Bearer ");
        bearer.append(self.token.as_str());
        let mut r: Vec<(String, String)> = Vec::new();
        r.push((String::from_str("Authorization"), bearer));
        r.push((String::from_str("User-Agent"), self.user.clone()));
        r
    }

    /// The request that lists the repository's labels.
    pub fn list(&self) -> (r: Request)
        ensures
            r@ == (RequestModel { method: Method::Get, url: self.labels_url_text(), body: None, expected_status: OK }),
    {
        Request { method: Method::Get, url: self.labels_url(), body: None, expected_status: OK }
    }

    /// The request that creates `label` in the repository.
    pub fn create(&self, label: &Label) -> (r: Request)
        ensures
            r@ == self.request_model(ActionModel::Create(label@)),
    {
        Request { method: Method::Post, url: self.labels_url(), body: Some(self.to_json_string(label)), expected_status: CREATED }
    }

    /// The request that gives the label at `label.url` the name and color
    /// of `label`.
    pub fn update(&self, label: &Label) -> (r: Request)
        ensures
            r@ == self.request_model(ActionModel::Update(label@)),
    {
        Request { method: Method::Patch, url: label.url.clone(), body: Some(self.to_json_string(label)), expected_status: OK }
    }

    /// The request that deletes the label at `label.url`.
    pub fn delete(&self, label: &Label) -> (r: Request)
        ensures
            r@ == self.request_model(ActionModel::Delete(label@)),
    {
        Request { method: Method::Delete, url: label.url.clone(), body: None, expected_status: NO_CONTENT }
    }

    /// The request that carries out `action`.
    pub fn request_for(&self, action: &Action) -> (r: Request)
        ensures
            r@ == self.request_model(action@),
    {
        match action {
            Action::Create(l) => self.create(l),
            Action::Update(l) => self.update(l),
            Action::Delete(l) => self.delete(l),
        }
    }

    /// The requests that carry out `actions`, one each and in order; none at
    /// all on a dry run.
    pub fn requests_for(&self, actions: &Vec<Action>, dry_run: bool) -> (r: Vec<Request>)
        ensures
            dry_run ==> r@.len() == 0,
            !dry_run ==> r@.len() == actions@.len(),
            !dry_run ==> forall|i: int| 0 <= i < r@.len() ==> (#[trigger] r@[i])@ == self.request_model(actions@[i]@),
    {
        let mut r: Vec<Request> = Vec::new();
        if dry_run {
            return r;
        }
        let mut i: usize = 0;
        while i < actions.len()
            invariant
                i <= actions@.len(),
                r@.len() == i,
                forall|j: int| 0 <= j < i ==> (#[trigger] r@[j])@ == self.request_model(actions@[j]@),
            decreases actions.len() - i,
        {
            r.push(self.request_for(&actions[i]));
            i = i + 1;
        }
        r
    }
}

impl Request {
    /// The response body where the response has the expected status, else
    /// the error that carries the body.
    pub fn check_response(&self, status: u16, body: String) -> (r: Result<String, ApiError>)
        ensures
            status == self.expected_status ==> (r matches Ok(b) && b@ == body@),
            status != self.expected_status ==> (r matches Err(ApiError::NotOk(b)) && b@ == body@),
    {
        if status == self.expected_status {
            Ok(body)
        } else {
            Err(ApiError::NotOk(body))
        }
    }
}

} // verus!
