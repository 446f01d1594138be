//! Route dispatch: maps a (method, path) pair to one of three handlers and
//! returns the status code and JSON body that handler produces.

use vstd::prelude::*;
use vstd::string::StrSliceExecFns;
use vstd::string::StringExecFns;

use crate::envelope::ApiResponse;
use crate::health::HealthResponse;
use crate::json::spec_quote;
use crate::json::spec_quoted_list;
use crate::json::write_json_string;
use crate::json::write_quoted_list;
use crate::json::ToJson;
use crate::VERSION;

verus! {

/// The payload of the root endpoint: service name, version, and the list of
/// supported paths.
#[derive(Debug)]
pub struct RootInfo {
    pub name: String,
    pub version: String,
    pub endpoints: Vec<String>,
}

impl ToJson for RootInfo {
    /// `{"name":<name>,"version":<version>,"endpoints":[<paths>]}`.
    open spec fn json_spec(&self) -> Seq<char> {
        "{\"name\":"@ + spec_quote(self.name@) + ",\"version\":"@ + spec_quote(self.version@)
            + ",\"endpoints\":["@ + spec_quoted_list(self.endpoints@.map_values(|e: String| e@))
            + "]}"@
    }

    fn write_json(&self, out: &mut String)
        ensures
            final(out)@ == old(out)@ + self.json_spec(),
    {
        out.append("{\"name\":");
        write_json_string(out, self.name.as_str());
        out.append(",\"version\":");
        write_json_string(out, self.version.as_str());
        out.append(",\"endpoints\":[");
        write_quoted_list(out, &self.endpoints);
        out.append("]}");
        proof {
            assert(final(out)@ =~= old(out)@ + self.json_spec());
        }
    }
}

/// One HTTP response as the library computes it: a status code and the JSON
/// body text. Attaching the fixed headers and sending is left to the caller.
#[derive(Debug)]
pub struct ApiReply {
    pub status: u16,
    pub body: String,
}

/// Whether the pair routes to the health handler.
pub open spec fn spec_is_health_route(method: Seq<char>, path: Seq<char>) -> bool {
    method == "GET"@ && (path == "/health"@ || path == "/api/health"@)
}

/// Whether the pair routes to the root handler.
pub open spec fn spec_is_root_route(method: Seq<char>, path: Seq<char>) -> bool {
    method == "GET"@ && (path == "/"@ || path == "/api"@)
}

/// The message the not-found envelope carries.
pub open spec fn spec_not_found_message(path: Seq<char>) -> Seq<char> {
    "Not found: "@ + path
}

/// The body of the health endpoint's data field.
pub open spec fn spec_health_data_json() -> Seq<char> {
    "{\"status\":"@ + spec_quote("healthy"@) + ",\"version\":"@ + spec_quote(VERSION@) + "}"@
}

/// The body of the root endpoint's data field.
pub open spec fn spec_root_data_json() -> Seq<char> {
    "{\"name\":"@ + spec_quote("btl.run API"@) + ",\"version\":"@ + spec_quote(VERSION@)
        + ",\"endpoints\":["@ + spec_quoted_list(seq!["/health"@, "/api/health"@]) + "]}"@
}

/// String equality on the character sequences.
pub fn str_eq(a: &str, b: &str) -> (r: bool)
    ensures
        r == (a@ == b@),
{
    let a_len = a.unicode_len();
    let b_len = b.unicode_len();
    if a_len != b_len {
        return false;
    }
    let mut i: usize = 0;
    while i < a_len
        invariant
            a_len == a@.len(),
            a_len == b@.len(),
            i <= a_len,
            forall|j: int| 0 <= j < i ==> a@[j] == b@[j],
        decreases a_len - i,
    {
        if a.get_char(i) != b.get_char(i) {
            return false;
        }
        i = i + 1;
    }
    proof {
        assert(a@ =~= b@);
    }
    true
}

/// Health check endpoint.
pub fn health_handler() -> (r: ApiReply)
    ensures
        r.status == 200,
        r.body@ == crate::envelope::spec_success_body(spec_health_data_json()),
{
    let response = ApiResponse::success(HealthResponse::default());
    let body = response.to_json();
    proof {
        assert(body@ =~= crate::envelope::spec_success_body(spec_health_data_json()));
    }
    ApiReply { status: 200, body }
}

/// Root endpoint.
pub fn root_handler() -> (r: ApiReply)
    ensures
        r.status == 200,
        r.body@ == crate::envelope::spec_success_body(spec_root_data_json()),
{
    let mut endpoints: Vec<String> = Vec::new();
    endpoints.push("/health".to_owned());
    endpoints.push("/api/health".to_owned());
    let info = RootInfo {
        name: "btl.run API".to_owned(),
        version: VERSION.to_owned(),
        endpoints,
    };
    proof {
        assert(info.endpoints@.map_values(|e: String| e@) =~= seq!["/health"@, "/api/health"@]);
        assert(info.json_spec() =~= spec_root_data_json());
    }
    let response = ApiResponse::success(info);
    let body = response.to_json();
    proof {
        assert(body@ =~= crate::envelope::spec_success_body(spec_root_data_json()));
    }
    ApiReply { status: 200, body }
}

/// Not-found handler: a 404 reply whose envelope carries the requested path.
pub fn not_found_handler(path: &str) -> (r: ApiReply)
    ensures
        r.status == 404,
        r.body@ == crate::envelope::spec_error_body(spec_not_found_message(path@)),
{
    let mut message = String::from_str("Not found: ");
    message.append(path);
    let response: ApiResponse<()> = ApiResponse::error(message.as_str());
    let body = response.to_json();
    proof {
        assert(body@ =~= crate::envelope::spec_error_body(spec_not_found_message(path@)));
    }
    ApiReply { status: 404, body }
}

/// Dispatch one request: `GET /health` and `GET /api/health` go to the
/// health handler, `GET /` and `GET /api` to the root handler, and every
/// other pair to the not-found handler with the original path.
pub fn handle(method: &str, path: &str) -> (r: ApiReply)
    ensures
        spec_is_health_route(method@, path@) ==> r.status == 200 && r.body@
            == crate::envelope::spec_success_body(spec_health_data_json()),
        spec_is_root_route(method@, path@) ==> r.status == 200 && r.body@
            == crate::envelope::spec_success_body(spec_root_data_json()),
        !spec_is_health_route(method@, path@) && !spec_is_root_route(method@, path@) ==> r.status
            == 404 && r.body@ == crate::envelope::spec_error_body(spec_not_found_message(path@)),
{
    proof {
        // The four route paths are pairwise distinct, so at most one
        // routing clause applies to any request.
        reveal_strlit("/health");
        reveal_strlit("/api/health");
        reveal_strlit("/");
        reveal_strlit("/api");
        assert("/health"@.len() == 7);
        assert("/api/health"@.len() == 11);
        assert("/"@.len() == 1);
        assert("/api"@.len() == 4);
    }
    let get = str_eq(method, "GET");
    if get && (str_eq(path, "/health") || str_eq(path, "/api/health")) {
        health_handler()
    } else if get && (str_eq(path, "/") || str_eq(path, "/api")) {
        root_handler()
    } else {
        not_found_handler(path)
    }
}

/// The four fixed headers every response carries.
pub fn response_headers() -> (r: Vec<(&'static str, &'static str)>)
    ensures
        r@.len() == 4,
        r@[0].0@ == "content-type"@ && r@[0].1@ == "application/json"@,
        r@[1].0@ == "access-control-allow-origin"@ && r@[1].1@ == "*"@,
        r@[2].0@ == "access-control-allow-methods"@ && r@[2].1@
            == "GET, POST, PUT, DELETE, OPTIONS"@,
        r@[3].0@ == "access-control-allow-headers"@ && r@[3].1@ == "Content-Type, Authorization"@,
{
    let mut headers: Vec<(&'static str, &'static str)> = Vec::new();
    headers.push(("content-type", "application/json"));
    headers.push(("access-control-allow-origin", "*"));
    headers.push(("access-control-allow-methods", "GET, POST, PUT, DELETE, OPTIONS"));
    headers.push(("access-control-allow-headers", "Content-Type, Authorization"));
    headers
}

} // verus!
