//! The health check payload.

use vstd::prelude::*;
use vstd::string::StringExecFns;

use crate::json::spec_quote;
use crate::json::write_json_string;
use crate::json::ToJson;
use crate::VERSION;

verus! {

/// Health check response: a constant-ish value reflecting the running
/// build's version.
#[derive(Debug)]
pub struct HealthResponse {
    pub status: String,
    pub version: String,
}

impl Default for HealthResponse {
    /// The live health payload: status `"healthy"` and the build version.
    fn default() -> (r: Self)
        ensures
            r.status@ == "healthy"@,
            r.version@ == VERSION@,
    {
        Self { status: "healthy".to_owned(), version: VERSION.to_owned() }
    }
}

impl ToJson for HealthResponse {
    /// `{"status":<status>,"version":<version>}`, both values as JSON strings.
    open spec fn json_spec(&self) -> Seq<char> {
        "{\"status\":"@ + spec_quote(self.status@) + ",\"version\":"@ + spec_quote(self.version@)
            + "}"@
    }

    fn write_json(&self, out: &mut String)
        ensures
            final(out)@ == old(out)@ + self.json_spec(),
    {
        out.append("{\"status\":");
        write_json_string(out, self.status.as_str());
        out.append(",\"version\":");
        write_json_string(out, self.version.as_str());
        out.append("}");
        proof {
            assert(final(out)@ =~= old(out)@ + self.json_spec());
        }
    }
}

} // verus!
