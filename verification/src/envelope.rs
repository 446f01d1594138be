//! The uniform success/error response envelope.

use vstd::prelude::*;
use vstd::string::StringExecFns;

use crate::json::spec_quote;
use crate::json::write_json_string;
use crate::json::ToJson;

verus! {

/// API response wrapper for consistent responses.
///
/// Invariant (see [`ApiResponse::well_formed`]): exactly one of `data` /
/// `error` is present, and `success` tells which one.
#[derive(Debug)]
pub struct ApiResponse<T> {
    pub success: bool,
    pub data: Option<T>,
    pub error: Option<String>,
}

impl<T> ApiResponse<T> {
    /// `success` is consistent with which of `data` / `error` is present:
    /// `success = true` iff `data` is present and `error` absent.
    pub open spec fn well_formed(&self) -> bool {
        &&& self.success <==> self.data is Some
        &&& self.success <==> self.error is None
    }

    /// Create a successful response with data.
    pub fn success(data: T) -> (r: Self)
        ensures
            r.success == true,
            r.data == Some(data),
            r.error is None,
            r.well_formed(),
    {
        Self { success: true, data: Some(data), error: None }
    }

    /// Create an error response.
    pub fn error(message: &str) -> (r: Self)
        ensures
            r.success == false,
            r.data is None,
            r.error matches Some(m) && m@ == message@,
            r.well_formed(),
    {
        Self { success: false, data: None, error: Some(message.to_owned()) }
    }
}

/// The JSON text of a success envelope around the given data text: the
/// `error` field is omitted entirely, never emitted as `null`.
pub open spec fn spec_success_body(data_json: Seq<char>) -> Seq<char> {
    "{\"success\":true,\"data\":"@ + data_json + "}"@
}

/// The JSON text of an error envelope around the given message: the `data`
/// field is omitted entirely, never emitted as `null`.
pub open spec fn spec_error_body(message: Seq<char>) -> Seq<char> {
    "{\"success\":false,\"error\":"@ + spec_quote(message) + "}"@
}

impl<T: ToJson> ApiResponse<T> {
    /// The exact JSON text of this envelope: the absent field is omitted
    /// entirely, never emitted as `null`.
    pub open spec fn spec_json(&self) -> Seq<char> {
        if self.success {
            spec_success_body(self.data.unwrap().json_spec())
        } else {
            spec_error_body(self.error.unwrap()@)
        }
    }

    /// Serialize this envelope to its JSON text.
    pub fn to_json(&self) -> (r: String)
        requires
            self.well_formed(),
        ensures
            r@ == self.spec_json(),
    {
        let mut out = String::new();
        if self.success {
            out.append("{\"success\":true,\"data\":");
            match &self.data {
                Some(d) => d.write_json(&mut out),
                None => {
                    proof {
                        assert(false);
                    }
                },
            }
            out.append("}");
        } else {
            out.append("{\"success\":false,\"error\":");
            match &self.error {
                Some(m) => write_json_string(&mut out, m.as_str()),
                None => {
                    proof {
                        assert(false);
                    }
                },
            }
            out.append("}");
        }
        proof {
            assert(out@ =~= self.spec_json());
        }
        out
    }
}

} // verus!
