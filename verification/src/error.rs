//! The error type shared by configuration loading, test selection,
//! request routing and listener start-up.

use vstd::prelude::*;
use vstd::string::StringExecFns;

verus! {

/// Everything that can go wrong in the library, each variant carrying a
/// human-readable detail text.
#[derive(Debug)]
pub enum ApplicationError {
    /// A configuration document could not be read or decoded.
    FileError(String),
    /// No test id was supplied where one was required.
    MissingId(String),
    /// The supplied test id matches no test in the configuration.
    CouldNotFindTest(String),
    /// A routing rule is malformed (bad path pattern or status code).
    ConfigurationError(String),
    /// A listener could not be bound or its TLS context not built.
    ServerStartUpError(String),
}

impl ApplicationError {
    /// The detail text carried by the variant.
    pub open spec fn spec_detail(&self) -> Seq<char> {
        match self {
            ApplicationError::FileError(e) => e@,
            ApplicationError::MissingId(e) => e@,
            ApplicationError::CouldNotFindTest(e) => e@,
            ApplicationError::ConfigurationError(e) => e@,
            ApplicationError::ServerStartUpError(e) => e@,
        }
    }

    /// The full message: a variant-specific prefix followed by the detail.
    pub open spec fn spec_message(&self) -> Seq<char> {
        match self {
            ApplicationError::FileError(_) => "File error: "@ + self.spec_detail(),
            ApplicationError::MissingId(_) => "Missing id: "@ + self.spec_detail(),
            ApplicationError::CouldNotFindTest(_) => "Could not find test: "@ + self.spec_detail(),
            ApplicationError::ConfigurationError(_) => "Configuration error: "@
                + self.spec_detail(),
            ApplicationError::ServerStartUpError(_) => "Server start up error: "@
                + self.spec_detail(),
        }
    }

    /// Render the error as one line of text.
    pub fn message(&self) -> (r: String)
        ensures
            r@ == self.spec_message(),
    {
        match self {
            ApplicationError::FileError(e) => prefixed("File error: ", e),
            ApplicationError::MissingId(e) => prefixed("Missing id: ", e),
            ApplicationError::CouldNotFindTest(e) => prefixed("Could not find test: ", e),
            ApplicationError::ConfigurationError(e) => prefixed("Configuration error: ", e),
            ApplicationError::ServerStartUpError(e) => prefixed("Server start up error: ", e),
        }
    }
}

/// `prefix` followed by `detail`, as one owned string.
fn prefixed(prefix: &str, detail: &String) -> (r: String)
    ensures
        r@ == prefix@ + detail@,
{
    let mut s = prefix.to_owned();
    s.append(detail.as_str());
    s
}

} // verus!
