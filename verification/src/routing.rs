//! The endpoint matcher and the mock-response synthesizer.
//!
//! A request is described by its path and its method string.  The matcher
//! decides whether one endpoint rule applies: the rule's path pattern (a
//! regular expression) must match somewhere in the path, and the method
//! strings must be equal, case-sensitively.  The request handler scans a
//! server's endpoint list in declared order and synthesizes the response
//! for the first applicable rule: the configured mock response, or a
//! 501 "Not implemented" when the rule carries no behaviour, or a 503
//! carrying the error text when the rule itself is malformed.

use vstd::prelude::*;
use vstd::string::StringExecFns;

use crate::config::{
    status_is_valid, EndpointConfiguration, EndpointImage, MockResponseImage,
    ServerConfiguration,
};
use crate::error::ApplicationError;

verus! {

/// Whether `pattern` is a valid regular expression, as `regex::Regex::new`
/// decides it.
pub uninterp spec fn pattern_is_valid(pattern: Seq<char>) -> bool;

/// Whether the regular expression `pattern` matches anywhere in `text`, as
/// `regex::Regex::is_match` decides it.  Meaningful only when
/// `pattern_is_valid(pattern)` holds.
pub uninterp spec fn pattern_matches(pattern: Seq<char>, text: Seq<char>) -> bool;

/// The display text of the compilation error for an invalid `pattern`, a
/// function of the pattern alone.
pub uninterp spec fn pattern_error_text(pattern: Seq<char>) -> Seq<char>;

/// Relies on `regex::Regex::new`, which succeeds exactly on valid patterns
/// and whose error displays as a text determined by the pattern, and on
/// `regex::Regex::is_match`, which reports whether the compiled pattern
/// matches anywhere within the text.
#[verifier::external_body]
fn regex_is_match(pattern: &str, text: &str) -> (r: Result<bool, String>)
    ensures
        r is Ok <==> pattern_is_valid(pattern@),
        r is Ok ==> r->Ok_0 == pattern_matches(pattern@, text@),
        r is Err ==> r->Err_0@ == pattern_error_text(pattern@),
{
    match regex::Regex::new(pattern) {
        Ok(re) => Ok(re.is_match(text)),
        Err(e) => Err(e.to_string()),
    }
}

/// Ghost image of a synthesized response.
pub ghost struct ResponseImage {
    pub status: u16,
    pub headers: Seq<(Seq<char>, Seq<char>)>,
    pub body: Seq<char>,
    pub delay: u64,
}

/// A synthesized response, ready to be written to the wire: status code,
/// header lines in order, body text, and the artificial delay in
/// milliseconds to wait before emitting it.
#[derive(Debug)]
pub struct HttpResponseData {
    /// The status code.
    pub status: u16,
    /// One header line per pair, in order; duplicate keys allowed.
    pub headers: Vec<(String, String)>,
    /// The body text; empty when the mock configured none.
    pub body: String,
    /// Milliseconds to wait before emitting the response.
    pub delay: u64,
}

impl DeepView for HttpResponseData {
    type V = ResponseImage;

    open spec fn deep_view(&self) -> ResponseImage {
        ResponseImage {
            status: self.status,
            headers: self.headers.deep_view(),
            body: self.body@,
            delay: self.delay,
        }
    }
}

/// The response for a request that no configured behaviour covers.
pub open spec fn not_implemented_image() -> ResponseImage {
    ResponseImage { status: 501, headers: Seq::empty(), body: "Not implemented"@, delay: 0 }
}

/// The response for a request whose handling hit a configuration error:
/// a 503 carrying the error's message text.
pub open spec fn service_unavailable_image(text: Seq<char>) -> ResponseImage {
    ResponseImage { status: 503, headers: Seq::empty(), body: text, delay: 0 }
}

/// The response synthesized from a mock response configuration.
pub open spec fn mock_image(m: MockResponseImage) -> ResponseImage {
    ResponseImage {
        status: m.status,
        headers: m.headers,
        body: match m.response {
            Some(s) => s,
            None => Seq::empty(),
        },
        delay: m.delay,
    }
}

/// The detail text of the error for a mock response whose status code is
/// no valid HTTP status.
pub open spec fn invalid_status_detail() -> Seq<char> {
    "invalid status code"@
}

/// Whether the endpoint rule applies to a request: its pattern matches
/// somewhere in the path and its method equals the request method exactly.
pub open spec fn endpoint_applies(e: EndpointImage, path: Seq<char>, method: Seq<char>) -> bool {
    pattern_matches(e.endpoint, path) && method == e.method
}

/// The response owed to a request once an endpoint rule has been selected
/// for it: the mock response if one is configured with a valid status, a
/// 503 if its status code is invalid, and a 501 if the rule carries no
/// behaviour at all.
pub open spec fn spec_endpoint_response(e: EndpointImage) -> ResponseImage {
    match e.mock_response {
        Some(m) => if status_is_valid(m.status) {
            mock_image(m)
        } else {
            service_unavailable_image("Configuration error: "@ + invalid_status_detail())
        },
        None => not_implemented_image(),
    }
}

/// The response owed to a request, given a server's endpoint list: the
/// list is scanned in declared order; an invalid pattern stops the scan
/// with a 503; the first applicable rule decides the response; and a
/// request no rule applies to gets a 501.
pub open spec fn spec_route(
    endpoints: Seq<EndpointImage>,
    path: Seq<char>,
    method: Seq<char>,
) -> ResponseImage
    decreases endpoints.len(),
{
    if endpoints.len() == 0 {
        not_implemented_image()
    } else if !pattern_is_valid(endpoints[0].endpoint) {
        service_unavailable_image(
            "Configuration error: "@ + pattern_error_text(endpoints[0].endpoint),
        )
    } else if endpoint_applies(endpoints[0], path, method) {
        spec_endpoint_response(endpoints[0])
    } else {
        spec_route(endpoints.skip(1), path, method)
    }
}

/// Whether the endpoint rule applies to the request, or an error when the
/// rule's pattern is not a valid regular expression.
pub fn is_valid_endpoint(path: &str, method: &str, endpoint: &EndpointConfiguration) -> (r: Result<
    bool,
    ApplicationError,
>)
    ensures
        r is Ok <==> pattern_is_valid(endpoint.endpoint@),
        r is Ok ==> r->Ok_0 == endpoint_applies(endpoint.deep_view(), path@, method@),
        r is Err ==> r->Err_0 is ConfigurationError && r->Err_0.spec_detail()
            == pattern_error_text(endpoint.endpoint@),
{
    match regex_is_match(endpoint.endpoint.as_str(), path) {
        Ok(matched) => {
            let m = method.to_owned();
            Ok(matched && m == endpoint.method)
        },
        Err(e) => Err(ApplicationError::ConfigurationError(e)),
    }
}

/// Synthesize the response configured by a mock response, or an error when
/// its status code is no valid HTTP status.
pub fn generate_mock_response(mock: &crate::config::MockResponseConfiguration) -> (r: Result<
    HttpResponseData,
    ApplicationError,
>)
    ensures
        r is Ok <==> status_is_valid(mock.status),
        r is Ok ==> r->Ok_0.deep_view() == mock_image(mock.deep_view()),
        r is Err ==> r->Err_0 is ConfigurationError && r->Err_0.spec_detail()
            == invalid_status_detail(),
{
    if mock.status < 100 || mock.status > 599 {
        return Err(ApplicationError::ConfigurationError(String::from_str("invalid status code")));
    }
    let body = match &mock.response {
        Option::Some(s) => s.clone(),
        Option::None => String::new(),
    };
    Ok(
        HttpResponseData {
            status: mock.status,
            headers: crate::config::clone_headers(&mock.headers),
            body,
            delay: mock.delay,
        },
    )
}

/// The response for an endpoint rule that has been selected for a request:
/// its mock response, or 501 "Not implemented" when it has none.
pub fn handle_endpoint(endpoint: &EndpointConfiguration) -> (r: Result<
    HttpResponseData,
    ApplicationError,
>)
    ensures
        match endpoint.deep_view().mock_response {
            Some(m) => {
                &&& r is Ok <==> status_is_valid(m.status)
                &&& r is Ok ==> r->Ok_0.deep_view() == mock_image(m)
                &&& r is Err ==> r->Err_0 is ConfigurationError && r->Err_0.spec_detail()
                    == invalid_status_detail()
            },
            None => r is Ok && r->Ok_0.deep_view() == not_implemented_image(),
        },
{
    match &endpoint.mock_response {
        Option::Some(mock) => generate_mock_response(mock),
        Option::None => Ok(not_implemented_response()),
    }
}

/// The 501 "Not implemented" response.
fn not_implemented_response() -> (r: HttpResponseData)
    ensures
        r.deep_view() == not_implemented_image(),
{
    let r = HttpResponseData {
        status: 501,
        headers: Vec::new(),
        body: String::from_str("Not implemented"),
        delay: 0,
    };
    proof {
        assert(r.deep_view().headers =~= not_implemented_image().headers);
    }
    r
}

/// A 503 response whose body is the error's message.
fn service_unavailable_response(err: &ApplicationError) -> (r: HttpResponseData)
    ensures
        r.deep_view() == service_unavailable_image(err.spec_message()),
{
    let r = HttpResponseData { status: 503, headers: Vec::new(), body: err.message(), delay: 0 };
    proof {
        assert(r.deep_view().headers =~= service_unavailable_image(err.spec_message()).headers);
    }
    r
}

/// Route one request against a server's endpoint list, in declared order,
/// and synthesize the response it is owed.
pub fn request_handler(
    server_configuration: &ServerConfiguration,
    path: &str,
    method: &str,
) -> (r: HttpResponseData)
    ensures
        r.deep_view() == spec_route(
            server_configuration.deep_view().endpoints,
            path@,
            method@,
        ),
{
    let ghost views = server_configuration.deep_view().endpoints;
    let n = server_configuration.endpoints.len();
    proof {
        crate::config::lemma_deep_view_len(&server_configuration.endpoints);
        assert(views.skip(0) =~= views);
    }
    let mut i: usize = 0;
    while i < n
        invariant
            n == server_configuration.endpoints@.len(),
            i <= n,
            views == server_configuration.deep_view().endpoints,
            views.len() == n,
            spec_route(views, path@, method@) == spec_route(
                views.skip(i as int),
                path@,
                method@,
            ),
        decreases n - i,
    {
        let endpoint = &server_configuration.endpoints[i];
        proof {
            crate::config::lemma_deep_view_index(&server_configuration.endpoints, i as int);
            assert(views.skip(i as int)[0] == views[i as int]);
        }
        match is_valid_endpoint(path, method, endpoint) {
            Ok(true) => {
                match handle_endpoint(endpoint) {
                    Ok(response) => {
                        return response;
                    },
                    Err(err) => {
                        return service_unavailable_response(&err);
                    },
                }
            },
            Ok(false) => {
                proof {
                    assert(views.skip(i as int).skip(1) =~= views.skip(i as int + 1));
                }
            },
            Err(err) => {
                return service_unavailable_response(&err);
            },
        }
        i += 1;
    }
    proof {
        assert(views.skip(n as int) =~= Seq::<EndpointImage>::empty());
    }
    not_implemented_response()
}

/// Routing selects the first entry, in declared order, whose pattern
/// matches the path and whose method equals the request method: when every
/// earlier entry has a valid pattern and does not apply, and entry `i`
/// applies, the routed response is exactly entry `i`'s response — never a
/// later entry's, however specific a later pattern may be.
pub proof fn lemma_first_match_wins(
    endpoints: Seq<EndpointImage>,
    path: Seq<char>,
    method: Seq<char>,
    i: int,
)
    requires
        0 <= i < endpoints.len(),
        forall|j: int|
            0 <= j < i ==> pattern_is_valid(#[trigger] endpoints[j].endpoint) && !endpoint_applies(
                endpoints[j],
                path,
                method,
            ),
        pattern_is_valid(endpoints[i].endpoint),
        endpoint_applies(endpoints[i], path, method),
    ensures
        spec_route(endpoints, path, method) == spec_endpoint_response(endpoints[i]),
    decreases i,
{
    if i > 0 {
        assert(endpoints[0] == endpoints.skip(0)[0]);
        lemma_first_match_wins(endpoints.skip(1), path, method, i - 1);
        assert(endpoints.skip(1)[i - 1] == endpoints[i]);
    }
}

/// An endpoint that matched but has neither a mock response nor a route
/// configured answers exactly 501 with body "Not implemented".
pub proof fn lemma_unconfigured_endpoint_not_implemented(
    endpoints: Seq<EndpointImage>,
    path: Seq<char>,
    method: Seq<char>,
    i: int,
)
    requires
        0 <= i < endpoints.len(),
        forall|j: int|
            0 <= j < i ==> pattern_is_valid(#[trigger] endpoints[j].endpoint) && !endpoint_applies(
                endpoints[j],
                path,
                method,
            ),
        pattern_is_valid(endpoints[i].endpoint),
        endpoint_applies(endpoints[i], path, method),
        endpoints[i].mock_response is None,
        endpoints[i].route is None,
    ensures
        spec_route(endpoints, path, method) == not_implemented_image(),
        spec_route(endpoints, path, method).status == 501,
        spec_route(endpoints, path, method).body == "Not implemented"@,
{
    lemma_first_match_wins(endpoints, path, method, i);
}

/// A matched endpoint with a well-formed mock response answers exactly
/// the configured response: its status code, its header pairs in their
/// configured order, its body (empty when none is configured), and its
/// delay in milliseconds, which the emitter waits out before sending.
pub proof fn lemma_matched_mock_response(
    endpoints: Seq<EndpointImage>,
    path: Seq<char>,
    method: Seq<char>,
    i: int,
)
    requires
        0 <= i < endpoints.len(),
        forall|j: int|
            0 <= j < i ==> pattern_is_valid(#[trigger] endpoints[j].endpoint) && !endpoint_applies(
                endpoints[j],
                path,
                method,
            ),
        pattern_is_valid(endpoints[i].endpoint),
        endpoint_applies(endpoints[i], path, method),
        endpoints[i].mock_response is Some,
        status_is_valid(endpoints[i].mock_response->Some_0.status),
    ensures
        spec_route(endpoints, path, method) == mock_image(endpoints[i].mock_response->Some_0),
        spec_route(endpoints, path, method).status == endpoints[i].mock_response->Some_0.status,
        spec_route(endpoints, path, method).headers == endpoints[i].mock_response->Some_0.headers,
        spec_route(endpoints, path, method).delay == endpoints[i].mock_response->Some_0.delay,
{
    lemma_first_match_wins(endpoints, path, method, i);
}

/// A request that no endpoint applies to answers exactly 501 with body
/// "Not implemented".
pub proof fn lemma_no_match_not_implemented(
    endpoints: Seq<EndpointImage>,
    path: Seq<char>,
    method: Seq<char>,
)
    requires
        forall|j: int|
            0 <= j < endpoints.len() ==> pattern_is_valid(#[trigger] endpoints[j].endpoint)
                && !endpoint_applies(endpoints[j], path, method),
    ensures
        spec_route(endpoints, path, method) == not_implemented_image(),
        spec_route(endpoints, path, method).status == 501,
        spec_route(endpoints, path, method).body == "Not implemented"@,
    decreases endpoints.len(),
{
    if endpoints.len() > 0 {
        lemma_no_match_not_implemented(endpoints.skip(1), path, method);
    }
}

} // verus!
