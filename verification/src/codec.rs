//! The configuration document codec.
//!
//! A configuration is written as one compact JSON document with
//! lowerCamelCase member names, fields in declaration order, absent
//! options written as `null`, and one member per header pair.  The
//! parser is more lenient: whitespace between tokens is ignored, object
//! members may come in any order (each known member at most once, and
//! unknown members are skipped), absent optional members default to
//! `None`, and the full JSON escape set is read.  Both directions are
//! stated as
//! spec functions over character sequences, the executable `to_json` and
//! `from_json` are proved to implement them, and parsing a rendered
//! document is proved to yield the original configuration back.

use vstd::prelude::*;

use crate::config::{
    AppImage, EndpointImage, HttpsImage, MockResponseImage, RouteImage, ServerImage, TestImage,
};
use crate::json::{
    render_number, render_text, spec_parse_exact, spec_parse_number, spec_parse_text,
    lemma_parse_exact_len, lemma_parse_number_len, lemma_parse_text_len, strip_ws, strip_ws_from,
    StripMode, lemma_strip_append, lemma_strip_render_text, lemma_strip_render_number,
    lemma_quote_count_zero,
};

verus! {

// ---------------------------------------------------------------------
// rendering
// ---------------------------------------------------------------------

/// An optional text: `null`, or a JSON string.
pub open spec fn render_opt_text(o: Option<Seq<char>>) -> Seq<char> {
    match o {
        None => "null"@,
        Some(t) => render_text(t),
    }
}

/// An optional port: `null`, or a number.
pub open spec fn render_opt_u16(o: Option<u16>) -> Seq<char> {
    match o {
        None => "null"@,
        Some(n) => render_number(n as nat),
    }
}

/// One header pair, as one object member.
pub open spec fn render_header_entry(kv: (Seq<char>, Seq<char>)) -> Seq<char> {
    render_text(kv.0) + ":"@ + render_text(kv.1)
}

/// A non-empty run of header members, comma-separated.
pub open spec fn render_header_entries(h: Seq<(Seq<char>, Seq<char>)>) -> Seq<char>
    decreases h.len(),
{
    if h.len() <= 1 {
        render_header_entry(h[0])
    } else {
        render_header_entry(h[0]) + ","@ + render_header_entries(h.skip(1))
    }
}

/// A header list, as one JSON object; duplicate keys allowed.
pub open spec fn render_headers(h: Seq<(Seq<char>, Seq<char>)>) -> Seq<char> {
    if h.len() == 0 {
        "{}"@
    } else {
        "{"@ + render_header_entries(h) + "}"@
    }
}

/// A mock response, as one JSON object.
#[verifier::opaque]
pub open spec fn render_mock(m: MockResponseImage) -> Seq<char> {
    "{\"response\":"@ + render_opt_text(m.response) + ",\"status\":"@ + render_number(
        m.status as nat,
    ) + ",\"headers\":"@ + render_headers(m.headers) + ",\"delay\":"@ + render_number(
        m.delay as nat,
    ) + "}"@
}

/// A route, as one JSON object.
#[verifier::opaque]
pub open spec fn render_route(r: RouteImage) -> Seq<char> {
    "{\"endpoint\":"@ + render_text(r.endpoint) + "}"@
}

/// TLS material, as one JSON object.
#[verifier::opaque]
pub open spec fn render_https(h: HttpsImage) -> Seq<char> {
    "{\"serverCertificate\":"@ + render_text(h.server_certificate) + ",\"privateKey\":"@
        + render_text(h.private_key) + ",\"httpsPort\":"@ + render_number(h.https_port as nat)
        + "}"@
}

/// An optional mock response: `null`, or its object.
pub open spec fn render_opt_mock(o: Option<MockResponseImage>) -> Seq<char> {
    match o {
        None => "null"@,
        Some(m) => render_mock(m),
    }
}

/// An optional route: `null`, or its object.
pub open spec fn render_opt_route(o: Option<RouteImage>) -> Seq<char> {
    match o {
        None => "null"@,
        Some(r) => render_route(r),
    }
}

/// Optional TLS material: `null`, or its object.
pub open spec fn render_opt_https(o: Option<HttpsImage>) -> Seq<char> {
    match o {
        None => "null"@,
        Some(h) => render_https(h),
    }
}

/// An endpoint rule, as one JSON object.
#[verifier::opaque]
pub open spec fn render_endpoint(e: EndpointImage) -> Seq<char> {
    "{\"id\":"@ + render_text(e.id) + ",\"endpoint\":"@ + render_text(e.endpoint)
        + ",\"method\":"@ + render_text(e.method) + ",\"soapAction\":"@ + render_opt_text(
        e.soap_action,
    ) + ",\"mockResponse\":"@ + render_opt_mock(e.mock_response) + ",\"route\":"@
        + render_opt_route(e.route) + "}"@
}

/// A non-empty run of endpoint objects, comma-separated.
pub open spec fn render_endpoint_entries(v: Seq<EndpointImage>) -> Seq<char>
    decreases v.len(),
{
    if v.len() <= 1 {
        render_endpoint(v[0])
    } else {
        render_endpoint(v[0]) + ","@ + render_endpoint_entries(v.skip(1))
    }
}

/// An endpoint list, as one JSON array.
pub open spec fn render_endpoints(v: Seq<EndpointImage>) -> Seq<char> {
    if v.len() == 0 {
        "[]"@
    } else {
        "["@ + render_endpoint_entries(v) + "]"@
    }
}

/// A server, as one JSON object.
#[verifier::opaque]
pub open spec fn render_server(s: ServerImage) -> Seq<char> {
    "{\"id\":"@ + render_text(s.id) + ",\"name\":"@ + render_text(s.name) + ",\"httpPort\":"@
        + render_opt_u16(s.http_port) + ",\"endpoints\":"@ + render_endpoints(s.endpoints)
        + ",\"httpsConfig\":"@ + render_opt_https(s.https_config) + "}"@
}

/// A non-empty run of server objects, comma-separated.
pub open spec fn render_server_entries(v: Seq<ServerImage>) -> Seq<char>
    decreases v.len(),
{
    if v.len() <= 1 {
        render_server(v[0])
    } else {
        render_server(v[0]) + ","@ + render_server_entries(v.skip(1))
    }
}

/// A server list, as one JSON array.
pub open spec fn render_servers(v: Seq<ServerImage>) -> Seq<char> {
    if v.len() == 0 {
        "[]"@
    } else {
        "["@ + render_server_entries(v) + "]"@
    }
}

/// A test, as one JSON object.
#[verifier::opaque]
pub open spec fn render_test(t: TestImage) -> Seq<char> {
    "{\"id\":"@ + render_text(t.id) + ",\"name\":"@ + render_text(t.name) + ",\"description\":"@
        + render_text(t.description) + ",\"servers\":"@ + render_servers(t.servers) + "}"@
}

/// A non-empty run of test objects, comma-separated.
pub open spec fn render_test_entries(v: Seq<TestImage>) -> Seq<char>
    decreases v.len(),
{
    if v.len() <= 1 {
        render_test(v[0])
    } else {
        render_test(v[0]) + ","@ + render_test_entries(v.skip(1))
    }
}

/// A test list, as one JSON array.
pub open spec fn render_tests(v: Seq<TestImage>) -> Seq<char> {
    if v.len() == 0 {
        "[]"@
    } else {
        "["@ + render_test_entries(v) + "]"@
    }
}

/// A whole configuration, as one JSON document.
pub open spec fn render_app(a: AppImage) -> Seq<char> {
    "{\"name\":"@ + render_text(a.name) + ",\"description\":"@ + render_text(a.description)
        + ",\"tests\":"@ + render_tests(a.tests) + "}"@
}

// ---------------------------------------------------------------------
// parsing: numbers with their bounds, optional values
// ---------------------------------------------------------------------

/// Parse a number that must fit a `u64`.
pub open spec fn spec_parse_u64_value(s: Seq<char>) -> Option<(u64, Seq<char>)> {
    match spec_parse_number(s) {
        Some(p) => if p.0 <= u64::MAX {
            Some((p.0 as u64, p.1))
        } else {
            None
        },
        None => None,
    }
}

/// Parse a number that must fit a `u16`.
pub open spec fn spec_parse_u16_value(s: Seq<char>) -> Option<(u16, Seq<char>)> {
    match spec_parse_number(s) {
        Some(p) => if p.0 <= u16::MAX {
            Some((p.0 as u16, p.1))
        } else {
            None
        },
        None => None,
    }
}

/// Parse an optional text: `null`, or a JSON string.
pub open spec fn spec_parse_opt_text(s: Seq<char>) -> Option<(Option<Seq<char>>, Seq<char>)> {
    if s.len() > 0 && s[0] == 'n' {
        match spec_parse_exact(s, "null"@) {
            Some(r) => Some((None, r)),
            None => None,
        }
    } else {
        match spec_parse_text(s) {
            Some(p) => Some((Some(p.0), p.1)),
            None => None,
        }
    }
}

/// Parse an optional port: `null`, or a number fitting a `u16`.
pub open spec fn spec_parse_opt_u16(s: Seq<char>) -> Option<(Option<u16>, Seq<char>)> {
    if s.len() > 0 && s[0] == 'n' {
        match spec_parse_exact(s, "null"@) {
            Some(r) => Some((None, r)),
            None => None,
        }
    } else {
        match spec_parse_u16_value(s) {
            Some(p) => Some((Some(p.0), p.1)),
            None => None,
        }
    }
}

// ---------------------------------------------------------------------
// parsing: headers
// ---------------------------------------------------------------------

/// Parse one header member: a key string, a colon, a value string.
pub open spec fn spec_parse_header_entry(s: Seq<char>) -> Option<
    ((Seq<char>, Seq<char>), Seq<char>),
> {
    match spec_parse_text(s) {
        None => None,
        Some((key, s1)) => match spec_parse_exact(s1, ":"@) {
            None => None,
            Some(s2) => match spec_parse_text(s2) {
                None => None,
                Some((value, s3)) => Some(((key, value), s3)),
            },
        },
    }
}

/// A parsed header member strictly shortens the input.
pub proof fn lemma_parse_header_entry_len(s: Seq<char>)
    ensures
        spec_parse_header_entry(s) matches Some(p) ==> p.1.len() < s.len(),
{
    lemma_parse_text_len(s);
    match spec_parse_text(s) {
        None => {},
        Some((key, s1)) => {
            lemma_parse_exact_len(s1, ":"@);
            match spec_parse_exact(s1, ":"@) {
                None => {},
                Some(s2) => {
                    lemma_parse_text_len(s2);
                },
            }
        },
    }
}

/// Parse the members of a non-empty header object, up to the closing
/// brace.
pub open spec fn take_header_entries(
    s: Seq<char>,
    acc: Seq<(Seq<char>, Seq<char>)>,
) -> Option<(Seq<(Seq<char>, Seq<char>)>, Seq<char>)>
    decreases s.len()
        via take_header_entries_decreases
{
    match spec_parse_header_entry(s) {
        None => None,
        Some((kv, r)) => if r.len() > 0 && r[0] == ',' {
            take_header_entries(r.skip(1), acc.push(kv))
        } else if r.len() > 0 && r[0] == '}' {
            Some((acc.push(kv), r.skip(1)))
        } else {
            None
        },
    }
}

#[via_fn]
proof fn take_header_entries_decreases(s: Seq<char>, acc: Seq<(Seq<char>, Seq<char>)>) {
    lemma_parse_header_entry_len(s);
}

/// Parse a header object; duplicate keys allowed, order kept.
#[verifier::opaque]
pub open spec fn spec_parse_headers(s: Seq<char>) -> Option<
    (Seq<(Seq<char>, Seq<char>)>, Seq<char>),
> {
    match spec_parse_exact(s, "{"@) {
        None => None,
        Some(s1) => if s1.len() > 0 && s1[0] == '}' {
            Some((Seq::empty(), s1.skip(1)))
        } else {
            take_header_entries(s1, Seq::empty())
        },
    }
}

/// Scanning header members never lengthens the input.
pub proof fn lemma_take_header_entries_len(s: Seq<char>, acc: Seq<(Seq<char>, Seq<char>)>)
    ensures
        take_header_entries(s, acc) matches Some(p) ==> p.1.len() < s.len(),
    decreases s.len(),
{
    lemma_parse_header_entry_len(s);
    match spec_parse_header_entry(s) {
        None => {},
        Some((kv, r)) => {
            if r.len() > 0 && r[0] == ',' {
                lemma_take_header_entries_len(r.skip(1), acc.push(kv));
            }
        },
    }
}

/// A parsed header object strictly shortens the input.
pub proof fn lemma_parse_headers_len(s: Seq<char>)
    ensures
        spec_parse_headers(s) matches Some(p) ==> p.1.len() < s.len(),
{
    reveal(crate::codec::spec_parse_headers);
    lemma_parse_exact_len(s, "{"@);
    proof_strlit_brace();
    match spec_parse_exact(s, "{"@) {
        None => {},
        Some(s1) => {
            lemma_take_header_entries_len(s1, Seq::empty());
        },
    }
}

/// The length of the one-character literals used by the object grammar.
proof fn proof_strlit_brace()
    ensures
        ("{"@).len() == 1,
        ("}"@).len() == 1,
        (","@).len() == 1,
        (":"@).len() == 1,
        ("["@).len() == 1,
        ("]"@).len() == 1,
        ("null"@).len() == 4,
{
    reveal_strlit("{");
    reveal_strlit("}");
    reveal_strlit(",");
    reveal_strlit(":");
    reveal_strlit("[");
    reveal_strlit("]");
    reveal_strlit("null");
}

/// An optional text never lengthens the input, and shortens it when
/// present.
pub proof fn lemma_parse_opt_text_len(s: Seq<char>)
    ensures
        spec_parse_opt_text(s) matches Some(p) ==> p.1.len() < s.len(),
{
    proof_strlit_brace();
    lemma_parse_exact_len(s, "null"@);
    lemma_parse_text_len(s);
}

/// An optional port strictly shortens the input.
pub proof fn lemma_parse_opt_u16_len(s: Seq<char>)
    ensures
        spec_parse_opt_u16(s) matches Some(p) ==> p.1.len() < s.len(),
{
    proof_strlit_brace();
    lemma_parse_exact_len(s, "null"@);
    lemma_parse_number_len(s);
}

// ---------------------------------------------------------------------
// parsing: the objects of the model
// ---------------------------------------------------------------------

/// What has been read so far of a mock response object's members.
pub ghost struct MockFields {
    pub response: Option<Option<Seq<char>>>,
    pub status: Option<u16>,
    pub headers: Option<Seq<(Seq<char>, Seq<char>)>>,
    pub delay: Option<u64>,
}

/// No members of a mock response object read yet.
pub open spec fn mock_fields_empty() -> MockFields {
    MockFields { response: None, status: None, headers: None, delay: None }
}

/// Build the mock response image once the members are read: required
/// members must be present; absent optional members default to `None`.
pub open spec fn mock_from_fields(f: MockFields) -> Option<MockResponseImage> {
    if f.status is Some && f.headers is Some && f.delay is Some {
        Some(
            MockResponseImage {
                response: match f.response {
                    Some(v) => v,
                    None => None,
                },
                status: f.status->Some_0,
                headers: f.headers->Some_0,
                delay: f.delay->Some_0,
            },
        )
    } else {
        None
    }
}

/// One member of a mock response object: a known key, a colon, its value;
/// each key at most once, in any order.
pub open spec fn spec_parse_mock_member(s: Seq<char>, f: MockFields) -> Option<
    (MockFields, Seq<char>),
> {
    match spec_parse_text(s) {
        None => None,
        Some((key, s1)) => match spec_parse_exact(s1, ":"@) {
            None => None,
            Some(s2) => {
                if key == "response"@ {
                    if f.response is Some {
                        None
                    } else {
                        match spec_parse_opt_text(s2) {
                            None => None,
                            Some(p) => Some((MockFields { response: Some(p.0), status: f.status, headers: f.headers, delay: f.delay }, p.1)),
                        }
                    }
                } else if key == "status"@ {
                    if f.status is Some {
                        None
                    } else {
                        match spec_parse_u16_value(s2) {
                            None => None,
                            Some(p) => Some((MockFields { response: f.response, status: Some(p.0), headers: f.headers, delay: f.delay }, p.1)),
                        }
                    }
                } else if key == "headers"@ {
                    if f.headers is Some {
                        None
                    } else {
                        match spec_parse_headers(s2) {
                            None => None,
                            Some(p) => Some((MockFields { response: f.response, status: f.status, headers: Some(p.0), delay: f.delay }, p.1)),
                        }
                    }
                } else if key == "delay"@ {
                    if f.delay is Some {
                        None
                    } else {
                        match spec_parse_u64_value(s2) {
                            None => None,
                            Some(p) => Some((MockFields { response: f.response, status: f.status, headers: f.headers, delay: Some(p.0) }, p.1)),
                        }
                    }
                } else {
                    match crate::json::spec_skip_value(s2, s2.len()) {
                        None => None,
                        Some(r) => Some((f, r)),
                    }
                }
            },
        },
    }
}

/// A parsed mock response member strictly shortens the input.
pub proof fn lemma_parse_mock_member_len(s: Seq<char>, f: MockFields)
    ensures
        spec_parse_mock_member(s, f) matches Some(p) ==> p.1.len() < s.len(),
{
    lemma_parse_text_len(s);
    match spec_parse_text(s) {
        None => {},
        Some((key, s1)) => {
            lemma_parse_exact_len(s1, ":"@);
            match spec_parse_exact(s1, ":"@) {
                None => {},
                Some(s2) => {
                    crate::json::lemma_skip_value_len(s2, s2.len());
                    lemma_parse_opt_text_len(s2);
                    lemma_parse_number_len(s2);
                    lemma_parse_headers_len(s2);
                },
            }
        },
    }
}

/// The members of a mock response object, up to the closing brace.
pub open spec fn take_mock_members(s: Seq<char>, f: MockFields) -> Option<
    (MockFields, Seq<char>),
>
    decreases s.len()
        via take_mock_members_decreases
{
    match spec_parse_mock_member(s, f) {
        None => None,
        Some((f2, r)) => if r.len() > 0 && r[0] == ',' {
            take_mock_members(r.skip(1), f2)
        } else if r.len() > 0 && r[0] == '}' {
            Some((f2, r.skip(1)))
        } else {
            None
        },
    }
}

#[via_fn]
proof fn take_mock_members_decreases(s: Seq<char>, f: MockFields) {
    lemma_parse_mock_member_len(s, f);
}

/// Scanning mock response members strictly shortens the input.
pub proof fn lemma_take_mock_members_len(s: Seq<char>, f: MockFields)
    ensures
        take_mock_members(s, f) matches Some(p) ==> p.1.len() < s.len(),
    decreases s.len(),
{
    lemma_parse_mock_member_len(s, f);
    match spec_parse_mock_member(s, f) {
        None => {},
        Some((f2, r)) => {
            if r.len() > 0 && r[0] == ',' {
                lemma_take_mock_members_len(r.skip(1), f2);
            }
        },
    }
}

/// Parse a mock response object: braces around its members, read in any
/// order, each at most once.
#[verifier::opaque]
pub open spec fn spec_parse_mock(s: Seq<char>) -> Option<(MockResponseImage, Seq<char>)> {
    match spec_parse_exact(s, "{"@) {
        None => None,
        Some(s1) => match take_mock_members(s1, mock_fields_empty()) {
            None => None,
            Some((f, r)) => match mock_from_fields(f) {
                None => None,
                Some(v) => Some((v, r)),
            },
        },
    }
}

/// A parsed mock response strictly shortens the input.
pub proof fn lemma_parse_mock_len(s: Seq<char>)
    ensures
        spec_parse_mock(s) matches Some(p) ==> p.1.len() < s.len(),
{
    reveal(crate::codec::spec_parse_mock);
    proof_strlit_brace();
    lemma_parse_exact_len(s, "{"@);
    match spec_parse_exact(s, "{"@) {
        None => {},
        Some(s1) => {
            lemma_take_mock_members_len(s1, mock_fields_empty());
        },
    }
}

/// What has been read so far of a route object's members.
pub ghost struct RouteFields {
    pub endpoint: Option<Seq<char>>,
}

/// No members of a route object read yet.
pub open spec fn route_fields_empty() -> RouteFields {
    RouteFields { endpoint: None }
}

/// Build the route image once the members are read: required
/// members must be present; absent optional members default to `None`.
pub open spec fn route_from_fields(f: RouteFields) -> Option<RouteImage> {
    if f.endpoint is Some {
        Some(
            RouteImage {
                endpoint: f.endpoint->Some_0,
            },
        )
    } else {
        None
    }
}

/// One member of a route object: a known key, a colon, its value;
/// each key at most once, in any order.
pub open spec fn spec_parse_route_member(s: Seq<char>, f: RouteFields) -> Option<
    (RouteFields, Seq<char>),
> {
    match spec_parse_text(s) {
        None => None,
        Some((key, s1)) => match spec_parse_exact(s1, ":"@) {
            None => None,
            Some(s2) => {
                if key == "endpoint"@ {
                    if f.endpoint is Some {
                        None
                    } else {
                        match spec_parse_text(s2) {
                            None => None,
                            Some(p) => Some((RouteFields { endpoint: Some(p.0) }, p.1)),
                        }
                    }
                } else {
                    match crate::json::spec_skip_value(s2, s2.len()) {
                        None => None,
                        Some(r) => Some((f, r)),
                    }
                }
            },
        },
    }
}

/// A parsed route member strictly shortens the input.
pub proof fn lemma_parse_route_member_len(s: Seq<char>, f: RouteFields)
    ensures
        spec_parse_route_member(s, f) matches Some(p) ==> p.1.len() < s.len(),
{
    lemma_parse_text_len(s);
    match spec_parse_text(s) {
        None => {},
        Some((key, s1)) => {
            lemma_parse_exact_len(s1, ":"@);
            match spec_parse_exact(s1, ":"@) {
                None => {},
                Some(s2) => {
                    crate::json::lemma_skip_value_len(s2, s2.len());
                    lemma_parse_text_len(s2);
                },
            }
        },
    }
}

/// The members of a route object, up to the closing brace.
pub open spec fn take_route_members(s: Seq<char>, f: RouteFields) -> Option<
    (RouteFields, Seq<char>),
>
    decreases s.len()
        via take_route_members_decreases
{
    match spec_parse_route_member(s, f) {
        None => None,
        Some((f2, r)) => if r.len() > 0 && r[0] == ',' {
            take_route_members(r.skip(1), f2)
        } else if r.len() > 0 && r[0] == '}' {
            Some((f2, r.skip(1)))
        } else {
            None
        },
    }
}

#[via_fn]
proof fn take_route_members_decreases(s: Seq<char>, f: RouteFields) {
    lemma_parse_route_member_len(s, f);
}

/// Scanning route members strictly shortens the input.
pub proof fn lemma_take_route_members_len(s: Seq<char>, f: RouteFields)
    ensures
        take_route_members(s, f) matches Some(p) ==> p.1.len() < s.len(),
    decreases s.len(),
{
    lemma_parse_route_member_len(s, f);
    match spec_parse_route_member(s, f) {
        None => {},
        Some((f2, r)) => {
            if r.len() > 0 && r[0] == ',' {
                lemma_take_route_members_len(r.skip(1), f2);
            }
        },
    }
}

/// Parse a route object: braces around its members, read in any
/// order, each at most once.
#[verifier::opaque]
pub open spec fn spec_parse_route(s: Seq<char>) -> Option<(RouteImage, Seq<char>)> {
    match spec_parse_exact(s, "{"@) {
        None => None,
        Some(s1) => match take_route_members(s1, route_fields_empty()) {
            None => None,
            Some((f, r)) => match route_from_fields(f) {
                None => None,
                Some(v) => Some((v, r)),
            },
        },
    }
}

/// A parsed route strictly shortens the input.
pub proof fn lemma_parse_route_len(s: Seq<char>)
    ensures
        spec_parse_route(s) matches Some(p) ==> p.1.len() < s.len(),
{
    reveal(crate::codec::spec_parse_route);
    proof_strlit_brace();
    lemma_parse_exact_len(s, "{"@);
    match spec_parse_exact(s, "{"@) {
        None => {},
        Some(s1) => {
            lemma_take_route_members_len(s1, route_fields_empty());
        },
    }
}

/// What has been read so far of a TLS configuration object's members.
pub ghost struct HttpsFields {
    pub server_certificate: Option<Seq<char>>,
    pub private_key: Option<Seq<char>>,
    pub https_port: Option<u16>,
}

/// No members of a TLS configuration object read yet.
pub open spec fn https_fields_empty() -> HttpsFields {
    HttpsFields { server_certificate: None, private_key: None, https_port: None }
}

/// Build the TLS configuration image once the members are read: required
/// members must be present; absent optional members default to `None`.
pub open spec fn https_from_fields(f: HttpsFields) -> Option<HttpsImage> {
    if f.server_certificate is Some && f.private_key is Some && f.https_port is Some {
        Some(
            HttpsImage {
                server_certificate: f.server_certificate->Some_0,
                private_key: f.private_key->Some_0,
                https_port: f.https_port->Some_0,
            },
        )
    } else {
        None
    }
}

/// One member of a TLS configuration object: a known key, a colon, its value;
/// each key at most once, in any order.
pub open spec fn spec_parse_https_member(s: Seq<char>, f: HttpsFields) -> Option<
    (HttpsFields, Seq<char>),
> {
    match spec_parse_text(s) {
        None => None,
        Some((key, s1)) => match spec_parse_exact(s1, ":"@) {
            None => None,
            Some(s2) => {
                if key == "serverCertificate"@ {
                    if f.server_certificate is Some {
                        None
                    } else {
                        match spec_parse_text(s2) {
                            None => None,
                            Some(p) => Some((HttpsFields { server_certificate: Some(p.0), private_key: f.private_key, https_port: f.https_port }, p.1)),
                        }
                    }
                } else if key == "privateKey"@ {
                    if f.private_key is Some {
                        None
                    } else {
                        match spec_parse_text(s2) {
                            None => None,
                            Some(p) => Some((HttpsFields { server_certificate: f.server_certificate, private_key: Some(p.0), https_port: f.https_port }, p.1)),
                        }
                    }
                } else if key == "httpsPort"@ {
                    if f.https_port is Some {
                        None
                    } else {
                        match spec_parse_u16_value(s2) {
                            None => None,
                            Some(p) => Some((HttpsFields { server_certificate: f.server_certificate, private_key: f.private_key, https_port: Some(p.0) }, p.1)),
                        }
                    }
                } else {
                    match crate::json::spec_skip_value(s2, s2.len()) {
                        None => None,
                        Some(r) => Some((f, r)),
                    }
                }
            },
        },
    }
}

/// A parsed TLS configuration member strictly shortens the input.
pub proof fn lemma_parse_https_member_len(s: Seq<char>, f: HttpsFields)
    ensures
        spec_parse_https_member(s, f) matches Some(p) ==> p.1.len() < s.len(),
{
    lemma_parse_text_len(s);
    match spec_parse_text(s) {
        None => {},
        Some((key, s1)) => {
            lemma_parse_exact_len(s1, ":"@);
            match spec_parse_exact(s1, ":"@) {
                None => {},
                Some(s2) => {
                    crate::json::lemma_skip_value_len(s2, s2.len());
                    lemma_parse_text_len(s2);
                    lemma_parse_number_len(s2);
                },
            }
        },
    }
}

/// The members of a TLS configuration object, up to the closing brace.
pub open spec fn take_https_members(s: Seq<char>, f: HttpsFields) -> Option<
    (HttpsFields, Seq<char>),
>
    decreases s.len()
        via take_https_members_decreases
{
    match spec_parse_https_member(s, f) {
        None => None,
        Some((f2, r)) => if r.len() > 0 && r[0] == ',' {
            take_https_members(r.skip(1), f2)
        } else if r.len() > 0 && r[0] == '}' {
            Some((f2, r.skip(1)))
        } else {
            None
        },
    }
}

#[via_fn]
proof fn take_https_members_decreases(s: Seq<char>, f: HttpsFields) {
    lemma_parse_https_member_len(s, f);
}

/// Scanning TLS configuration members strictly shortens the input.
pub proof fn lemma_take_https_members_len(s: Seq<char>, f: HttpsFields)
    ensures
        take_https_members(s, f) matches Some(p) ==> p.1.len() < s.len(),
    decreases s.len(),
{
    lemma_parse_https_member_len(s, f);
    match spec_parse_https_member(s, f) {
        None => {},
        Some((f2, r)) => {
            if r.len() > 0 && r[0] == ',' {
                lemma_take_https_members_len(r.skip(1), f2);
            }
        },
    }
}

/// Parse a TLS configuration object: braces around its members, read in any
/// order, each at most once.
#[verifier::opaque]
pub open spec fn spec_parse_https(s: Seq<char>) -> Option<(HttpsImage, Seq<char>)> {
    match spec_parse_exact(s, "{"@) {
        None => None,
        Some(s1) => match take_https_members(s1, https_fields_empty()) {
            None => None,
            Some((f, r)) => match https_from_fields(f) {
                None => None,
                Some(v) => Some((v, r)),
            },
        },
    }
}

/// A parsed TLS configuration strictly shortens the input.
pub proof fn lemma_parse_https_len(s: Seq<char>)
    ensures
        spec_parse_https(s) matches Some(p) ==> p.1.len() < s.len(),
{
    reveal(crate::codec::spec_parse_https);
    proof_strlit_brace();
    lemma_parse_exact_len(s, "{"@);
    match spec_parse_exact(s, "{"@) {
        None => {},
        Some(s1) => {
            lemma_take_https_members_len(s1, https_fields_empty());
        },
    }
}

/// What has been read so far of a endpoint object's members.
pub ghost struct EndpointFields {
    pub id: Option<Seq<char>>,
    pub endpoint: Option<Seq<char>>,
    pub method: Option<Seq<char>>,
    pub soap_action: Option<Option<Seq<char>>>,
    pub mock_response: Option<Option<MockResponseImage>>,
    pub route: Option<Option<RouteImage>>,
}

/// No members of a endpoint object read yet.
pub open spec fn endpoint_fields_empty() -> EndpointFields {
    EndpointFields { id: None, endpoint: None, method: None, soap_action: None, mock_response: None, route: None }
}

/// Build the endpoint image once the members are read: required
/// members must be present; absent optional members default to `None`.
pub open spec fn endpoint_from_fields(f: EndpointFields) -> Option<EndpointImage> {
    if f.id is Some && f.endpoint is Some && f.method is Some {
        Some(
            EndpointImage {
                id: f.id->Some_0,
                endpoint: f.endpoint->Some_0,
                method: f.method->Some_0,
                soap_action: match f.soap_action {
                    Some(v) => v,
                    None => None,
                },
                mock_response: match f.mock_response {
                    Some(v) => v,
                    None => None,
                },
                route: match f.route {
                    Some(v) => v,
                    None => None,
                },
            },
        )
    } else {
        None
    }
}

/// One member of a endpoint object: a known key, a colon, its value;
/// each key at most once, in any order.
pub open spec fn spec_parse_endpoint_member(s: Seq<char>, f: EndpointFields) -> Option<
    (EndpointFields, Seq<char>),
> {
    match spec_parse_text(s) {
        None => None,
        Some((key, s1)) => match spec_parse_exact(s1, ":"@) {
            None => None,
            Some(s2) => {
                if key == "id"@ {
                    if f.id is Some {
                        None
                    } else {
                        match spec_parse_text(s2) {
                            None => None,
                            Some(p) => Some((EndpointFields { id: Some(p.0), endpoint: f.endpoint, method: f.method, soap_action: f.soap_action, mock_response: f.mock_response, route: f.route }, p.1)),
                        }
                    }
                } else if key == "endpoint"@ {
                    if f.endpoint is Some {
                        None
                    } else {
                        match spec_parse_text(s2) {
                            None => None,
                            Some(p) => Some((EndpointFields { id: f.id, endpoint: Some(p.0), method: f.method, soap_action: f.soap_action, mock_response: f.mock_response, route: f.route }, p.1)),
                        }
                    }
                } else if key == "method"@ {
                    if f.method is Some {
                        None
                    } else {
                        match spec_parse_text(s2) {
                            None => None,
                            Some(p) => Some((EndpointFields { id: f.id, endpoint: f.endpoint, method: Some(p.0), soap_action: f.soap_action, mock_response: f.mock_response, route: f.route }, p.1)),
                        }
                    }
                } else if key == "soapAction"@ {
                    if f.soap_action is Some {
                        None
                    } else {
                        match spec_parse_opt_text(s2) {
                            None => None,
                            Some(p) => Some((EndpointFields { id: f.id, endpoint: f.endpoint, method: f.method, soap_action: Some(p.0), mock_response: f.mock_response, route: f.route }, p.1)),
                        }
                    }
                } else if key == "mockResponse"@ {
                    if f.mock_response is Some {
                        None
                    } else {
                        match spec_parse_opt_mock(s2) {
                            None => None,
                            Some(p) => Some((EndpointFields { id: f.id, endpoint: f.endpoint, method: f.method, soap_action: f.soap_action, mock_response: Some(p.0), route: f.route }, p.1)),
                        }
                    }
                } else if key == "route"@ {
                    if f.route is Some {
                        None
                    } else {
                        match spec_parse_opt_route(s2) {
                            None => None,
                            Some(p) => Some((EndpointFields { id: f.id, endpoint: f.endpoint, method: f.method, soap_action: f.soap_action, mock_response: f.mock_response, route: Some(p.0) }, p.1)),
                        }
                    }
                } else {
                    match crate::json::spec_skip_value(s2, s2.len()) {
                        None => None,
                        Some(r) => Some((f, r)),
                    }
                }
            },
        },
    }
}

/// A parsed endpoint member strictly shortens the input.
pub proof fn lemma_parse_endpoint_member_len(s: Seq<char>, f: EndpointFields)
    ensures
        spec_parse_endpoint_member(s, f) matches Some(p) ==> p.1.len() < s.len(),
{
    lemma_parse_text_len(s);
    match spec_parse_text(s) {
        None => {},
        Some((key, s1)) => {
            lemma_parse_exact_len(s1, ":"@);
            match spec_parse_exact(s1, ":"@) {
                None => {},
                Some(s2) => {
                    crate::json::lemma_skip_value_len(s2, s2.len());
                    lemma_parse_text_len(s2);
                    lemma_parse_opt_text_len(s2);
                    lemma_parse_opt_mock_len(s2);
                    lemma_parse_opt_route_len(s2);
                },
            }
        },
    }
}

/// The members of a endpoint object, up to the closing brace.
pub open spec fn take_endpoint_members(s: Seq<char>, f: EndpointFields) -> Option<
    (EndpointFields, Seq<char>),
>
    decreases s.len()
        via take_endpoint_members_decreases
{
    match spec_parse_endpoint_member(s, f) {
        None => None,
        Some((f2, r)) => if r.len() > 0 && r[0] == ',' {
            take_endpoint_members(r.skip(1), f2)
        } else if r.len() > 0 && r[0] == '}' {
            Some((f2, r.skip(1)))
        } else {
            None
        },
    }
}

#[via_fn]
proof fn take_endpoint_members_decreases(s: Seq<char>, f: EndpointFields) {
    lemma_parse_endpoint_member_len(s, f);
}

/// Scanning endpoint members strictly shortens the input.
pub proof fn lemma_take_endpoint_members_len(s: Seq<char>, f: EndpointFields)
    ensures
        take_endpoint_members(s, f) matches Some(p) ==> p.1.len() < s.len(),
    decreases s.len(),
{
    lemma_parse_endpoint_member_len(s, f);
    match spec_parse_endpoint_member(s, f) {
        None => {},
        Some((f2, r)) => {
            if r.len() > 0 && r[0] == ',' {
                lemma_take_endpoint_members_len(r.skip(1), f2);
            }
        },
    }
}

/// Parse a endpoint object: braces around its members, read in any
/// order, each at most once.
#[verifier::opaque]
pub open spec fn spec_parse_endpoint(s: Seq<char>) -> Option<(EndpointImage, Seq<char>)> {
    match spec_parse_exact(s, "{"@) {
        None => None,
        Some(s1) => match take_endpoint_members(s1, endpoint_fields_empty()) {
            None => None,
            Some((f, r)) => match endpoint_from_fields(f) {
                None => None,
                Some(v) => Some((v, r)),
            },
        },
    }
}

/// A parsed endpoint strictly shortens the input.
pub proof fn lemma_parse_endpoint_len(s: Seq<char>)
    ensures
        spec_parse_endpoint(s) matches Some(p) ==> p.1.len() < s.len(),
{
    reveal(crate::codec::spec_parse_endpoint);
    proof_strlit_brace();
    lemma_parse_exact_len(s, "{"@);
    match spec_parse_exact(s, "{"@) {
        None => {},
        Some(s1) => {
            lemma_take_endpoint_members_len(s1, endpoint_fields_empty());
        },
    }
}

/// What has been read so far of a server object's members.
pub ghost struct ServerFields {
    pub id: Option<Seq<char>>,
    pub name: Option<Seq<char>>,
    pub http_port: Option<Option<u16>>,
    pub endpoints: Option<Seq<EndpointImage>>,
    pub https_config: Option<Option<HttpsImage>>,
}

/// No members of a server object read yet.
pub open spec fn server_fields_empty() -> ServerFields {
    ServerFields { id: None, name: None, http_port: None, endpoints: None, https_config: None }
}

/// Build the server image once the members are read: required
/// members must be present; absent optional members default to `None`.
pub open spec fn server_from_fields(f: ServerFields) -> Option<ServerImage> {
    if f.id is Some && f.name is Some && f.endpoints is Some {
        Some(
            ServerImage {
                id: f.id->Some_0,
                name: f.name->Some_0,
                http_port: match f.http_port {
                    Some(v) => v,
                    None => None,
                },
                endpoints: f.endpoints->Some_0,
                https_config: match f.https_config {
                    Some(v) => v,
                    None => None,
                },
            },
        )
    } else {
        None
    }
}

/// One member of a server object: a known key, a colon, its value;
/// each key at most once, in any order.
pub open spec fn spec_parse_server_member(s: Seq<char>, f: ServerFields) -> Option<
    (ServerFields, Seq<char>),
> {
    match spec_parse_text(s) {
        None => None,
        Some((key, s1)) => match spec_parse_exact(s1, ":"@) {
            None => None,
            Some(s2) => {
                if key == "id"@ {
                    if f.id is Some {
                        None
                    } else {
                        match spec_parse_text(s2) {
                            None => None,
                            Some(p) => Some((ServerFields { id: Some(p.0), name: f.name, http_port: f.http_port, endpoints: f.endpoints, https_config: f.https_config }, p.1)),
                        }
                    }
                } else if key == "name"@ {
                    if f.name is Some {
                        None
                    } else {
                        match spec_parse_text(s2) {
                            None => None,
                            Some(p) => Some((ServerFields { id: f.id, name: Some(p.0), http_port: f.http_port, endpoints: f.endpoints, https_config: f.https_config }, p.1)),
                        }
                    }
                } else if key == "httpPort"@ {
                    if f.http_port is Some {
                        None
                    } else {
                        match spec_parse_opt_u16(s2) {
                            None => None,
                            Some(p) => Some((ServerFields { id: f.id, name: f.name, http_port: Some(p.0), endpoints: f.endpoints, https_config: f.https_config }, p.1)),
                        }
                    }
                } else if key == "endpoints"@ {
                    if f.endpoints is Some {
                        None
                    } else {
                        match spec_parse_endpoints(s2) {
                            None => None,
                            Some(p) => Some((ServerFields { id: f.id, name: f.name, http_port: f.http_port, endpoints: Some(p.0), https_config: f.https_config }, p.1)),
                        }
                    }
                } else if key == "httpsConfig"@ {
                    if f.https_config is Some {
                        None
                    } else {
                        match spec_parse_opt_https(s2) {
                            None => None,
                            Some(p) => Some((ServerFields { id: f.id, name: f.name, http_port: f.http_port, endpoints: f.endpoints, https_config: Some(p.0) }, p.1)),
                        }
                    }
                } else {
                    match crate::json::spec_skip_value(s2, s2.len()) {
                        None => None,
                        Some(r) => Some((f, r)),
                    }
                }
            },
        },
    }
}

/// A parsed server member strictly shortens the input.
pub proof fn lemma_parse_server_member_len(s: Seq<char>, f: ServerFields)
    ensures
        spec_parse_server_member(s, f) matches Some(p) ==> p.1.len() < s.len(),
{
    lemma_parse_text_len(s);
    match spec_parse_text(s) {
        None => {},
        Some((key, s1)) => {
            lemma_parse_exact_len(s1, ":"@);
            match spec_parse_exact(s1, ":"@) {
                None => {},
                Some(s2) => {
                    crate::json::lemma_skip_value_len(s2, s2.len());
                    lemma_parse_text_len(s2);
                    lemma_parse_opt_u16_len(s2);
                    lemma_parse_endpoints_len(s2);
                    lemma_parse_opt_https_len(s2);
                },
            }
        },
    }
}

/// The members of a server object, up to the closing brace.
pub open spec fn take_server_members(s: Seq<char>, f: ServerFields) -> Option<
    (ServerFields, Seq<char>),
>
    decreases s.len()
        via take_server_members_decreases
{
    match spec_parse_server_member(s, f) {
        None => None,
        Some((f2, r)) => if r.len() > 0 && r[0] == ',' {
            take_server_members(r.skip(1), f2)
        } else if r.len() > 0 && r[0] == '}' {
            Some((f2, r.skip(1)))
        } else {
            None
        },
    }
}

#[via_fn]
proof fn take_server_members_decreases(s: Seq<char>, f: ServerFields) {
    lemma_parse_server_member_len(s, f);
}

/// Scanning server members strictly shortens the input.
pub proof fn lemma_take_server_members_len(s: Seq<char>, f: ServerFields)
    ensures
        take_server_members(s, f) matches Some(p) ==> p.1.len() < s.len(),
    decreases s.len(),
{
    lemma_parse_server_member_len(s, f);
    match spec_parse_server_member(s, f) {
        None => {},
        Some((f2, r)) => {
            if r.len() > 0 && r[0] == ',' {
                lemma_take_server_members_len(r.skip(1), f2);
            }
        },
    }
}

/// Parse a server object: braces around its members, read in any
/// order, each at most once.
#[verifier::opaque]
pub open spec fn spec_parse_server(s: Seq<char>) -> Option<(ServerImage, Seq<char>)> {
    match spec_parse_exact(s, "{"@) {
        None => None,
        Some(s1) => match take_server_members(s1, server_fields_empty()) {
            None => None,
            Some((f, r)) => match server_from_fields(f) {
                None => None,
                Some(v) => Some((v, r)),
            },
        },
    }
}

/// A parsed server strictly shortens the input.
pub proof fn lemma_parse_server_len(s: Seq<char>)
    ensures
        spec_parse_server(s) matches Some(p) ==> p.1.len() < s.len(),
{
    reveal(crate::codec::spec_parse_server);
    proof_strlit_brace();
    lemma_parse_exact_len(s, "{"@);
    match spec_parse_exact(s, "{"@) {
        None => {},
        Some(s1) => {
            lemma_take_server_members_len(s1, server_fields_empty());
        },
    }
}

/// What has been read so far of a test object's members.
pub ghost struct TestFields {
    pub id: Option<Seq<char>>,
    pub name: Option<Seq<char>>,
    pub description: Option<Seq<char>>,
    pub servers: Option<Seq<ServerImage>>,
}

/// No members of a test object read yet.
pub open spec fn test_fields_empty() -> TestFields {
    TestFields { id: None, name: None, description: None, servers: None }
}

/// Build the test image once the members are read: required
/// members must be present; absent optional members default to `None`.
pub open spec fn test_from_fields(f: TestFields) -> Option<TestImage> {
    if f.id is Some && f.name is Some && f.description is Some && f.servers is Some {
        Some(
            TestImage {
                id: f.id->Some_0,
                name: f.name->Some_0,
                description: f.description->Some_0,
                servers: f.servers->Some_0,
            },
        )
    } else {
        None
    }
}

/// One member of a test object: a known key, a colon, its value;
/// each key at most once, in any order.
pub open spec fn spec_parse_test_member(s: Seq<char>, f: TestFields) -> Option<
    (TestFields, Seq<char>),
> {
    match spec_parse_text(s) {
        None => None,
        Some((key, s1)) => match spec_parse_exact(s1, ":"@) {
            None => None,
            Some(s2) => {
                if key == "id"@ {
                    if f.id is Some {
                        None
                    } else {
                        match spec_parse_text(s2) {
                            None => None,
                            Some(p) => Some((TestFields { id: Some(p.0), name: f.name, description: f.description, servers: f.servers }, p.1)),
                        }
                    }
                } else if key == "name"@ {
                    if f.name is Some {
                        None
                    } else {
                        match spec_parse_text(s2) {
                            None => None,
                            Some(p) => Some((TestFields { id: f.id, name: Some(p.0), description: f.description, servers: f.servers }, p.1)),
                        }
                    }
                } else if key == "description"@ {
                    if f.description is Some {
                        None
                    } else {
                        match spec_parse_text(s2) {
                            None => None,
                            Some(p) => Some((TestFields { id: f.id, name: f.name, description: Some(p.0), servers: f.servers }, p.1)),
                        }
                    }
                } else if key == "servers"@ {
                    if f.servers is Some {
                        None
                    } else {
                        match spec_parse_servers(s2) {
                            None => None,
                            Some(p) => Some((TestFields { id: f.id, name: f.name, description: f.description, servers: Some(p.0) }, p.1)),
                        }
                    }
                } else {
                    match crate::json::spec_skip_value(s2, s2.len()) {
                        None => None,
                        Some(r) => Some((f, r)),
                    }
                }
            },
        },
    }
}

/// A parsed test member strictly shortens the input.
pub proof fn lemma_parse_test_member_len(s: Seq<char>, f: TestFields)
    ensures
        spec_parse_test_member(s, f) matches Some(p) ==> p.1.len() < s.len(),
{
    lemma_parse_text_len(s);
    match spec_parse_text(s) {
        None => {},
        Some((key, s1)) => {
            lemma_parse_exact_len(s1, ":"@);
            match spec_parse_exact(s1, ":"@) {
                None => {},
                Some(s2) => {
                    crate::json::lemma_skip_value_len(s2, s2.len());
                    lemma_parse_text_len(s2);
                    lemma_parse_servers_len(s2);
                },
            }
        },
    }
}

/// The members of a test object, up to the closing brace.
pub open spec fn take_test_members(s: Seq<char>, f: TestFields) -> Option<
    (TestFields, Seq<char>),
>
    decreases s.len()
        via take_test_members_decreases
{
    match spec_parse_test_member(s, f) {
        None => None,
        Some((f2, r)) => if r.len() > 0 && r[0] == ',' {
            take_test_members(r.skip(1), f2)
        } else if r.len() > 0 && r[0] == '}' {
            Some((f2, r.skip(1)))
        } else {
            None
        },
    }
}

#[via_fn]
proof fn take_test_members_decreases(s: Seq<char>, f: TestFields) {
    lemma_parse_test_member_len(s, f);
}

/// Scanning test members strictly shortens the input.
pub proof fn lemma_take_test_members_len(s: Seq<char>, f: TestFields)
    ensures
        take_test_members(s, f) matches Some(p) ==> p.1.len() < s.len(),
    decreases s.len(),
{
    lemma_parse_test_member_len(s, f);
    match spec_parse_test_member(s, f) {
        None => {},
        Some((f2, r)) => {
            if r.len() > 0 && r[0] == ',' {
                lemma_take_test_members_len(r.skip(1), f2);
            }
        },
    }
}

/// Parse a test object: braces around its members, read in any
/// order, each at most once.
#[verifier::opaque]
pub open spec fn spec_parse_test(s: Seq<char>) -> Option<(TestImage, Seq<char>)> {
    match spec_parse_exact(s, "{"@) {
        None => None,
        Some(s1) => match take_test_members(s1, test_fields_empty()) {
            None => None,
            Some((f, r)) => match test_from_fields(f) {
                None => None,
                Some(v) => Some((v, r)),
            },
        },
    }
}

/// A parsed test strictly shortens the input.
pub proof fn lemma_parse_test_len(s: Seq<char>)
    ensures
        spec_parse_test(s) matches Some(p) ==> p.1.len() < s.len(),
{
    reveal(crate::codec::spec_parse_test);
    proof_strlit_brace();
    lemma_parse_exact_len(s, "{"@);
    match spec_parse_exact(s, "{"@) {
        None => {},
        Some(s1) => {
            lemma_take_test_members_len(s1, test_fields_empty());
        },
    }
}

/// What has been read so far of a configuration object's members.
pub ghost struct AppFields {
    pub name: Option<Seq<char>>,
    pub description: Option<Seq<char>>,
    pub tests: Option<Seq<TestImage>>,
}

/// No members of a configuration object read yet.
pub open spec fn app_fields_empty() -> AppFields {
    AppFields { name: None, description: None, tests: None }
}

/// Build the configuration image once the members are read: required
/// members must be present; absent optional members default to `None`.
pub open spec fn app_from_fields(f: AppFields) -> Option<AppImage> {
    if f.name is Some && f.description is Some && f.tests is Some {
        Some(
            AppImage {
                name: f.name->Some_0,
                description: f.description->Some_0,
                tests: f.tests->Some_0,
            },
        )
    } else {
        None
    }
}

/// One member of a configuration object: a known key, a colon, its value;
/// each key at most once, in any order.
pub open spec fn spec_parse_app_member(s: Seq<char>, f: AppFields) -> Option<
    (AppFields, Seq<char>),
> {
    match spec_parse_text(s) {
        None => None,
        Some((key, s1)) => match spec_parse_exact(s1, ":"@) {
            None => None,
            Some(s2) => {
                if key == "name"@ {
                    if f.name is Some {
                        None
                    } else {
                        match spec_parse_text(s2) {
                            None => None,
                            Some(p) => Some((AppFields { name: Some(p.0), description: f.description, tests: f.tests }, p.1)),
                        }
                    }
                } else if key == "description"@ {
                    if f.description is Some {
                        None
                    } else {
                        match spec_parse_text(s2) {
                            None => None,
                            Some(p) => Some((AppFields { name: f.name, description: Some(p.0), tests: f.tests }, p.1)),
                        }
                    }
                } else if key == "tests"@ {
                    if f.tests is Some {
                        None
                    } else {
                        match spec_parse_tests(s2) {
                            None => None,
                            Some(p) => Some((AppFields { name: f.name, description: f.description, tests: Some(p.0) }, p.1)),
                        }
                    }
                } else {
                    match crate::json::spec_skip_value(s2, s2.len()) {
                        None => None,
                        Some(r) => Some((f, r)),
                    }
                }
            },
        },
    }
}

/// A parsed configuration member strictly shortens the input.
pub proof fn lemma_parse_app_member_len(s: Seq<char>, f: AppFields)
    ensures
        spec_parse_app_member(s, f) matches Some(p) ==> p.1.len() < s.len(),
{
    lemma_parse_text_len(s);
    match spec_parse_text(s) {
        None => {},
        Some((key, s1)) => {
            lemma_parse_exact_len(s1, ":"@);
            match spec_parse_exact(s1, ":"@) {
                None => {},
                Some(s2) => {
                    crate::json::lemma_skip_value_len(s2, s2.len());
                    lemma_parse_text_len(s2);
                    lemma_parse_tests_len(s2);
                },
            }
        },
    }
}

/// The members of a configuration object, up to the closing brace.
pub open spec fn take_app_members(s: Seq<char>, f: AppFields) -> Option<
    (AppFields, Seq<char>),
>
    decreases s.len()
        via take_app_members_decreases
{
    match spec_parse_app_member(s, f) {
        None => None,
        Some((f2, r)) => if r.len() > 0 && r[0] == ',' {
            take_app_members(r.skip(1), f2)
        } else if r.len() > 0 && r[0] == '}' {
            Some((f2, r.skip(1)))
        } else {
            None
        },
    }
}

#[via_fn]
proof fn take_app_members_decreases(s: Seq<char>, f: AppFields) {
    lemma_parse_app_member_len(s, f);
}

/// Scanning configuration members strictly shortens the input.
pub proof fn lemma_take_app_members_len(s: Seq<char>, f: AppFields)
    ensures
        take_app_members(s, f) matches Some(p) ==> p.1.len() < s.len(),
    decreases s.len(),
{
    lemma_parse_app_member_len(s, f);
    match spec_parse_app_member(s, f) {
        None => {},
        Some((f2, r)) => {
            if r.len() > 0 && r[0] == ',' {
                lemma_take_app_members_len(r.skip(1), f2);
            }
        },
    }
}

/// Parse a configuration object: braces around its members, read in any
/// order, each at most once.
#[verifier::opaque]
pub open spec fn spec_parse_app(s: Seq<char>) -> Option<(AppImage, Seq<char>)> {
    match spec_parse_exact(s, "{"@) {
        None => None,
        Some(s1) => match take_app_members(s1, app_fields_empty()) {
            None => None,
            Some((f, r)) => match app_from_fields(f) {
                None => None,
                Some(v) => Some((v, r)),
            },
        },
    }
}

/// A parsed configuration strictly shortens the input.
pub proof fn lemma_parse_app_len(s: Seq<char>)
    ensures
        spec_parse_app(s) matches Some(p) ==> p.1.len() < s.len(),
{
    reveal(crate::codec::spec_parse_app);
    proof_strlit_brace();
    lemma_parse_exact_len(s, "{"@);
    match spec_parse_exact(s, "{"@) {
        None => {},
        Some(s1) => {
            lemma_take_app_members_len(s1, app_fields_empty());
        },
    }
}

/// Scanning test elements strictly shortens the input.
pub proof fn lemma_take_test_entries_len(s: Seq<char>, acc: Seq<TestImage>)
    ensures
        take_test_entries(s, acc) matches Some(p) ==> p.1.len() < s.len(),
    decreases s.len(),
{
    lemma_parse_test_len(s);
    match spec_parse_test(s) {
        None => {},
        Some((e, r)) => {
            if r.len() > 0 && r[0] == ',' {
                lemma_take_test_entries_len(r.skip(1), acc.push(e));
            }
        },
    }
}

/// A parsed test array strictly shortens the input.
pub proof fn lemma_parse_tests_len(s: Seq<char>)
    ensures
        spec_parse_tests(s) matches Some(p) ==> p.1.len() < s.len(),
{
    reveal(crate::codec::spec_parse_tests);
    proof_strlit_brace();
    lemma_parse_exact_len(s, "["@);
    match spec_parse_exact(s, "["@) {
        None => {},
        Some(s1) => {
            lemma_take_test_entries_len(s1, Seq::empty());
        },
    }
}







/// Parse an optional mock response: `null`, or its object.
pub open spec fn spec_parse_opt_mock(s: Seq<char>) -> Option<
    (Option<MockResponseImage>, Seq<char>),
> {
    if s.len() > 0 && s[0] == 'n' {
        match spec_parse_exact(s, "null"@) {
            Some(r) => Some((None, r)),
            None => None,
        }
    } else {
        match spec_parse_mock(s) {
            Some(p) => Some((Some(p.0), p.1)),
            None => None,
        }
    }
}

/// Parse an optional route: `null`, or its object.
pub open spec fn spec_parse_opt_route(s: Seq<char>) -> Option<(Option<RouteImage>, Seq<char>)> {
    if s.len() > 0 && s[0] == 'n' {
        match spec_parse_exact(s, "null"@) {
            Some(r) => Some((None, r)),
            None => None,
        }
    } else {
        match spec_parse_route(s) {
            Some(p) => Some((Some(p.0), p.1)),
            None => None,
        }
    }
}

/// Parse optional TLS material: `null`, or its object.
pub open spec fn spec_parse_opt_https(s: Seq<char>) -> Option<(Option<HttpsImage>, Seq<char>)> {
    if s.len() > 0 && s[0] == 'n' {
        match spec_parse_exact(s, "null"@) {
            Some(r) => Some((None, r)),
            None => None,
        }
    } else {
        match spec_parse_https(s) {
            Some(p) => Some((Some(p.0), p.1)),
            None => None,
        }
    }
}

/// An optional mock response strictly shortens the input.
pub proof fn lemma_parse_opt_mock_len(s: Seq<char>)
    ensures
        spec_parse_opt_mock(s) matches Some(p) ==> p.1.len() < s.len(),
{
    proof_strlit_brace();
    lemma_parse_exact_len(s, "null"@);
    lemma_parse_mock_len(s);
}

/// An optional route strictly shortens the input.
pub proof fn lemma_parse_opt_route_len(s: Seq<char>)
    ensures
        spec_parse_opt_route(s) matches Some(p) ==> p.1.len() < s.len(),
{
    proof_strlit_brace();
    lemma_parse_exact_len(s, "null"@);
    lemma_parse_route_len(s);
}

/// Optional TLS material strictly shortens the input.
pub proof fn lemma_parse_opt_https_len(s: Seq<char>)
    ensures
        spec_parse_opt_https(s) matches Some(p) ==> p.1.len() < s.len(),
{
    proof_strlit_brace();
    lemma_parse_exact_len(s, "null"@);
    lemma_parse_https_len(s);
}




/// Parse the elements of a non-empty endpoint array, up to the closing
/// bracket.
pub open spec fn take_endpoint_entries(s: Seq<char>, acc: Seq<EndpointImage>) -> Option<
    (Seq<EndpointImage>, Seq<char>),
>
    decreases s.len()
        via take_endpoint_entries_decreases
{
    match spec_parse_endpoint(s) {
        None => None,
        Some((e, r)) => if r.len() > 0 && r[0] == ',' {
            take_endpoint_entries(r.skip(1), acc.push(e))
        } else if r.len() > 0 && r[0] == ']' {
            Some((acc.push(e), r.skip(1)))
        } else {
            None
        },
    }
}

#[via_fn]
proof fn take_endpoint_entries_decreases(s: Seq<char>, acc: Seq<EndpointImage>) {
    lemma_parse_endpoint_len(s);
}

/// Parse an endpoint array.
#[verifier::opaque]
pub open spec fn spec_parse_endpoints(s: Seq<char>) -> Option<(Seq<EndpointImage>, Seq<char>)> {
    match spec_parse_exact(s, "["@) {
        None => None,
        Some(s1) => if s1.len() > 0 && s1[0] == ']' {
            Some((Seq::empty(), s1.skip(1)))
        } else {
            take_endpoint_entries(s1, Seq::empty())
        },
    }
}

/// Scanning endpoint elements strictly shortens the input.
pub proof fn lemma_take_endpoint_entries_len(s: Seq<char>, acc: Seq<EndpointImage>)
    ensures
        take_endpoint_entries(s, acc) matches Some(p) ==> p.1.len() < s.len(),
    decreases s.len(),
{
    lemma_parse_endpoint_len(s);
    match spec_parse_endpoint(s) {
        None => {},
        Some((e, r)) => {
            if r.len() > 0 && r[0] == ',' {
                lemma_take_endpoint_entries_len(r.skip(1), acc.push(e));
            }
        },
    }
}

/// A parsed endpoint array strictly shortens the input.
pub proof fn lemma_parse_endpoints_len(s: Seq<char>)
    ensures
        spec_parse_endpoints(s) matches Some(p) ==> p.1.len() < s.len(),
{
    reveal(crate::codec::spec_parse_endpoints);
    proof_strlit_brace();
    lemma_parse_exact_len(s, "["@);
    match spec_parse_exact(s, "["@) {
        None => {},
        Some(s1) => {
            lemma_take_endpoint_entries_len(s1, Seq::empty());
        },
    }
}




/// Parse the elements of a non-empty server array, up to the closing
/// bracket.
pub open spec fn take_server_entries(s: Seq<char>, acc: Seq<ServerImage>) -> Option<
    (Seq<ServerImage>, Seq<char>),
>
    decreases s.len()
        via take_server_entries_decreases
{
    match spec_parse_server(s) {
        None => None,
        Some((e, r)) => if r.len() > 0 && r[0] == ',' {
            take_server_entries(r.skip(1), acc.push(e))
        } else if r.len() > 0 && r[0] == ']' {
            Some((acc.push(e), r.skip(1)))
        } else {
            None
        },
    }
}

#[via_fn]
proof fn take_server_entries_decreases(s: Seq<char>, acc: Seq<ServerImage>) {
    lemma_parse_server_len(s);
}

/// Parse a server array.
#[verifier::opaque]
pub open spec fn spec_parse_servers(s: Seq<char>) -> Option<(Seq<ServerImage>, Seq<char>)> {
    match spec_parse_exact(s, "["@) {
        None => None,
        Some(s1) => if s1.len() > 0 && s1[0] == ']' {
            Some((Seq::empty(), s1.skip(1)))
        } else {
            take_server_entries(s1, Seq::empty())
        },
    }
}

/// Scanning server elements strictly shortens the input.
pub proof fn lemma_take_server_entries_len(s: Seq<char>, acc: Seq<ServerImage>)
    ensures
        take_server_entries(s, acc) matches Some(p) ==> p.1.len() < s.len(),
    decreases s.len(),
{
    lemma_parse_server_len(s);
    match spec_parse_server(s) {
        None => {},
        Some((e, r)) => {
            if r.len() > 0 && r[0] == ',' {
                lemma_take_server_entries_len(r.skip(1), acc.push(e));
            }
        },
    }
}

/// A parsed server array strictly shortens the input.
pub proof fn lemma_parse_servers_len(s: Seq<char>)
    ensures
        spec_parse_servers(s) matches Some(p) ==> p.1.len() < s.len(),
{
    reveal(crate::codec::spec_parse_servers);
    proof_strlit_brace();
    lemma_parse_exact_len(s, "["@);
    match spec_parse_exact(s, "["@) {
        None => {},
        Some(s1) => {
            lemma_take_server_entries_len(s1, Seq::empty());
        },
    }
}



/// Parse the elements of a non-empty test array, up to the closing
/// bracket.
pub open spec fn take_test_entries(s: Seq<char>, acc: Seq<TestImage>) -> Option<
    (Seq<TestImage>, Seq<char>),
>
    decreases s.len()
        via take_test_entries_decreases
{
    match spec_parse_test(s) {
        None => None,
        Some((e, r)) => if r.len() > 0 && r[0] == ',' {
            take_test_entries(r.skip(1), acc.push(e))
        } else if r.len() > 0 && r[0] == ']' {
            Some((acc.push(e), r.skip(1)))
        } else {
            None
        },
    }
}

#[via_fn]
proof fn take_test_entries_decreases(s: Seq<char>, acc: Seq<TestImage>) {
    lemma_parse_test_len(s);
}

/// Parse a test array.
#[verifier::opaque]
pub open spec fn spec_parse_tests(s: Seq<char>) -> Option<(Seq<TestImage>, Seq<char>)> {
    match spec_parse_exact(s, "["@) {
        None => None,
        Some(s1) => if s1.len() > 0 && s1[0] == ']' {
            Some((Seq::empty(), s1.skip(1)))
        } else {
            take_test_entries(s1, Seq::empty())
        },
    }
}


// ---------------------------------------------------------------------
// round trips: parsing a rendered piece yields the piece back
// ---------------------------------------------------------------------

/// A rendered text starts with a quote.
pub proof fn lemma_render_text_first(t: Seq<char>)
    ensures
        render_text(t).len() >= 2,
        render_text(t)[0] == '"',
{
}

/// Parsing an optional text off its rendering yields it back.
pub proof fn lemma_parse_opt_text_render(o: Option<Seq<char>>, rest: Seq<char>)
    ensures
        spec_parse_opt_text(render_opt_text(o) + rest) == Some((o, rest)),
{
    reveal_strlit("null");
    let input = render_opt_text(o) + rest;
    match o {
        None => {
            assert(input[0] == 'n');
            crate::json::lemma_parse_exact_render("null"@, rest);
        },
        Some(t) => {
            lemma_render_text_first(t);
            assert(input[0] == '"');
            crate::json::lemma_parse_text_render(t, rest);
        },
    }
}

/// Parsing a rendered `u16` yields it back when no digit follows.
pub proof fn lemma_parse_u16_render(n: u16, rest: Seq<char>)
    requires
        rest.len() == 0 || !crate::json::is_decimal_digit(rest[0]),
    ensures
        spec_parse_u16_value(render_number(n as nat) + rest) == Some((n, rest)),
{
    crate::json::lemma_parse_number_render(n as nat, rest);
}

/// Parsing a rendered `u64` yields it back when no digit follows.
pub proof fn lemma_parse_u64_render(n: u64, rest: Seq<char>)
    requires
        rest.len() == 0 || !crate::json::is_decimal_digit(rest[0]),
    ensures
        spec_parse_u64_value(render_number(n as nat) + rest) == Some((n, rest)),
{
    crate::json::lemma_parse_number_render(n as nat, rest);
}

/// Parsing an optional port off its rendering yields it back when no
/// digit follows.
pub proof fn lemma_parse_opt_u16_render(o: Option<u16>, rest: Seq<char>)
    requires
        rest.len() == 0 || !crate::json::is_decimal_digit(rest[0]),
    ensures
        spec_parse_opt_u16(render_opt_u16(o) + rest) == Some((o, rest)),
{
    reveal_strlit("null");
    let input = render_opt_u16(o) + rest;
    match o {
        None => {
            assert(input[0] == 'n');
            crate::json::lemma_parse_exact_render("null"@, rest);
        },
        Some(n) => {
            crate::json::lemma_render_number_first(n as nat);
            assert(input[0] == render_number(n as nat)[0]);
            assert(input[0] != 'n');
            lemma_parse_u16_render(n, rest);
        },
    }
}

/// Parsing a header member off its rendering yields it back.
pub proof fn lemma_parse_header_entry_render(kv: (Seq<char>, Seq<char>), rest: Seq<char>)
    ensures
        spec_parse_header_entry(render_header_entry(kv) + rest) == Some((kv, rest)),
{
    let x1 = ":"@ + (render_text(kv.1) + rest);
    assert(render_header_entry(kv) + rest =~= render_text(kv.0) + x1);
    crate::json::lemma_parse_text_render(kv.0, x1);
    crate::json::lemma_parse_exact_render(":"@, render_text(kv.1) + rest);
    crate::json::lemma_parse_text_render(kv.1, rest);
}

/// Scanning rendered header members collects them all back.
pub proof fn lemma_take_header_entries_render(
    h: Seq<(Seq<char>, Seq<char>)>,
    acc: Seq<(Seq<char>, Seq<char>)>,
    rest: Seq<char>,
)
    requires
        h.len() >= 1,
    ensures
        take_header_entries(render_header_entries(h) + (seq!['}'] + rest), acc) == Some(
            (acc + h, rest),
        ),
    decreases h.len(),
{
    reveal_strlit(",");
    if h.len() == 1 {
        let close = seq!['}'] + rest;
        lemma_parse_header_entry_render(h[0], close);
        assert(render_header_entries(h) + close =~= render_header_entry(h[0]) + close);
        assert(close.skip(1) =~= rest);
        assert(acc.push(h[0]) =~= acc + h);
    } else {
        let tail = h.skip(1);
        let cont = ","@ + (render_header_entries(tail) + (seq!['}'] + rest));
        assert(render_header_entries(h) + (seq!['}'] + rest) =~= render_header_entry(h[0])
            + cont);
        lemma_parse_header_entry_render(h[0], cont);
        assert(cont[0] == ',');
        assert(cont.skip(1) =~= render_header_entries(tail) + (seq!['}'] + rest));
        lemma_take_header_entries_render(tail, acc.push(h[0]), rest);
        assert(acc.push(h[0]) + tail =~= acc + h);
    }
}

/// Parsing a header object off its rendering yields the list back.
pub proof fn lemma_parse_headers_render(h: Seq<(Seq<char>, Seq<char>)>, rest: Seq<char>)
    ensures
        spec_parse_headers(render_headers(h) + rest) == Some((h, rest)),
{
    reveal(crate::codec::spec_parse_headers);
    reveal_strlit("{");
    reveal_strlit("}");
    reveal_strlit("{}");
    let input = render_headers(h) + rest;
    if h.len() == 0 {
        assert(input =~= "{"@ + (seq!['}'] + rest));
        crate::json::lemma_parse_exact_render("{"@, seq!['}'] + rest);
        assert((seq!['}'] + rest).skip(1) =~= rest);
        assert(Seq::<(Seq<char>, Seq<char>)>::empty() =~= h);
    } else {
        let body = render_header_entries(h) + (seq!['}'] + rest);
        assert(input =~= "{"@ + body);
        crate::json::lemma_parse_exact_render("{"@, body);
        lemma_render_text_first(h[0].0);
        assert(render_header_entries(h)[0] == render_header_entry(h[0])[0]);
        assert(render_header_entry(h[0])[0] == render_text(h[0].0)[0]);
        assert(body[0] == '"');
        lemma_take_header_entries_render(h, Seq::empty(), rest);
        assert(Seq::<(Seq<char>, Seq<char>)>::empty() + h =~= h);
    }
}

/// A quoted key name parses as a JSON string, yielding the name.
proof fn lemma_parse_plain_key(w: Seq<char>, rest: Seq<char>)
    requires
        forall|i: int|
            0 <= i < w.len() ==> #[trigger] w[i] != '"' && w[i] != '\\' && (w[i] as u32) >= 32,
    ensures
        spec_parse_text((seq!['"'] + (w + seq!['"'])) + rest) == Some((w, rest)),
{
    crate::json::lemma_escape_text_id(w);
    assert(render_text(w) =~= seq!['"'] + (w + seq!['"']));
    crate::json::lemma_parse_text_render(w, rest);
}

/// The rendered mock object, laid out member by member.
#[verifier::rlimit(100)]
proof fn lemma_render_mock_shape(m: MockResponseImage, rest: Seq<char>)
    ensures
        render_mock(m) + rest == "{"@ + ((seq!['"'] + ("response"@ + seq!['"'])) + (":"@ + (render_opt_text(m.response) + (seq![','] + ((seq!['"'] + ("status"@ + seq!['"'])) + (":"@ + (render_number(m.status as nat) + (seq![','] + ((seq!['"'] + ("headers"@ + seq!['"'])) + (":"@ + (render_headers(m.headers) + (seq![','] + ((seq!['"'] + ("delay"@ + seq!['"'])) + (":"@ + (render_number(m.delay as nat) + (seq!['}'] + rest)))))))))))))))),
{
    reveal(crate::codec::render_mock);
    reveal_strlit("{");
    reveal_strlit(":");
    reveal_strlit("{\"response\":");
    reveal_strlit("response");
    reveal_strlit(",\"status\":");
    reveal_strlit("status");
    reveal_strlit(",\"headers\":");
    reveal_strlit("headers");
    reveal_strlit(",\"delay\":");
    reveal_strlit("delay");
    reveal_strlit("}");
    assert(render_mock(m) + rest =~= "{"@ + ((seq!['"'] + ("response"@ + seq!['"'])) + (":"@ + (render_opt_text(m.response) + (seq![','] + ((seq!['"'] + ("status"@ + seq!['"'])) + (":"@ + (render_number(m.status as nat) + (seq![','] + ((seq!['"'] + ("headers"@ + seq!['"'])) + (":"@ + (render_headers(m.headers) + (seq![','] + ((seq!['"'] + ("delay"@ + seq!['"'])) + (":"@ + (render_number(m.delay as nat) + (seq!['}'] + rest)))))))))))))))));
}

/// The rendered https object, laid out member by member.
#[verifier::rlimit(100)]
proof fn lemma_render_https_shape(h: HttpsImage, rest: Seq<char>)
    ensures
        render_https(h) + rest == "{"@ + ((seq!['"'] + ("serverCertificate"@ + seq!['"'])) + (":"@ + (render_text(h.server_certificate) + (seq![','] + ((seq!['"'] + ("privateKey"@ + seq!['"'])) + (":"@ + (render_text(h.private_key) + (seq![','] + ((seq!['"'] + ("httpsPort"@ + seq!['"'])) + (":"@ + (render_number(h.https_port as nat) + (seq!['}'] + rest)))))))))))),
{
    reveal(crate::codec::render_https);
    reveal_strlit("{");
    reveal_strlit(":");
    reveal_strlit("{\"serverCertificate\":");
    reveal_strlit("serverCertificate");
    reveal_strlit(",\"privateKey\":");
    reveal_strlit("privateKey");
    reveal_strlit(",\"httpsPort\":");
    reveal_strlit("httpsPort");
    reveal_strlit("}");
    assert(render_https(h) + rest =~= "{"@ + ((seq!['"'] + ("serverCertificate"@ + seq!['"'])) + (":"@ + (render_text(h.server_certificate) + (seq![','] + ((seq!['"'] + ("privateKey"@ + seq!['"'])) + (":"@ + (render_text(h.private_key) + (seq![','] + ((seq!['"'] + ("httpsPort"@ + seq!['"'])) + (":"@ + (render_number(h.https_port as nat) + (seq!['}'] + rest)))))))))))));
}

/// The rendered endpoint object, laid out member by member.
#[verifier::rlimit(100)]
proof fn lemma_render_endpoint_shape(e: EndpointImage, rest: Seq<char>)
    ensures
        render_endpoint(e) + rest == "{"@ + ((seq!['"'] + ("id"@ + seq!['"'])) + (":"@ + (render_text(e.id) + (seq![','] + ((seq!['"'] + ("endpoint"@ + seq!['"'])) + (":"@ + (render_text(e.endpoint) + (seq![','] + ((seq!['"'] + ("method"@ + seq!['"'])) + (":"@ + (render_text(e.method) + (seq![','] + ((seq!['"'] + ("soapAction"@ + seq!['"'])) + (":"@ + (render_opt_text(e.soap_action) + (seq![','] + ((seq!['"'] + ("mockResponse"@ + seq!['"'])) + (":"@ + (render_opt_mock(e.mock_response) + (seq![','] + ((seq!['"'] + ("route"@ + seq!['"'])) + (":"@ + (render_opt_route(e.route) + (seq!['}'] + rest)))))))))))))))))))))))),
{
    reveal(crate::codec::render_endpoint);
    reveal_strlit("{");
    reveal_strlit(":");
    reveal_strlit("{\"id\":");
    reveal_strlit("id");
    reveal_strlit(",\"endpoint\":");
    reveal_strlit("endpoint");
    reveal_strlit(",\"method\":");
    reveal_strlit("method");
    reveal_strlit(",\"soapAction\":");
    reveal_strlit("soapAction");
    reveal_strlit(",\"mockResponse\":");
    reveal_strlit("mockResponse");
    reveal_strlit(",\"route\":");
    reveal_strlit("route");
    reveal_strlit("}");
    assert(render_endpoint(e) + rest =~= "{"@ + ((seq!['"'] + ("id"@ + seq!['"'])) + (":"@ + (render_text(e.id) + (seq![','] + ((seq!['"'] + ("endpoint"@ + seq!['"'])) + (":"@ + (render_text(e.endpoint) + (seq![','] + ((seq!['"'] + ("method"@ + seq!['"'])) + (":"@ + (render_text(e.method) + (seq![','] + ((seq!['"'] + ("soapAction"@ + seq!['"'])) + (":"@ + (render_opt_text(e.soap_action) + (seq![','] + ((seq!['"'] + ("mockResponse"@ + seq!['"'])) + (":"@ + (render_opt_mock(e.mock_response) + (seq![','] + ((seq!['"'] + ("route"@ + seq!['"'])) + (":"@ + (render_opt_route(e.route) + (seq!['}'] + rest)))))))))))))))))))))))));
}

/// The rendered server object, laid out member by member.
#[verifier::rlimit(100)]
proof fn lemma_render_server_shape(s: ServerImage, rest: Seq<char>)
    ensures
        render_server(s) + rest == "{"@ + ((seq!['"'] + ("id"@ + seq!['"'])) + (":"@ + (render_text(s.id) + (seq![','] + ((seq!['"'] + ("name"@ + seq!['"'])) + (":"@ + (render_text(s.name) + (seq![','] + ((seq!['"'] + ("httpPort"@ + seq!['"'])) + (":"@ + (render_opt_u16(s.http_port) + (seq![','] + ((seq!['"'] + ("endpoints"@ + seq!['"'])) + (":"@ + (render_endpoints(s.endpoints) + (seq![','] + ((seq!['"'] + ("httpsConfig"@ + seq!['"'])) + (":"@ + (render_opt_https(s.https_config) + (seq!['}'] + rest)))))))))))))))))))),
{
    reveal(crate::codec::render_server);
    reveal_strlit("{");
    reveal_strlit(":");
    reveal_strlit("{\"id\":");
    reveal_strlit("id");
    reveal_strlit(",\"name\":");
    reveal_strlit("name");
    reveal_strlit(",\"httpPort\":");
    reveal_strlit("httpPort");
    reveal_strlit(",\"endpoints\":");
    reveal_strlit("endpoints");
    reveal_strlit(",\"httpsConfig\":");
    reveal_strlit("httpsConfig");
    reveal_strlit("}");
    assert(render_server(s) + rest =~= "{"@ + ((seq!['"'] + ("id"@ + seq!['"'])) + (":"@ + (render_text(s.id) + (seq![','] + ((seq!['"'] + ("name"@ + seq!['"'])) + (":"@ + (render_text(s.name) + (seq![','] + ((seq!['"'] + ("httpPort"@ + seq!['"'])) + (":"@ + (render_opt_u16(s.http_port) + (seq![','] + ((seq!['"'] + ("endpoints"@ + seq!['"'])) + (":"@ + (render_endpoints(s.endpoints) + (seq![','] + ((seq!['"'] + ("httpsConfig"@ + seq!['"'])) + (":"@ + (render_opt_https(s.https_config) + (seq!['}'] + rest)))))))))))))))))))));
}

/// The rendered test object, laid out member by member.
#[verifier::rlimit(100)]
proof fn lemma_render_test_shape(t: TestImage, rest: Seq<char>)
    ensures
        render_test(t) + rest == "{"@ + ((seq!['"'] + ("id"@ + seq!['"'])) + (":"@ + (render_text(t.id) + (seq![','] + ((seq!['"'] + ("name"@ + seq!['"'])) + (":"@ + (render_text(t.name) + (seq![','] + ((seq!['"'] + ("description"@ + seq!['"'])) + (":"@ + (render_text(t.description) + (seq![','] + ((seq!['"'] + ("servers"@ + seq!['"'])) + (":"@ + (render_servers(t.servers) + (seq!['}'] + rest)))))))))))))))),
{
    reveal(crate::codec::render_test);
    reveal_strlit("{");
    reveal_strlit(":");
    reveal_strlit("{\"id\":");
    reveal_strlit("id");
    reveal_strlit(",\"name\":");
    reveal_strlit("name");
    reveal_strlit(",\"description\":");
    reveal_strlit("description");
    reveal_strlit(",\"servers\":");
    reveal_strlit("servers");
    reveal_strlit("}");
    assert(render_test(t) + rest =~= "{"@ + ((seq!['"'] + ("id"@ + seq!['"'])) + (":"@ + (render_text(t.id) + (seq![','] + ((seq!['"'] + ("name"@ + seq!['"'])) + (":"@ + (render_text(t.name) + (seq![','] + ((seq!['"'] + ("description"@ + seq!['"'])) + (":"@ + (render_text(t.description) + (seq![','] + ((seq!['"'] + ("servers"@ + seq!['"'])) + (":"@ + (render_servers(t.servers) + (seq!['}'] + rest)))))))))))))))));
}

/// The rendered configuration object, laid out member by member.
#[verifier::rlimit(100)]
proof fn lemma_render_app_shape(a: AppImage, rest: Seq<char>)
    ensures
        render_app(a) + rest == "{"@ + ((seq!['"'] + ("name"@ + seq!['"'])) + (":"@ + (render_text(a.name) + (seq![','] + ((seq!['"'] + ("description"@ + seq!['"'])) + (":"@ + (render_text(a.description) + (seq![','] + ((seq!['"'] + ("tests"@ + seq!['"'])) + (":"@ + (render_tests(a.tests) + (seq!['}'] + rest)))))))))))),
{
    reveal_strlit("{");
    reveal_strlit(":");
    reveal_strlit("{\"name\":");
    reveal_strlit("name");
    reveal_strlit(",\"description\":");
    reveal_strlit("description");
    reveal_strlit(",\"tests\":");
    reveal_strlit("tests");
    reveal_strlit("}");
    assert(render_app(a) + rest =~= "{"@ + ((seq!['"'] + ("name"@ + seq!['"'])) + (":"@ + (render_text(a.name) + (seq![','] + ((seq!['"'] + ("description"@ + seq!['"'])) + (":"@ + (render_text(a.description) + (seq![','] + ((seq!['"'] + ("tests"@ + seq!['"'])) + (":"@ + (render_tests(a.tests) + (seq!['}'] + rest)))))))))))));
}

/// Parsing a mock response off its rendering yields it back.
#[verifier::rlimit(100)]
pub proof fn lemma_parse_mock_render(m: MockResponseImage, rest: Seq<char>)
    ensures
        spec_parse_mock(render_mock(m) + rest) == Some((m, rest)),
{
    reveal(crate::codec::spec_parse_mock);
    reveal_with_fuel(take_mock_members, 6);
    reveal(crate::codec::render_mock);
    reveal_strlit("{");
    reveal_strlit(":");
    reveal_strlit("{\"response\":");
    reveal_strlit("response");
    reveal_strlit(",\"status\":");
    reveal_strlit("status");
    reveal_strlit(",\"headers\":");
    reveal_strlit("headers");
    reveal_strlit(",\"delay\":");
    reveal_strlit("delay");
    reveal_strlit("}");
    let y4 = seq!['}'] + rest;
    let w4 = (seq!['"'] + ("delay"@ + seq!['"'])) + (":"@ + (render_number(m.delay as nat) + y4));
    let y3 = seq![','] + w4;
    let w3 = (seq!['"'] + ("headers"@ + seq!['"'])) + (":"@ + (render_headers(m.headers) + y3));
    let y2 = seq![','] + w3;
    let w2 = (seq!['"'] + ("status"@ + seq!['"'])) + (":"@ + (render_number(m.status as nat) + y2));
    let y1 = seq![','] + w2;
    let w1 = (seq!['"'] + ("response"@ + seq!['"'])) + (":"@ + (render_opt_text(m.response) + y1));
    lemma_render_mock_shape(m, rest);
    assert(render_mock(m) + rest == "{"@ + w1);
    crate::json::lemma_parse_exact_render("{"@, w1);
    lemma_parse_plain_key("response"@, ":"@ + (render_opt_text(m.response) + y1));
    crate::json::lemma_parse_exact_render(":"@, render_opt_text(m.response) + y1);
    lemma_parse_opt_text_render(m.response, y1);
    assert(y1[0] == ',');
    assert(y1.skip(1) =~= w2);
    lemma_parse_plain_key("status"@, ":"@ + (render_number(m.status as nat) + y2));
    crate::json::lemma_parse_exact_render(":"@, render_number(m.status as nat) + y2);
    assert(y2[0] == ',');
    lemma_parse_u16_render(m.status, y2);
    assert(y2.skip(1) =~= w3);
    lemma_parse_plain_key("headers"@, ":"@ + (render_headers(m.headers) + y3));
    crate::json::lemma_parse_exact_render(":"@, render_headers(m.headers) + y3);
    lemma_parse_headers_render(m.headers, y3);
    assert(y3[0] == ',');
    assert(y3.skip(1) =~= w4);
    lemma_parse_plain_key("delay"@, ":"@ + (render_number(m.delay as nat) + y4));
    crate::json::lemma_parse_exact_render(":"@, render_number(m.delay as nat) + y4);
    assert(y4[0] == '}');
    lemma_parse_u64_render(m.delay, y4);
    assert(y4.skip(1) =~= rest);
}

/// Parsing a route off its rendering yields it back.
#[verifier::rlimit(100)]
pub proof fn lemma_parse_route_render(r: RouteImage, rest: Seq<char>)
    ensures
        spec_parse_route(render_route(r) + rest) == Some((r, rest)),
{
    reveal(crate::codec::spec_parse_route);
    reveal_with_fuel(take_route_members, 3);
    reveal(crate::codec::render_route);
    reveal_strlit("{");
    reveal_strlit(":");
    reveal_strlit("{\"endpoint\":");
    reveal_strlit("endpoint");
    reveal_strlit("}");
    let y1 = seq!['}'] + rest;
    let w1 = (seq!['"'] + ("endpoint"@ + seq!['"'])) + (":"@ + (render_text(r.endpoint) + y1));
    assert(render_route(r) + rest =~= "{"@ + w1);
    crate::json::lemma_parse_exact_render("{"@, w1);
    lemma_parse_plain_key("endpoint"@, ":"@ + (render_text(r.endpoint) + y1));
    crate::json::lemma_parse_exact_render(":"@, render_text(r.endpoint) + y1);
    crate::json::lemma_parse_text_render(r.endpoint, y1);
    assert(y1[0] == '}');
    assert(y1.skip(1) =~= rest);
}

/// Parsing a TLS configuration off its rendering yields it back.
#[verifier::rlimit(100)]
pub proof fn lemma_parse_https_render(h: HttpsImage, rest: Seq<char>)
    ensures
        spec_parse_https(render_https(h) + rest) == Some((h, rest)),
{
    reveal(crate::codec::spec_parse_https);
    reveal_with_fuel(take_https_members, 5);
    reveal(crate::codec::render_https);
    reveal_strlit("{");
    reveal_strlit(":");
    reveal_strlit("{\"serverCertificate\":");
    reveal_strlit("serverCertificate");
    reveal_strlit(",\"privateKey\":");
    reveal_strlit("privateKey");
    reveal_strlit(",\"httpsPort\":");
    reveal_strlit("httpsPort");
    reveal_strlit("}");
    let y3 = seq!['}'] + rest;
    let w3 = (seq!['"'] + ("httpsPort"@ + seq!['"'])) + (":"@ + (render_number(h.https_port as nat) + y3));
    let y2 = seq![','] + w3;
    let w2 = (seq!['"'] + ("privateKey"@ + seq!['"'])) + (":"@ + (render_text(h.private_key) + y2));
    let y1 = seq![','] + w2;
    let w1 = (seq!['"'] + ("serverCertificate"@ + seq!['"'])) + (":"@ + (render_text(h.server_certificate) + y1));
    lemma_render_https_shape(h, rest);
    assert(render_https(h) + rest == "{"@ + w1);
    crate::json::lemma_parse_exact_render("{"@, w1);
    lemma_parse_plain_key("serverCertificate"@, ":"@ + (render_text(h.server_certificate) + y1));
    crate::json::lemma_parse_exact_render(":"@, render_text(h.server_certificate) + y1);
    crate::json::lemma_parse_text_render(h.server_certificate, y1);
    assert(y1[0] == ',');
    assert(y1.skip(1) =~= w2);
    lemma_parse_plain_key("privateKey"@, ":"@ + (render_text(h.private_key) + y2));
    crate::json::lemma_parse_exact_render(":"@, render_text(h.private_key) + y2);
    crate::json::lemma_parse_text_render(h.private_key, y2);
    assert(y2[0] == ',');
    assert(y2.skip(1) =~= w3);
    lemma_parse_plain_key("httpsPort"@, ":"@ + (render_number(h.https_port as nat) + y3));
    crate::json::lemma_parse_exact_render(":"@, render_number(h.https_port as nat) + y3);
    assert(y3[0] == '}');
    lemma_parse_u16_render(h.https_port, y3);
    assert(y3.skip(1) =~= rest);
}

/// The later members of a rendered endpoint, from `soapAction` on.
#[verifier::rlimit(100)]
proof fn lemma_parse_endpoint_render_tail(e: EndpointImage, rest: Seq<char>)
    ensures
        take_endpoint_members(((seq!['"'] + ("soapAction"@ + seq!['"'])) + (":"@ + (render_opt_text(e.soap_action) + (seq![','] + ((seq!['"'] + ("mockResponse"@ + seq!['"'])) + (":"@ + (render_opt_mock(e.mock_response) + (seq![','] + ((seq!['"'] + ("route"@ + seq!['"'])) + (":"@ + (render_opt_route(e.route) + (seq!['}'] + rest)))))))))))), EndpointFields { id: Some(e.id), endpoint: Some(e.endpoint), method: Some(e.method), soap_action: None, mock_response: None, route: None }) == Some((
            EndpointFields { id: Some(e.id), endpoint: Some(e.endpoint), method: Some(e.method), soap_action: Some(e.soap_action), mock_response: Some(e.mock_response), route: Some(e.route) },
            rest,
        )),
{
    reveal_with_fuel(take_endpoint_members, 5);
    reveal_strlit(":");
    reveal_strlit("id");
    reveal_strlit("endpoint");
    reveal_strlit("method");
    reveal_strlit("soapAction");
    reveal_strlit("mockResponse");
    reveal_strlit("route");
    let y6 = seq!['}'] + rest;
    let w6 = (seq!['"'] + ("route"@ + seq!['"'])) + (":"@ + (render_opt_route(e.route) + y6));
    let y5 = seq![','] + w6;
    let w5 = (seq!['"'] + ("mockResponse"@ + seq!['"'])) + (":"@ + (render_opt_mock(e.mock_response) + y5));
    let y4 = seq![','] + w5;
    let w4 = (seq!['"'] + ("soapAction"@ + seq!['"'])) + (":"@ + (render_opt_text(e.soap_action) + y4));
    lemma_parse_plain_key("soapAction"@, ":"@ + (render_opt_text(e.soap_action) + y4));
    crate::json::lemma_parse_exact_render(":"@, render_opt_text(e.soap_action) + y4);
    lemma_parse_opt_text_render(e.soap_action, y4);
    assert(y4[0] == ',');
    assert(y4.skip(1) =~= w5);
    lemma_parse_plain_key("mockResponse"@, ":"@ + (render_opt_mock(e.mock_response) + y5));
    crate::json::lemma_parse_exact_render(":"@, render_opt_mock(e.mock_response) + y5);
    lemma_parse_opt_mock_render(e.mock_response, y5);
    assert(y5[0] == ',');
    assert(y5.skip(1) =~= w6);
    lemma_parse_plain_key("route"@, ":"@ + (render_opt_route(e.route) + y6));
    crate::json::lemma_parse_exact_render(":"@, render_opt_route(e.route) + y6);
    lemma_parse_opt_route_render(e.route, y6);
    assert(y6[0] == '}');
    assert(y6.skip(1) =~= rest);
}
/// Parsing an endpoint off its rendering yields it back.
#[verifier::rlimit(100)]
pub proof fn lemma_parse_endpoint_render(e: EndpointImage, rest: Seq<char>)
    ensures
        spec_parse_endpoint(render_endpoint(e) + rest) == Some((e, rest)),
{
    reveal(crate::codec::spec_parse_endpoint);
    reveal_with_fuel(take_endpoint_members, 5);
    reveal(crate::codec::render_endpoint);
    reveal_strlit("{");
    reveal_strlit(":");
    reveal_strlit("{\"id\":");
    reveal_strlit("id");
    reveal_strlit(",\"endpoint\":");
    reveal_strlit("endpoint");
    reveal_strlit(",\"method\":");
    reveal_strlit("method");
    reveal_strlit(",\"soapAction\":");
    reveal_strlit("soapAction");
    reveal_strlit(",\"mockResponse\":");
    reveal_strlit("mockResponse");
    reveal_strlit(",\"route\":");
    reveal_strlit("route");
    reveal_strlit("}");
    let y6 = seq!['}'] + rest;
    let w6 = (seq!['"'] + ("route"@ + seq!['"'])) + (":"@ + (render_opt_route(e.route) + y6));
    let y5 = seq![','] + w6;
    let w5 = (seq!['"'] + ("mockResponse"@ + seq!['"'])) + (":"@ + (render_opt_mock(e.mock_response) + y5));
    let y4 = seq![','] + w5;
    let w4 = (seq!['"'] + ("soapAction"@ + seq!['"'])) + (":"@ + (render_opt_text(e.soap_action) + y4));
    let y3 = seq![','] + w4;
    let w3 = (seq!['"'] + ("method"@ + seq!['"'])) + (":"@ + (render_text(e.method) + y3));
    let y2 = seq![','] + w3;
    let w2 = (seq!['"'] + ("endpoint"@ + seq!['"'])) + (":"@ + (render_text(e.endpoint) + y2));
    let y1 = seq![','] + w2;
    let w1 = (seq!['"'] + ("id"@ + seq!['"'])) + (":"@ + (render_text(e.id) + y1));
    lemma_render_endpoint_shape(e, rest);
    assert(render_endpoint(e) + rest == "{"@ + w1);
    crate::json::lemma_parse_exact_render("{"@, w1);
    lemma_parse_plain_key("id"@, ":"@ + (render_text(e.id) + y1));
    crate::json::lemma_parse_exact_render(":"@, render_text(e.id) + y1);
    crate::json::lemma_parse_text_render(e.id, y1);
    assert(y1[0] == ',');
    assert(y1.skip(1) =~= w2);
    lemma_parse_plain_key("endpoint"@, ":"@ + (render_text(e.endpoint) + y2));
    crate::json::lemma_parse_exact_render(":"@, render_text(e.endpoint) + y2);
    crate::json::lemma_parse_text_render(e.endpoint, y2);
    assert(y2[0] == ',');
    assert(y2.skip(1) =~= w3);
    lemma_parse_plain_key("method"@, ":"@ + (render_text(e.method) + y3));
    crate::json::lemma_parse_exact_render(":"@, render_text(e.method) + y3);
    crate::json::lemma_parse_text_render(e.method, y3);
    assert(y3[0] == ',');
    assert(y3.skip(1) =~= w4);
    lemma_parse_endpoint_render_tail(e, rest);
}

/// The later members of a rendered server, from `httpPort` on.
#[verifier::rlimit(100)]
proof fn lemma_parse_server_render_tail(s: ServerImage, rest: Seq<char>)
    ensures
        take_server_members(((seq!['"'] + ("httpPort"@ + seq!['"'])) + (":"@ + (render_opt_u16(s.http_port) + (seq![','] + ((seq!['"'] + ("endpoints"@ + seq!['"'])) + (":"@ + (render_endpoints(s.endpoints) + (seq![','] + ((seq!['"'] + ("httpsConfig"@ + seq!['"'])) + (":"@ + (render_opt_https(s.https_config) + (seq!['}'] + rest)))))))))))), ServerFields { id: Some(s.id), name: Some(s.name), http_port: None, endpoints: None, https_config: None }) == Some((
            ServerFields { id: Some(s.id), name: Some(s.name), http_port: Some(s.http_port), endpoints: Some(s.endpoints), https_config: Some(s.https_config) },
            rest,
        )),
{
    reveal_with_fuel(take_server_members, 5);
    reveal_strlit(":");
    reveal_strlit("id");
    reveal_strlit("name");
    reveal_strlit("httpPort");
    reveal_strlit("endpoints");
    reveal_strlit("httpsConfig");
    let y5 = seq!['}'] + rest;
    let w5 = (seq!['"'] + ("httpsConfig"@ + seq!['"'])) + (":"@ + (render_opt_https(s.https_config) + y5));
    let y4 = seq![','] + w5;
    let w4 = (seq!['"'] + ("endpoints"@ + seq!['"'])) + (":"@ + (render_endpoints(s.endpoints) + y4));
    let y3 = seq![','] + w4;
    let w3 = (seq!['"'] + ("httpPort"@ + seq!['"'])) + (":"@ + (render_opt_u16(s.http_port) + y3));
    lemma_parse_plain_key("httpPort"@, ":"@ + (render_opt_u16(s.http_port) + y3));
    crate::json::lemma_parse_exact_render(":"@, render_opt_u16(s.http_port) + y3);
    assert(y3[0] == ',');
    lemma_parse_opt_u16_render(s.http_port, y3);
    assert(y3.skip(1) =~= w4);
    lemma_parse_plain_key("endpoints"@, ":"@ + (render_endpoints(s.endpoints) + y4));
    crate::json::lemma_parse_exact_render(":"@, render_endpoints(s.endpoints) + y4);
    lemma_parse_endpoints_render(s.endpoints, y4);
    assert(y4[0] == ',');
    assert(y4.skip(1) =~= w5);
    lemma_parse_plain_key("httpsConfig"@, ":"@ + (render_opt_https(s.https_config) + y5));
    crate::json::lemma_parse_exact_render(":"@, render_opt_https(s.https_config) + y5);
    lemma_parse_opt_https_render(s.https_config, y5);
    assert(y5[0] == '}');
    assert(y5.skip(1) =~= rest);
}
/// Parsing a server off its rendering yields it back.
#[verifier::rlimit(100)]
pub proof fn lemma_parse_server_render(s: ServerImage, rest: Seq<char>)
    ensures
        spec_parse_server(render_server(s) + rest) == Some((s, rest)),
{
    reveal(crate::codec::spec_parse_server);
    reveal_with_fuel(take_server_members, 4);
    reveal(crate::codec::render_server);
    reveal_strlit("{");
    reveal_strlit(":");
    reveal_strlit("{\"id\":");
    reveal_strlit("id");
    reveal_strlit(",\"name\":");
    reveal_strlit("name");
    reveal_strlit(",\"httpPort\":");
    reveal_strlit("httpPort");
    reveal_strlit(",\"endpoints\":");
    reveal_strlit("endpoints");
    reveal_strlit(",\"httpsConfig\":");
    reveal_strlit("httpsConfig");
    reveal_strlit("}");
    let y5 = seq!['}'] + rest;
    let w5 = (seq!['"'] + ("httpsConfig"@ + seq!['"'])) + (":"@ + (render_opt_https(s.https_config) + y5));
    let y4 = seq![','] + w5;
    let w4 = (seq!['"'] + ("endpoints"@ + seq!['"'])) + (":"@ + (render_endpoints(s.endpoints) + y4));
    let y3 = seq![','] + w4;
    let w3 = (seq!['"'] + ("httpPort"@ + seq!['"'])) + (":"@ + (render_opt_u16(s.http_port) + y3));
    let y2 = seq![','] + w3;
    let w2 = (seq!['"'] + ("name"@ + seq!['"'])) + (":"@ + (render_text(s.name) + y2));
    let y1 = seq![','] + w2;
    let w1 = (seq!['"'] + ("id"@ + seq!['"'])) + (":"@ + (render_text(s.id) + y1));
    lemma_render_server_shape(s, rest);
    assert(render_server(s) + rest == "{"@ + w1);
    crate::json::lemma_parse_exact_render("{"@, w1);
    lemma_parse_plain_key("id"@, ":"@ + (render_text(s.id) + y1));
    crate::json::lemma_parse_exact_render(":"@, render_text(s.id) + y1);
    crate::json::lemma_parse_text_render(s.id, y1);
    assert(y1[0] == ',');
    assert(y1.skip(1) =~= w2);
    lemma_parse_plain_key("name"@, ":"@ + (render_text(s.name) + y2));
    crate::json::lemma_parse_exact_render(":"@, render_text(s.name) + y2);
    crate::json::lemma_parse_text_render(s.name, y2);
    assert(y2[0] == ',');
    assert(y2.skip(1) =~= w3);
    lemma_parse_server_render_tail(s, rest);
}

/// The later members of a rendered test, from `description` on.
#[verifier::rlimit(100)]
proof fn lemma_parse_test_render_tail(t: TestImage, rest: Seq<char>)
    ensures
        take_test_members(((seq!['"'] + ("description"@ + seq!['"'])) + (":"@ + (render_text(t.description) + (seq![','] + ((seq!['"'] + ("servers"@ + seq!['"'])) + (":"@ + (render_servers(t.servers) + (seq!['}'] + rest)))))))), TestFields { id: Some(t.id), name: Some(t.name), description: None, servers: None }) == Some((
            TestFields { id: Some(t.id), name: Some(t.name), description: Some(t.description), servers: Some(t.servers) },
            rest,
        )),
{
    reveal_with_fuel(take_test_members, 4);
    reveal_strlit(":");
    reveal_strlit("id");
    reveal_strlit("name");
    reveal_strlit("description");
    reveal_strlit("servers");
    let y4 = seq!['}'] + rest;
    let w4 = (seq!['"'] + ("servers"@ + seq!['"'])) + (":"@ + (render_servers(t.servers) + y4));
    let y3 = seq![','] + w4;
    let w3 = (seq!['"'] + ("description"@ + seq!['"'])) + (":"@ + (render_text(t.description) + y3));
    lemma_parse_plain_key("description"@, ":"@ + (render_text(t.description) + y3));
    crate::json::lemma_parse_exact_render(":"@, render_text(t.description) + y3);
    crate::json::lemma_parse_text_render(t.description, y3);
    assert(y3[0] == ',');
    assert(y3.skip(1) =~= w4);
    lemma_parse_plain_key("servers"@, ":"@ + (render_servers(t.servers) + y4));
    crate::json::lemma_parse_exact_render(":"@, render_servers(t.servers) + y4);
    lemma_parse_servers_render(t.servers, y4);
    assert(y4[0] == '}');
    assert(y4.skip(1) =~= rest);
}
/// Parsing a test off its rendering yields it back.
#[verifier::rlimit(100)]
pub proof fn lemma_parse_test_render(t: TestImage, rest: Seq<char>)
    ensures
        spec_parse_test(render_test(t) + rest) == Some((t, rest)),
{
    reveal(crate::codec::spec_parse_test);
    reveal_with_fuel(take_test_members, 4);
    reveal(crate::codec::render_test);
    reveal_strlit("{");
    reveal_strlit(":");
    reveal_strlit("{\"id\":");
    reveal_strlit("id");
    reveal_strlit(",\"name\":");
    reveal_strlit("name");
    reveal_strlit(",\"description\":");
    reveal_strlit("description");
    reveal_strlit(",\"servers\":");
    reveal_strlit("servers");
    reveal_strlit("}");
    let y4 = seq!['}'] + rest;
    let w4 = (seq!['"'] + ("servers"@ + seq!['"'])) + (":"@ + (render_servers(t.servers) + y4));
    let y3 = seq![','] + w4;
    let w3 = (seq!['"'] + ("description"@ + seq!['"'])) + (":"@ + (render_text(t.description) + y3));
    let y2 = seq![','] + w3;
    let w2 = (seq!['"'] + ("name"@ + seq!['"'])) + (":"@ + (render_text(t.name) + y2));
    let y1 = seq![','] + w2;
    let w1 = (seq!['"'] + ("id"@ + seq!['"'])) + (":"@ + (render_text(t.id) + y1));
    lemma_render_test_shape(t, rest);
    assert(render_test(t) + rest == "{"@ + w1);
    crate::json::lemma_parse_exact_render("{"@, w1);
    lemma_parse_plain_key("id"@, ":"@ + (render_text(t.id) + y1));
    crate::json::lemma_parse_exact_render(":"@, render_text(t.id) + y1);
    crate::json::lemma_parse_text_render(t.id, y1);
    assert(y1[0] == ',');
    assert(y1.skip(1) =~= w2);
    lemma_parse_plain_key("name"@, ":"@ + (render_text(t.name) + y2));
    crate::json::lemma_parse_exact_render(":"@, render_text(t.name) + y2);
    crate::json::lemma_parse_text_render(t.name, y2);
    assert(y2[0] == ',');
    assert(y2.skip(1) =~= w3);
    lemma_parse_test_render_tail(t, rest);
}

/// Parsing a configuration off its rendering yields it back.
#[verifier::rlimit(100)]
pub proof fn lemma_parse_app_render(a: AppImage, rest: Seq<char>)
    ensures
        spec_parse_app(render_app(a) + rest) == Some((a, rest)),
{
    reveal(crate::codec::spec_parse_app);
    reveal_with_fuel(take_app_members, 5);
    reveal_strlit("{");
    reveal_strlit(":");
    reveal_strlit("{\"name\":");
    reveal_strlit("name");
    reveal_strlit(",\"description\":");
    reveal_strlit("description");
    reveal_strlit(",\"tests\":");
    reveal_strlit("tests");
    reveal_strlit("}");
    let y3 = seq!['}'] + rest;
    let w3 = (seq!['"'] + ("tests"@ + seq!['"'])) + (":"@ + (render_tests(a.tests) + y3));
    let y2 = seq![','] + w3;
    let w2 = (seq!['"'] + ("description"@ + seq!['"'])) + (":"@ + (render_text(a.description) + y2));
    let y1 = seq![','] + w2;
    let w1 = (seq!['"'] + ("name"@ + seq!['"'])) + (":"@ + (render_text(a.name) + y1));
    lemma_render_app_shape(a, rest);
    assert(render_app(a) + rest == "{"@ + w1);
    crate::json::lemma_parse_exact_render("{"@, w1);
    lemma_parse_plain_key("name"@, ":"@ + (render_text(a.name) + y1));
    crate::json::lemma_parse_exact_render(":"@, render_text(a.name) + y1);
    crate::json::lemma_parse_text_render(a.name, y1);
    assert(y1[0] == ',');
    assert(y1.skip(1) =~= w2);
    lemma_parse_plain_key("description"@, ":"@ + (render_text(a.description) + y2));
    crate::json::lemma_parse_exact_render(":"@, render_text(a.description) + y2);
    crate::json::lemma_parse_text_render(a.description, y2);
    assert(y2[0] == ',');
    assert(y2.skip(1) =~= w3);
    lemma_parse_plain_key("tests"@, ":"@ + (render_tests(a.tests) + y3));
    crate::json::lemma_parse_exact_render(":"@, render_tests(a.tests) + y3);
    lemma_parse_tests_render(a.tests, y3);
    assert(y3[0] == '}');
    assert(y3.skip(1) =~= rest);
}

/// A rendered mock response starts with a brace.
pub proof fn lemma_render_mock_first(m: MockResponseImage)
    ensures
        render_mock(m).len() >= 1,
        render_mock(m)[0] == '{',
{
    reveal(crate::codec::render_mock);
    reveal_strlit("{\"response\":");
    assert(render_mock(m)[0] == ("{\"response\":"@)[0]);
}


/// A rendered route starts with a brace.
pub proof fn lemma_render_route_first(r: RouteImage)
    ensures
        render_route(r).len() >= 1,
        render_route(r)[0] == '{',
{
    reveal(crate::codec::render_route);
    reveal_strlit("{\"endpoint\":");
    assert(render_route(r)[0] == ("{\"endpoint\":"@)[0]);
}


/// Rendered TLS material starts with a brace.
pub proof fn lemma_render_https_first(h: HttpsImage)
    ensures
        render_https(h).len() >= 1,
        render_https(h)[0] == '{',
{
    reveal(crate::codec::render_https);
    reveal_strlit("{\"serverCertificate\":");
    assert(render_https(h)[0] == ("{\"serverCertificate\":"@)[0]);
}

/// Parsing an optional mock response off its rendering yields it back.
pub proof fn lemma_parse_opt_mock_render(o: Option<MockResponseImage>, rest: Seq<char>)
    ensures
        spec_parse_opt_mock(render_opt_mock(o) + rest) == Some((o, rest)),
{
    reveal_strlit("null");
    let input = render_opt_mock(o) + rest;
    match o {
        None => {
            assert(input[0] == 'n');
            crate::json::lemma_parse_exact_render("null"@, rest);
        },
        Some(m) => {
            lemma_render_mock_first(m);
            assert(input[0] == '{');
            lemma_parse_mock_render(m, rest);
        },
    }
}

/// Parsing an optional route off its rendering yields it back.
pub proof fn lemma_parse_opt_route_render(o: Option<RouteImage>, rest: Seq<char>)
    ensures
        spec_parse_opt_route(render_opt_route(o) + rest) == Some((o, rest)),
{
    reveal_strlit("null");
    let input = render_opt_route(o) + rest;
    match o {
        None => {
            assert(input[0] == 'n');
            crate::json::lemma_parse_exact_render("null"@, rest);
        },
        Some(r) => {
            lemma_render_route_first(r);
            assert(input[0] == '{');
            lemma_parse_route_render(r, rest);
        },
    }
}

/// Parsing optional TLS material off its rendering yields it back.
pub proof fn lemma_parse_opt_https_render(o: Option<HttpsImage>, rest: Seq<char>)
    ensures
        spec_parse_opt_https(render_opt_https(o) + rest) == Some((o, rest)),
{
    reveal_strlit("null");
    let input = render_opt_https(o) + rest;
    match o {
        None => {
            assert(input[0] == 'n');
            crate::json::lemma_parse_exact_render("null"@, rest);
        },
        Some(h) => {
            lemma_render_https_first(h);
            assert(input[0] == '{');
            lemma_parse_https_render(h, rest);
        },
    }
}


/// A rendered endpoint starts with a brace.
pub proof fn lemma_render_endpoint_first(e: EndpointImage)
    ensures
        render_endpoint(e).len() >= 1,
        render_endpoint(e)[0] == '{',
{
    reveal(crate::codec::render_endpoint);
    reveal_strlit("{\"id\":");
    assert(render_endpoint(e)[0] == ("{\"id\":"@)[0]);
}

/// Scanning rendered endpoint elements collects them all back.
#[verifier::rlimit(100)]
pub proof fn lemma_take_endpoint_entries_render(
    v: Seq<EndpointImage>,
    acc: Seq<EndpointImage>,
    rest: Seq<char>,
)
    requires
        v.len() >= 1,
    ensures
        take_endpoint_entries(render_endpoint_entries(v) + (seq![']'] + rest), acc) == Some(
            (acc + v, rest),
        ),
    decreases v.len(),
{
    reveal_strlit(",");
    if v.len() == 1 {
        let close = seq![']'] + rest;
        lemma_parse_endpoint_render(v[0], close);
        assert(render_endpoint_entries(v) + close =~= render_endpoint(v[0]) + close);
        assert(close.skip(1) =~= rest);
        assert(acc.push(v[0]) =~= acc + v);
    } else {
        let tail = v.skip(1);
        let cont = ","@ + (render_endpoint_entries(tail) + (seq![']'] + rest));
        assert(render_endpoint_entries(v) + (seq![']'] + rest) =~= render_endpoint(v[0]) + cont);
        lemma_parse_endpoint_render(v[0], cont);
        assert(cont[0] == ',');
        assert(cont.skip(1) =~= render_endpoint_entries(tail) + (seq![']'] + rest));
        lemma_take_endpoint_entries_render(tail, acc.push(v[0]), rest);
        assert(acc.push(v[0]) + tail =~= acc + v);
    }
}

/// Parsing an endpoint array off its rendering yields the list back.
pub proof fn lemma_parse_endpoints_render(v: Seq<EndpointImage>, rest: Seq<char>)
    ensures
        spec_parse_endpoints(render_endpoints(v) + rest) == Some((v, rest)),
{
    reveal(crate::codec::spec_parse_endpoints);
    reveal_strlit("[");
    reveal_strlit("]");
    reveal_strlit("[]");
    let input = render_endpoints(v) + rest;
    if v.len() == 0 {
        assert(input =~= "["@ + (seq![']'] + rest));
        crate::json::lemma_parse_exact_render("["@, seq![']'] + rest);
        assert((seq![']'] + rest).skip(1) =~= rest);
        assert(Seq::<EndpointImage>::empty() =~= v);
    } else {
        let body = render_endpoint_entries(v) + (seq![']'] + rest);
        assert(input =~= "["@ + body);
        crate::json::lemma_parse_exact_render("["@, body);
        lemma_render_endpoint_first(v[0]);
        assert(render_endpoint_entries(v)[0] == render_endpoint(v[0])[0]);
        assert(body[0] == '{');
        lemma_take_endpoint_entries_render(v, Seq::empty(), rest);
        assert(Seq::<EndpointImage>::empty() + v =~= v);
    }
}


/// A rendered server starts with a brace.
pub proof fn lemma_render_server_first(s: ServerImage)
    ensures
        render_server(s).len() >= 1,
        render_server(s)[0] == '{',
{
    reveal(crate::codec::render_server);
    reveal_strlit("{\"id\":");
    assert(render_server(s)[0] == ("{\"id\":"@)[0]);
}

/// Scanning rendered server elements collects them all back.
#[verifier::rlimit(100)]
pub proof fn lemma_take_server_entries_render(
    v: Seq<ServerImage>,
    acc: Seq<ServerImage>,
    rest: Seq<char>,
)
    requires
        v.len() >= 1,
    ensures
        take_server_entries(render_server_entries(v) + (seq![']'] + rest), acc) == Some(
            (acc + v, rest),
        ),
    decreases v.len(),
{
    reveal_strlit(",");
    if v.len() == 1 {
        let close = seq![']'] + rest;
        lemma_parse_server_render(v[0], close);
        assert(render_server_entries(v) + close =~= render_server(v[0]) + close);
        assert(close.skip(1) =~= rest);
        assert(acc.push(v[0]) =~= acc + v);
    } else {
        let tail = v.skip(1);
        let cont = ","@ + (render_server_entries(tail) + (seq![']'] + rest));
        assert(render_server_entries(v) + (seq![']'] + rest) =~= render_server(v[0]) + cont);
        lemma_parse_server_render(v[0], cont);
        assert(cont[0] == ',');
        assert(cont.skip(1) =~= render_server_entries(tail) + (seq![']'] + rest));
        lemma_take_server_entries_render(tail, acc.push(v[0]), rest);
        assert(acc.push(v[0]) + tail =~= acc + v);
    }
}

/// Parsing a server array off its rendering yields the list back.
pub proof fn lemma_parse_servers_render(v: Seq<ServerImage>, rest: Seq<char>)
    ensures
        spec_parse_servers(render_servers(v) + rest) == Some((v, rest)),
{
    reveal(crate::codec::spec_parse_servers);
    reveal_strlit("[");
    reveal_strlit("]");
    reveal_strlit("[]");
    let input = render_servers(v) + rest;
    if v.len() == 0 {
        assert(input =~= "["@ + (seq![']'] + rest));
        crate::json::lemma_parse_exact_render("["@, seq![']'] + rest);
        assert((seq![']'] + rest).skip(1) =~= rest);
        assert(Seq::<ServerImage>::empty() =~= v);
    } else {
        let body = render_server_entries(v) + (seq![']'] + rest);
        assert(input =~= "["@ + body);
        crate::json::lemma_parse_exact_render("["@, body);
        lemma_render_server_first(v[0]);
        assert(render_server_entries(v)[0] == render_server(v[0])[0]);
        assert(body[0] == '{');
        lemma_take_server_entries_render(v, Seq::empty(), rest);
        assert(Seq::<ServerImage>::empty() + v =~= v);
    }
}


/// A rendered test starts with a brace.
pub proof fn lemma_render_test_first(t: TestImage)
    ensures
        render_test(t).len() >= 1,
        render_test(t)[0] == '{',
{
    reveal(crate::codec::render_test);
    reveal_strlit("{\"id\":");
    assert(render_test(t)[0] == ("{\"id\":"@)[0]);
}

/// Scanning rendered test elements collects them all back.
#[verifier::rlimit(100)]
pub proof fn lemma_take_test_entries_render(
    v: Seq<TestImage>,
    acc: Seq<TestImage>,
    rest: Seq<char>,
)
    requires
        v.len() >= 1,
    ensures
        take_test_entries(render_test_entries(v) + (seq![']'] + rest), acc) == Some(
            (acc + v, rest),
        ),
    decreases v.len(),
{
    reveal_strlit(",");
    if v.len() == 1 {
        let close = seq![']'] + rest;
        lemma_parse_test_render(v[0], close);
        assert(render_test_entries(v) + close =~= render_test(v[0]) + close);
        assert(close.skip(1) =~= rest);
        assert(acc.push(v[0]) =~= acc + v);
    } else {
        let tail = v.skip(1);
        let cont = ","@ + (render_test_entries(tail) + (seq![']'] + rest));
        assert(render_test_entries(v) + (seq![']'] + rest) =~= render_test(v[0]) + cont);
        lemma_parse_test_render(v[0], cont);
        assert(cont[0] == ',');
        assert(cont.skip(1) =~= render_test_entries(tail) + (seq![']'] + rest));
        lemma_take_test_entries_render(tail, acc.push(v[0]), rest);
        assert(acc.push(v[0]) + tail =~= acc + v);
    }
}

/// Parsing a test array off its rendering yields the list back.
pub proof fn lemma_parse_tests_render(v: Seq<TestImage>, rest: Seq<char>)
    ensures
        spec_parse_tests(render_tests(v) + rest) == Some((v, rest)),
{
    reveal(crate::codec::spec_parse_tests);
    reveal_strlit("[");
    reveal_strlit("]");
    reveal_strlit("[]");
    let input = render_tests(v) + rest;
    if v.len() == 0 {
        assert(input =~= "["@ + (seq![']'] + rest));
        crate::json::lemma_parse_exact_render("["@, seq![']'] + rest);
        assert((seq![']'] + rest).skip(1) =~= rest);
        assert(Seq::<TestImage>::empty() =~= v);
    } else {
        let body = render_test_entries(v) + (seq![']'] + rest);
        assert(input =~= "["@ + body);
        crate::json::lemma_parse_exact_render("["@, body);
        lemma_render_test_first(v[0]);
        assert(render_test_entries(v)[0] == render_test(v[0])[0]);
        assert(body[0] == '{');
        lemma_take_test_entries_render(v, Seq::empty(), rest);
        assert(Seq::<TestImage>::empty() + v =~= v);
    }
}


/// Round trip: rendering a configuration and parsing the result yields an
/// equal configuration, with nothing left over — every field, the ids
/// included, is preserved exactly.  The rendered document holds no
/// insignificant whitespace, so the reader's whitespace stripping leaves
/// it untouched.
pub proof fn lemma_config_round_trip(a: AppImage)
    ensures
        spec_parse_app(render_app(a)) == Some((a, Seq::<char>::empty())),
        strip_ws(render_app(a)) == render_app(a),
{
    lemma_parse_app_render(a, Seq::empty());
    assert(render_app(a) + Seq::<char>::empty() =~= render_app(a));
    lemma_strip_render_app(a);
}

// ---------------------------------------------------------------------
// whitespace never hides in a rendered document
// ---------------------------------------------------------------------

/// The rendered form never holds insignificant whitespace, so the
/// stripper passes a key literal through and leaves the walk between
/// tokens.
proof fn lemma_strip_key_literal(lit: Seq<char>)
    requires
        forall|i: int|
            0 <= i < lit.len() ==> !crate::json::is_json_ws(#[trigger] lit[i]) && lit[i] != '\\',
        crate::json::quote_count(lit) % 2 == 0,
    ensures
        crate::json::strip_ws_from(lit, crate::json::StripMode::Between) == (
            lit,
            crate::json::StripMode::Between,
        ),
{
    crate::json::lemma_strip_plain(lit, crate::json::StripMode::Between);
}

/// The shape of every member-key token of the document grammar: an
/// opening or separating character, then the quoted key name, then the
/// colon.
pub open spec fn key_token(first: char, word: Seq<char>) -> Seq<char> {
    seq![first] + (seq!['"'] + (word + (seq!['"'] + seq![':'])))
}

/// A member-key token passes through the stripper, between tokens.
proof fn lemma_strip_key(first: char, word: Seq<char>)
    requires
        first != '"' && first != '\\' && !crate::json::is_json_ws(first),
        forall|i: int|
            0 <= i < word.len() ==> !crate::json::is_json_ws(#[trigger] word[i]) && word[i] != '\\'
                && word[i] != '"',
    ensures
        crate::json::strip_ws_from(key_token(first, word), crate::json::StripMode::Between) == (
            key_token(first, word),
            crate::json::StripMode::Between,
        ),
{
    let lit = key_token(first, word);
    assert forall|i: int| 0 <= i < lit.len() implies !crate::json::is_json_ws(#[trigger] lit[i])
        && lit[i] != '\\' by {
        if i == 0 {
        } else if i == 1 {
        } else if i < 2 + word.len() {
            assert(lit[i] == word[i - 2]);
        }
    }
    assert(crate::json::quote_count(lit) == 2) by {
        crate::json::lemma_quote_count_single(first);
        crate::json::lemma_quote_count_single('"');
        crate::json::lemma_quote_count_single(':');
        crate::json::lemma_quote_count_zero(word);
        crate::json::lemma_quote_count_append(seq!['"'], seq![':']);
        crate::json::lemma_quote_count_append(word, seq!['"'] + seq![':']);
        crate::json::lemma_quote_count_append(seq!['"'], word + (seq!['"'] + seq![':']));
        crate::json::lemma_quote_count_append(
            seq![first],
            seq!['"'] + (word + (seq!['"'] + seq![':'])),
        );
        assert(seq!['"'] + seq![':'] =~= seq!['"', ':']);
        assert(word + (seq!['"'] + seq![':']) =~= word + seq!['"', ':']);
    }
    lemma_strip_key_literal(lit);
}

/// An optional text passes through the stripper, between tokens.
proof fn lemma_strip_opt_text(o: Option<Seq<char>>)
    ensures
        crate::json::strip_ws_from(render_opt_text(o), crate::json::StripMode::Between) == (
            render_opt_text(o),
            crate::json::StripMode::Between,
        ),
{
    match o {
        None => {
            reveal_strlit("null");
            crate::json::lemma_quote_count_zero("null"@);
            lemma_strip_key_literal("null"@);
        },
        Some(t) => {
            crate::json::lemma_strip_render_text(t);
        },
    }
}

/// An optional port passes through the stripper, between tokens.
proof fn lemma_strip_opt_u16(o: Option<u16>)
    ensures
        crate::json::strip_ws_from(render_opt_u16(o), crate::json::StripMode::Between) == (
            render_opt_u16(o),
            crate::json::StripMode::Between,
        ),
{
    match o {
        None => {
            reveal_strlit("null");
            crate::json::lemma_quote_count_zero("null"@);
            lemma_strip_key_literal("null"@);
        },
        Some(n) => {
            crate::json::lemma_strip_render_number(n as nat, crate::json::StripMode::Between);
        },
    }
}

/// A rendered header object passes through the stripper, between tokens.
proof fn lemma_strip_headers(h: Seq<(Seq<char>, Seq<char>)>)
    ensures
        crate::json::strip_ws_from(render_headers(h), crate::json::StripMode::Between) == (
            render_headers(h),
            crate::json::StripMode::Between,
        ),
{
    proof_strlit_brace();
    reveal_strlit("{}");
    reveal_strlit("{");
    reveal_strlit("}");
    if h.len() == 0 {
        crate::json::lemma_quote_count_zero("{}"@);
        lemma_strip_key_literal("{}"@);
    } else {
        crate::json::lemma_quote_count_zero("{"@);
        lemma_strip_key_literal("{"@);
        crate::json::lemma_quote_count_zero("}"@);
        lemma_strip_key_literal("}"@);
        lemma_strip_header_entries(h);
        crate::json::lemma_strip_append(
            "{"@,
            render_header_entries(h) + "}"@,
            crate::json::StripMode::Between,
        );
        crate::json::lemma_strip_append(
            render_header_entries(h),
            "}"@,
            crate::json::StripMode::Between,
        );
        assert(render_headers(h) =~= "{"@ + (render_header_entries(h) + "}"@));
        assert(crate::json::strip_ws_from(
            "{"@ + (render_header_entries(h) + "}"@),
            crate::json::StripMode::Between,
        ).0 =~= render_headers(h));
    }
}

/// A non-empty run of header members passes through the stripper.
proof fn lemma_strip_header_entries(h: Seq<(Seq<char>, Seq<char>)>)
    requires
        h.len() >= 1,
    ensures
        crate::json::strip_ws_from(
            render_header_entries(h),
            crate::json::StripMode::Between,
        ) == (render_header_entries(h), crate::json::StripMode::Between),
    decreases h.len(),
{
    proof_strlit_brace();
    reveal_strlit(",");
    reveal_strlit(":");
    crate::json::lemma_quote_count_zero(","@);
    lemma_strip_key_literal(","@);
    crate::json::lemma_quote_count_zero(":"@);
    lemma_strip_key_literal(":"@);
    crate::json::lemma_strip_render_text(h[0].0);
    crate::json::lemma_strip_render_text(h[0].1);
    crate::json::lemma_strip_append(
        render_text(h[0].0),
        ":"@ + render_text(h[0].1),
        crate::json::StripMode::Between,
    );
    crate::json::lemma_strip_append(":"@, render_text(h[0].1), crate::json::StripMode::Between);
    assert(render_header_entry(h[0]) =~= render_text(h[0].0) + (":"@ + render_text(h[0].1)));
    assert(crate::json::strip_ws_from(
        render_header_entry(h[0]),
        crate::json::StripMode::Between,
    ) == (render_header_entry(h[0]), crate::json::StripMode::Between)) by {
        assert(crate::json::strip_ws_from(
            render_text(h[0].0) + (":"@ + render_text(h[0].1)),
            crate::json::StripMode::Between,
        ).0 =~= render_header_entry(h[0]));
    }
    if h.len() > 1 {
        lemma_strip_header_entries(h.skip(1));
        crate::json::lemma_strip_append(
            render_header_entry(h[0]),
            ","@ + render_header_entries(h.skip(1)),
            crate::json::StripMode::Between,
        );
        crate::json::lemma_strip_append(
            ","@,
            render_header_entries(h.skip(1)),
            crate::json::StripMode::Between,
        );
        assert(render_header_entries(h) =~= render_header_entry(h[0]) + (","@
            + render_header_entries(h.skip(1))));
        assert(crate::json::strip_ws_from(
            render_header_entries(h),
            crate::json::StripMode::Between,
        ).0 =~= render_header_entries(h));
    }
}

/// A rendered mock response passes through the stripper, between tokens.
#[verifier::rlimit(100)]
proof fn lemma_strip_mock(m: MockResponseImage)
    ensures
        strip_ws_from(render_mock(m), StripMode::Between) == (
            render_mock(m),
            StripMode::Between,
        ),
{
    reveal(crate::codec::render_mock);
    reveal_strlit("{\"response\":");
    reveal_strlit("response");
    reveal_strlit(",\"status\":");
    reveal_strlit("status");
    reveal_strlit(",\"headers\":");
    reveal_strlit("headers");
    reveal_strlit(",\"delay\":");
    reveal_strlit("delay");
    reveal_strlit("}");
    assert(("{\"response\":"@) =~= key_token('{', "response"@));
    lemma_strip_key('{', "response"@);
    assert((",\"status\":"@) =~= key_token(',', "status"@));
    lemma_strip_key(',', "status"@);
    assert((",\"headers\":"@) =~= key_token(',', "headers"@));
    lemma_strip_key(',', "headers"@);
    assert((",\"delay\":"@) =~= key_token(',', "delay"@));
    lemma_strip_key(',', "delay"@);
    lemma_quote_count_zero("}"@);
    lemma_strip_key_literal("}"@);
    lemma_strip_opt_text(m.response);
    lemma_strip_render_number(m.status as nat, StripMode::Between);
    lemma_strip_headers(m.headers);
    lemma_strip_render_number(m.delay as nat, StripMode::Between);
    let x8 = "}"@;
    let x7 = render_number(m.delay as nat) + x8;
    let x6 = ",\"delay\":"@ + x7;
    let x5 = render_headers(m.headers) + x6;
    let x4 = ",\"headers\":"@ + x5;
    let x3 = render_number(m.status as nat) + x4;
    let x2 = ",\"status\":"@ + x3;
    let x1 = render_opt_text(m.response) + x2;
    lemma_strip_append(render_number(m.delay as nat), x8, StripMode::Between);
    assert(strip_ws_from(x7, StripMode::Between).0 =~= x7);
    lemma_strip_append(",\"delay\":"@, x7, StripMode::Between);
    assert(strip_ws_from(x6, StripMode::Between).0 =~= x6);
    lemma_strip_append(render_headers(m.headers), x6, StripMode::Between);
    assert(strip_ws_from(x5, StripMode::Between).0 =~= x5);
    lemma_strip_append(",\"headers\":"@, x5, StripMode::Between);
    assert(strip_ws_from(x4, StripMode::Between).0 =~= x4);
    lemma_strip_append(render_number(m.status as nat), x4, StripMode::Between);
    assert(strip_ws_from(x3, StripMode::Between).0 =~= x3);
    lemma_strip_append(",\"status\":"@, x3, StripMode::Between);
    assert(strip_ws_from(x2, StripMode::Between).0 =~= x2);
    lemma_strip_append(render_opt_text(m.response), x2, StripMode::Between);
    assert(strip_ws_from(x1, StripMode::Between).0 =~= x1);
    lemma_strip_append("{\"response\":"@, x1, StripMode::Between);
    assert(render_mock(m) =~= "{\"response\":"@ + x1);
    assert(strip_ws_from(render_mock(m), StripMode::Between).0 =~= render_mock(m));
}

/// A rendered route passes through the stripper, between tokens.
proof fn lemma_strip_route(r: RouteImage)
    ensures
        strip_ws_from(render_route(r), StripMode::Between) == (
            render_route(r),
            StripMode::Between,
        ),
{
    reveal(crate::codec::render_route);
    reveal_strlit("{\"endpoint\":");
    reveal_strlit("endpoint");
    reveal_strlit("}");
    assert(("{\"endpoint\":"@) =~= key_token('{', "endpoint"@));
    lemma_strip_key('{', "endpoint"@);
    lemma_quote_count_zero("}"@);
    lemma_strip_key_literal("}"@);
    lemma_strip_render_text(r.endpoint);
    let x2 = "}"@;
    let x1 = render_text(r.endpoint) + x2;
    lemma_strip_append(render_text(r.endpoint), x2, StripMode::Between);
    assert(strip_ws_from(x1, StripMode::Between).0 =~= x1);
    lemma_strip_append("{\"endpoint\":"@, x1, StripMode::Between);
    assert(render_route(r) =~= "{\"endpoint\":"@ + x1);
    assert(strip_ws_from(render_route(r), StripMode::Between).0 =~= render_route(r));
}

/// Rendered TLS material passes through the stripper, between tokens.
#[verifier::rlimit(100)]
proof fn lemma_strip_https(h: HttpsImage)
    ensures
        strip_ws_from(render_https(h), StripMode::Between) == (
            render_https(h),
            StripMode::Between,
        ),
{
    reveal(crate::codec::render_https);
    reveal_strlit("{\"serverCertificate\":");
    reveal_strlit("serverCertificate");
    reveal_strlit(",\"privateKey\":");
    reveal_strlit("privateKey");
    reveal_strlit(",\"httpsPort\":");
    reveal_strlit("httpsPort");
    reveal_strlit("}");
    assert(("{\"serverCertificate\":"@) =~= key_token('{', "serverCertificate"@));
    lemma_strip_key('{', "serverCertificate"@);
    assert((",\"privateKey\":"@) =~= key_token(',', "privateKey"@));
    lemma_strip_key(',', "privateKey"@);
    assert((",\"httpsPort\":"@) =~= key_token(',', "httpsPort"@));
    lemma_strip_key(',', "httpsPort"@);
    lemma_quote_count_zero("}"@);
    lemma_strip_key_literal("}"@);
    lemma_strip_render_text(h.server_certificate);
    lemma_strip_render_text(h.private_key);
    lemma_strip_render_number(h.https_port as nat, StripMode::Between);
    let x6 = "}"@;
    let x5 = render_number(h.https_port as nat) + x6;
    let x4 = ",\"httpsPort\":"@ + x5;
    let x3 = render_text(h.private_key) + x4;
    let x2 = ",\"privateKey\":"@ + x3;
    let x1 = render_text(h.server_certificate) + x2;
    lemma_strip_append(render_number(h.https_port as nat), x6, StripMode::Between);
    assert(strip_ws_from(x5, StripMode::Between).0 =~= x5);
    lemma_strip_append(",\"httpsPort\":"@, x5, StripMode::Between);
    assert(strip_ws_from(x4, StripMode::Between).0 =~= x4);
    lemma_strip_append(render_text(h.private_key), x4, StripMode::Between);
    assert(strip_ws_from(x3, StripMode::Between).0 =~= x3);
    lemma_strip_append(",\"privateKey\":"@, x3, StripMode::Between);
    assert(strip_ws_from(x2, StripMode::Between).0 =~= x2);
    lemma_strip_append(render_text(h.server_certificate), x2, StripMode::Between);
    assert(strip_ws_from(x1, StripMode::Between).0 =~= x1);
    lemma_strip_append("{\"serverCertificate\":"@, x1, StripMode::Between);
    assert(render_https(h) =~= "{\"serverCertificate\":"@ + x1);
    assert(strip_ws_from(render_https(h), StripMode::Between).0 =~= render_https(h));
}

/// An optional mock response passes through the stripper.
proof fn lemma_strip_opt_mock(o: Option<MockResponseImage>)
    ensures
        strip_ws_from(render_opt_mock(o), StripMode::Between) == (
            render_opt_mock(o),
            StripMode::Between,
        ),
{
    match o {
        None => {
            reveal_strlit("null");
            lemma_quote_count_zero("null"@);
            lemma_strip_key_literal("null"@);
        },
        Some(m) => {
            lemma_strip_mock(m);
        },
    }
}

/// An optional route passes through the stripper.
proof fn lemma_strip_opt_route(o: Option<RouteImage>)
    ensures
        strip_ws_from(render_opt_route(o), StripMode::Between) == (
            render_opt_route(o),
            StripMode::Between,
        ),
{
    match o {
        None => {
            reveal_strlit("null");
            lemma_quote_count_zero("null"@);
            lemma_strip_key_literal("null"@);
        },
        Some(r) => {
            lemma_strip_route(r);
        },
    }
}

/// Optional TLS material passes through the stripper.
proof fn lemma_strip_opt_https(o: Option<HttpsImage>)
    ensures
        strip_ws_from(render_opt_https(o), StripMode::Between) == (
            render_opt_https(o),
            StripMode::Between,
        ),
{
    match o {
        None => {
            reveal_strlit("null");
            lemma_quote_count_zero("null"@);
            lemma_strip_key_literal("null"@);
        },
        Some(h) => {
            lemma_strip_https(h);
        },
    }
}

/// A rendered endpoint passes through the stripper, between tokens.
#[verifier::rlimit(100)]
proof fn lemma_strip_endpoint(e: EndpointImage)
    ensures
        strip_ws_from(render_endpoint(e), StripMode::Between) == (
            render_endpoint(e),
            StripMode::Between,
        ),
{
    reveal(crate::codec::render_endpoint);
    reveal_strlit("{\"id\":");
    reveal_strlit("id");
    reveal_strlit(",\"endpoint\":");
    reveal_strlit("endpoint");
    reveal_strlit(",\"method\":");
    reveal_strlit("method");
    reveal_strlit(",\"soapAction\":");
    reveal_strlit("soapAction");
    reveal_strlit(",\"mockResponse\":");
    reveal_strlit("mockResponse");
    reveal_strlit(",\"route\":");
    reveal_strlit("route");
    reveal_strlit("}");
    assert(("{\"id\":"@) =~= key_token('{', "id"@));
    lemma_strip_key('{', "id"@);
    assert((",\"endpoint\":"@) =~= key_token(',', "endpoint"@));
    lemma_strip_key(',', "endpoint"@);
    assert((",\"method\":"@) =~= key_token(',', "method"@));
    lemma_strip_key(',', "method"@);
    assert((",\"soapAction\":"@) =~= key_token(',', "soapAction"@));
    lemma_strip_key(',', "soapAction"@);
    assert((",\"mockResponse\":"@) =~= key_token(',', "mockResponse"@));
    lemma_strip_key(',', "mockResponse"@);
    assert((",\"route\":"@) =~= key_token(',', "route"@));
    lemma_strip_key(',', "route"@);
    lemma_quote_count_zero("}"@);
    lemma_strip_key_literal("}"@);
    lemma_strip_render_text(e.id);
    lemma_strip_render_text(e.endpoint);
    lemma_strip_render_text(e.method);
    lemma_strip_opt_text(e.soap_action);
    lemma_strip_opt_mock(e.mock_response);
    lemma_strip_opt_route(e.route);
    let x12 = "}"@;
    let x11 = render_opt_route(e.route) + x12;
    let x10 = ",\"route\":"@ + x11;
    let x9 = render_opt_mock(e.mock_response) + x10;
    let x8 = ",\"mockResponse\":"@ + x9;
    let x7 = render_opt_text(e.soap_action) + x8;
    let x6 = ",\"soapAction\":"@ + x7;
    let x5 = render_text(e.method) + x6;
    let x4 = ",\"method\":"@ + x5;
    let x3 = render_text(e.endpoint) + x4;
    let x2 = ",\"endpoint\":"@ + x3;
    let x1 = render_text(e.id) + x2;
    lemma_strip_append(render_opt_route(e.route), x12, StripMode::Between);
    assert(strip_ws_from(x11, StripMode::Between).0 =~= x11);
    lemma_strip_append(",\"route\":"@, x11, StripMode::Between);
    assert(strip_ws_from(x10, StripMode::Between).0 =~= x10);
    lemma_strip_append(render_opt_mock(e.mock_response), x10, StripMode::Between);
    assert(strip_ws_from(x9, StripMode::Between).0 =~= x9);
    lemma_strip_append(",\"mockResponse\":"@, x9, StripMode::Between);
    assert(strip_ws_from(x8, StripMode::Between).0 =~= x8);
    lemma_strip_append(render_opt_text(e.soap_action), x8, StripMode::Between);
    assert(strip_ws_from(x7, StripMode::Between).0 =~= x7);
    lemma_strip_append(",\"soapAction\":"@, x7, StripMode::Between);
    assert(strip_ws_from(x6, StripMode::Between).0 =~= x6);
    lemma_strip_append(render_text(e.method), x6, StripMode::Between);
    assert(strip_ws_from(x5, StripMode::Between).0 =~= x5);
    lemma_strip_append(",\"method\":"@, x5, StripMode::Between);
    assert(strip_ws_from(x4, StripMode::Between).0 =~= x4);
    lemma_strip_append(render_text(e.endpoint), x4, StripMode::Between);
    assert(strip_ws_from(x3, StripMode::Between).0 =~= x3);
    lemma_strip_append(",\"endpoint\":"@, x3, StripMode::Between);
    assert(strip_ws_from(x2, StripMode::Between).0 =~= x2);
    lemma_strip_append(render_text(e.id), x2, StripMode::Between);
    assert(strip_ws_from(x1, StripMode::Between).0 =~= x1);
    lemma_strip_append("{\"id\":"@, x1, StripMode::Between);
    assert(render_endpoint(e) =~= "{\"id\":"@ + x1);
    assert(strip_ws_from(render_endpoint(e), StripMode::Between).0 =~= render_endpoint(e));
}

/// A non-empty run of rendered endpoints passes through the stripper.
proof fn lemma_strip_endpoint_entries(v: Seq<EndpointImage>)
    requires
        v.len() >= 1,
    ensures
        strip_ws_from(render_endpoint_entries(v), StripMode::Between) == (
            render_endpoint_entries(v),
            StripMode::Between,
        ),
    decreases v.len(),
{
    reveal_strlit(",");
    lemma_quote_count_zero(","@);
    lemma_strip_key_literal(","@);
    lemma_strip_endpoint(v[0]);
    if v.len() > 1 {
        lemma_strip_endpoint_entries(v.skip(1));
        lemma_strip_append(
            render_endpoint(v[0]),
            ","@ + render_endpoint_entries(v.skip(1)),
            StripMode::Between,
        );
        lemma_strip_append(","@, render_endpoint_entries(v.skip(1)), StripMode::Between);
        assert(render_endpoint_entries(v) =~= render_endpoint(v[0]) + (","@
            + render_endpoint_entries(v.skip(1))));
        assert(strip_ws_from(render_endpoint_entries(v), StripMode::Between).0
            =~= render_endpoint_entries(v));
    }
}

/// A rendered endpoint array passes through the stripper.
proof fn lemma_strip_endpoints(v: Seq<EndpointImage>)
    ensures
        strip_ws_from(render_endpoints(v), StripMode::Between) == (
            render_endpoints(v),
            StripMode::Between,
        ),
{
    reveal_strlit("[");
    reveal_strlit("]");
    reveal_strlit("[]");
    if v.len() == 0 {
        lemma_quote_count_zero("[]"@);
        lemma_strip_key_literal("[]"@);
    } else {
        lemma_quote_count_zero("["@);
        lemma_strip_key_literal("["@);
        lemma_quote_count_zero("]"@);
        lemma_strip_key_literal("]"@);
        lemma_strip_endpoint_entries(v);
        lemma_strip_append("["@, render_endpoint_entries(v) + "]"@, StripMode::Between);
        lemma_strip_append(render_endpoint_entries(v), "]"@, StripMode::Between);
        assert(render_endpoints(v) =~= "["@ + (render_endpoint_entries(v) + "]"@));
        assert(strip_ws_from(render_endpoints(v), StripMode::Between).0 =~= render_endpoints(v));
    }
}

/// A rendered server passes through the stripper, between tokens.
#[verifier::rlimit(100)]
proof fn lemma_strip_server(s: ServerImage)
    ensures
        strip_ws_from(render_server(s), StripMode::Between) == (
            render_server(s),
            StripMode::Between,
        ),
{
    reveal(crate::codec::render_server);
    reveal_strlit("{\"id\":");
    reveal_strlit("id");
    reveal_strlit(",\"name\":");
    reveal_strlit("name");
    reveal_strlit(",\"httpPort\":");
    reveal_strlit("httpPort");
    reveal_strlit(",\"endpoints\":");
    reveal_strlit("endpoints");
    reveal_strlit(",\"httpsConfig\":");
    reveal_strlit("httpsConfig");
    reveal_strlit("}");
    assert(("{\"id\":"@) =~= key_token('{', "id"@));
    lemma_strip_key('{', "id"@);
    assert((",\"name\":"@) =~= key_token(',', "name"@));
    lemma_strip_key(',', "name"@);
    assert((",\"httpPort\":"@) =~= key_token(',', "httpPort"@));
    lemma_strip_key(',', "httpPort"@);
    assert((",\"endpoints\":"@) =~= key_token(',', "endpoints"@));
    lemma_strip_key(',', "endpoints"@);
    assert((",\"httpsConfig\":"@) =~= key_token(',', "httpsConfig"@));
    lemma_strip_key(',', "httpsConfig"@);
    lemma_quote_count_zero("}"@);
    lemma_strip_key_literal("}"@);
    lemma_strip_render_text(s.id);
    lemma_strip_render_text(s.name);
    lemma_strip_opt_u16(s.http_port);
    lemma_strip_endpoints(s.endpoints);
    lemma_strip_opt_https(s.https_config);
    let x10 = "}"@;
    let x9 = render_opt_https(s.https_config) + x10;
    let x8 = ",\"httpsConfig\":"@ + x9;
    let x7 = render_endpoints(s.endpoints) + x8;
    let x6 = ",\"endpoints\":"@ + x7;
    let x5 = render_opt_u16(s.http_port) + x6;
    let x4 = ",\"httpPort\":"@ + x5;
    let x3 = render_text(s.name) + x4;
    let x2 = ",\"name\":"@ + x3;
    let x1 = render_text(s.id) + x2;
    lemma_strip_append(render_opt_https(s.https_config), x10, StripMode::Between);
    assert(strip_ws_from(x9, StripMode::Between).0 =~= x9);
    lemma_strip_append(",\"httpsConfig\":"@, x9, StripMode::Between);
    assert(strip_ws_from(x8, StripMode::Between).0 =~= x8);
    lemma_strip_append(render_endpoints(s.endpoints), x8, StripMode::Between);
    assert(strip_ws_from(x7, StripMode::Between).0 =~= x7);
    lemma_strip_append(",\"endpoints\":"@, x7, StripMode::Between);
    assert(strip_ws_from(x6, StripMode::Between).0 =~= x6);
    lemma_strip_append(render_opt_u16(s.http_port), x6, StripMode::Between);
    assert(strip_ws_from(x5, StripMode::Between).0 =~= x5);
    lemma_strip_append(",\"httpPort\":"@, x5, StripMode::Between);
    assert(strip_ws_from(x4, StripMode::Between).0 =~= x4);
    lemma_strip_append(render_text(s.name), x4, StripMode::Between);
    assert(strip_ws_from(x3, StripMode::Between).0 =~= x3);
    lemma_strip_append(",\"name\":"@, x3, StripMode::Between);
    assert(strip_ws_from(x2, StripMode::Between).0 =~= x2);
    lemma_strip_append(render_text(s.id), x2, StripMode::Between);
    assert(strip_ws_from(x1, StripMode::Between).0 =~= x1);
    lemma_strip_append("{\"id\":"@, x1, StripMode::Between);
    assert(render_server(s) =~= "{\"id\":"@ + x1);
    assert(strip_ws_from(render_server(s), StripMode::Between).0 =~= render_server(s));
}

/// A non-empty run of rendered servers passes through the stripper.
proof fn lemma_strip_server_entries(v: Seq<ServerImage>)
    requires
        v.len() >= 1,
    ensures
        strip_ws_from(render_server_entries(v), StripMode::Between) == (
            render_server_entries(v),
            StripMode::Between,
        ),
    decreases v.len(),
{
    reveal_strlit(",");
    lemma_quote_count_zero(","@);
    lemma_strip_key_literal(","@);
    lemma_strip_server(v[0]);
    if v.len() > 1 {
        lemma_strip_server_entries(v.skip(1));
        lemma_strip_append(
            render_server(v[0]),
            ","@ + render_server_entries(v.skip(1)),
            StripMode::Between,
        );
        lemma_strip_append(","@, render_server_entries(v.skip(1)), StripMode::Between);
        assert(render_server_entries(v) =~= render_server(v[0]) + (","@
            + render_server_entries(v.skip(1))));
        assert(strip_ws_from(render_server_entries(v), StripMode::Between).0
            =~= render_server_entries(v));
    }
}

/// A rendered server array passes through the stripper.
proof fn lemma_strip_servers(v: Seq<ServerImage>)
    ensures
        strip_ws_from(render_servers(v), StripMode::Between) == (
            render_servers(v),
            StripMode::Between,
        ),
{
    reveal_strlit("[");
    reveal_strlit("]");
    reveal_strlit("[]");
    if v.len() == 0 {
        lemma_quote_count_zero("[]"@);
        lemma_strip_key_literal("[]"@);
    } else {
        lemma_quote_count_zero("["@);
        lemma_strip_key_literal("["@);
        lemma_quote_count_zero("]"@);
        lemma_strip_key_literal("]"@);
        lemma_strip_server_entries(v);
        lemma_strip_append("["@, render_server_entries(v) + "]"@, StripMode::Between);
        lemma_strip_append(render_server_entries(v), "]"@, StripMode::Between);
        assert(render_servers(v) =~= "["@ + (render_server_entries(v) + "]"@));
        assert(strip_ws_from(render_servers(v), StripMode::Between).0 =~= render_servers(v));
    }
}

/// A rendered test passes through the stripper, between tokens.
#[verifier::rlimit(100)]
proof fn lemma_strip_test(t: TestImage)
    ensures
        strip_ws_from(render_test(t), StripMode::Between) == (
            render_test(t),
            StripMode::Between,
        ),
{
    reveal(crate::codec::render_test);
    reveal_strlit("{\"id\":");
    reveal_strlit("id");
    reveal_strlit(",\"name\":");
    reveal_strlit("name");
    reveal_strlit(",\"description\":");
    reveal_strlit("description");
    reveal_strlit(",\"servers\":");
    reveal_strlit("servers");
    reveal_strlit("}");
    assert(("{\"id\":"@) =~= key_token('{', "id"@));
    lemma_strip_key('{', "id"@);
    assert((",\"name\":"@) =~= key_token(',', "name"@));
    lemma_strip_key(',', "name"@);
    assert((",\"description\":"@) =~= key_token(',', "description"@));
    lemma_strip_key(',', "description"@);
    assert((",\"servers\":"@) =~= key_token(',', "servers"@));
    lemma_strip_key(',', "servers"@);
    lemma_quote_count_zero("}"@);
    lemma_strip_key_literal("}"@);
    lemma_strip_render_text(t.id);
    lemma_strip_render_text(t.name);
    lemma_strip_render_text(t.description);
    lemma_strip_servers(t.servers);
    let x8 = "}"@;
    let x7 = render_servers(t.servers) + x8;
    let x6 = ",\"servers\":"@ + x7;
    let x5 = render_text(t.description) + x6;
    let x4 = ",\"description\":"@ + x5;
    let x3 = render_text(t.name) + x4;
    let x2 = ",\"name\":"@ + x3;
    let x1 = render_text(t.id) + x2;
    lemma_strip_append(render_servers(t.servers), x8, StripMode::Between);
    assert(strip_ws_from(x7, StripMode::Between).0 =~= x7);
    lemma_strip_append(",\"servers\":"@, x7, StripMode::Between);
    assert(strip_ws_from(x6, StripMode::Between).0 =~= x6);
    lemma_strip_append(render_text(t.description), x6, StripMode::Between);
    assert(strip_ws_from(x5, StripMode::Between).0 =~= x5);
    lemma_strip_append(",\"description\":"@, x5, StripMode::Between);
    assert(strip_ws_from(x4, StripMode::Between).0 =~= x4);
    lemma_strip_append(render_text(t.name), x4, StripMode::Between);
    assert(strip_ws_from(x3, StripMode::Between).0 =~= x3);
    lemma_strip_append(",\"name\":"@, x3, StripMode::Between);
    assert(strip_ws_from(x2, StripMode::Between).0 =~= x2);
    lemma_strip_append(render_text(t.id), x2, StripMode::Between);
    assert(strip_ws_from(x1, StripMode::Between).0 =~= x1);
    lemma_strip_append("{\"id\":"@, x1, StripMode::Between);
    assert(render_test(t) =~= "{\"id\":"@ + x1);
    assert(strip_ws_from(render_test(t), StripMode::Between).0 =~= render_test(t));
}

/// A non-empty run of rendered tests passes through the stripper.
proof fn lemma_strip_test_entries(v: Seq<TestImage>)
    requires
        v.len() >= 1,
    ensures
        strip_ws_from(render_test_entries(v), StripMode::Between) == (
            render_test_entries(v),
            StripMode::Between,
        ),
    decreases v.len(),
{
    reveal_strlit(",");
    lemma_quote_count_zero(","@);
    lemma_strip_key_literal(","@);
    lemma_strip_test(v[0]);
    if v.len() > 1 {
        lemma_strip_test_entries(v.skip(1));
        lemma_strip_append(
            render_test(v[0]),
            ","@ + render_test_entries(v.skip(1)),
            StripMode::Between,
        );
        lemma_strip_append(","@, render_test_entries(v.skip(1)), StripMode::Between);
        assert(render_test_entries(v) =~= render_test(v[0]) + (","@ + render_test_entries(
            v.skip(1),
        )));
        assert(strip_ws_from(render_test_entries(v), StripMode::Between).0
            =~= render_test_entries(v));
    }
}

/// A rendered test array passes through the stripper.
proof fn lemma_strip_tests(v: Seq<TestImage>)
    ensures
        strip_ws_from(render_tests(v), StripMode::Between) == (
            render_tests(v),
            StripMode::Between,
        ),
{
    reveal_strlit("[");
    reveal_strlit("]");
    reveal_strlit("[]");
    if v.len() == 0 {
        lemma_quote_count_zero("[]"@);
        lemma_strip_key_literal("[]"@);
    } else {
        lemma_quote_count_zero("["@);
        lemma_strip_key_literal("["@);
        lemma_quote_count_zero("]"@);
        lemma_strip_key_literal("]"@);
        lemma_strip_test_entries(v);
        lemma_strip_append("["@, render_test_entries(v) + "]"@, StripMode::Between);
        lemma_strip_append(render_test_entries(v), "]"@, StripMode::Between);
        assert(render_tests(v) =~= "["@ + (render_test_entries(v) + "]"@));
        assert(strip_ws_from(render_tests(v), StripMode::Between).0 =~= render_tests(v));
    }
}

/// A rendered configuration document holds no insignificant whitespace:
/// the stripper passes it through unchanged.
#[verifier::rlimit(100)]
pub proof fn lemma_strip_render_app(a: AppImage)
    ensures
        strip_ws(render_app(a)) == render_app(a),
{
    reveal_strlit("{\"name\":");
    reveal_strlit("name");
    reveal_strlit(",\"description\":");
    reveal_strlit("description");
    reveal_strlit(",\"tests\":");
    reveal_strlit("tests");
    reveal_strlit("}");
    assert(("{\"name\":"@) =~= key_token('{', "name"@));
    lemma_strip_key('{', "name"@);
    assert((",\"description\":"@) =~= key_token(',', "description"@));
    lemma_strip_key(',', "description"@);
    assert((",\"tests\":"@) =~= key_token(',', "tests"@));
    lemma_strip_key(',', "tests"@);
    lemma_quote_count_zero("}"@);
    lemma_strip_key_literal("}"@);
    lemma_strip_render_text(a.name);
    lemma_strip_render_text(a.description);
    lemma_strip_tests(a.tests);
    let x6 = "}"@;
    let x5 = render_tests(a.tests) + x6;
    let x4 = ",\"tests\":"@ + x5;
    let x3 = render_text(a.description) + x4;
    let x2 = ",\"description\":"@ + x3;
    let x1 = render_text(a.name) + x2;
    lemma_strip_append(render_tests(a.tests), x6, StripMode::Between);
    assert(strip_ws_from(x5, StripMode::Between).0 =~= x5);
    lemma_strip_append(",\"tests\":"@, x5, StripMode::Between);
    assert(strip_ws_from(x4, StripMode::Between).0 =~= x4);
    lemma_strip_append(render_text(a.description), x4, StripMode::Between);
    assert(strip_ws_from(x3, StripMode::Between).0 =~= x3);
    lemma_strip_append(",\"description\":"@, x3, StripMode::Between);
    assert(strip_ws_from(x2, StripMode::Between).0 =~= x2);
    lemma_strip_append(render_text(a.name), x2, StripMode::Between);
    assert(strip_ws_from(x1, StripMode::Between).0 =~= x1);
    lemma_strip_append("{\"name\":"@, x1, StripMode::Between);
    assert(render_app(a) =~= "{\"name\":"@ + x1);
    assert(strip_ws_from(render_app(a), StripMode::Between).0 =~= render_app(a));
}

// ---------------------------------------------------------------------
// the executable renderer
// ---------------------------------------------------------------------

/// Append an optional text: `null`, or the quoted string.
fn push_opt_text(out: &mut Vec<char>, o: &Option<String>)
    ensures
        final(out)@ == old(out)@ + render_opt_text(o.deep_view()),
{
    match o {
        Option::None => crate::json::push_exact(out, "null"),
        Option::Some(t) => crate::json::push_text(out, t),
    }
}

/// Append an optional port: `null`, or the number.
fn push_opt_u16(out: &mut Vec<char>, o: &Option<u16>)
    ensures
        final(out)@ == old(out)@ + render_opt_u16(*o),
{
    match o {
        Option::None => crate::json::push_exact(out, "null"),
        Option::Some(n) => crate::json::push_number(out, *n as u64),
    }
}

/// Append the members of a non-empty header object, from `from` on.
fn push_header_entries(out: &mut Vec<char>, h: &Vec<(String, String)>, from: usize)
    requires
        from < h@.len(),
    ensures
        final(out)@ == old(out)@ + render_header_entries(h.deep_view().skip(from as int)),
    decreases h@.len() - from,
{
    let ghost tail = h.deep_view().skip(from as int);
    proof {
        crate::config::lemma_deep_view_len(h);
        crate::config::lemma_deep_view_index(h, from as int);
        assert(tail[0] == h.deep_view()[from as int]);
    }
    let n = h.len();
    let p = &h[from];
    crate::json::push_text(out, &p.0);
    crate::json::push_exact(out, ":");
    crate::json::push_text(out, &p.1);
    proof {
        assert(out@ =~= old(out)@ + render_header_entry(tail[0]));
    }
    if from + 1 < n {
        crate::json::push_exact(out, ",");
        push_header_entries(out, h, from + 1);
        proof {
            assert(tail.skip(1) =~= h.deep_view().skip(from as int + 1));
            assert(out@ =~= old(out)@ + render_header_entries(tail));
        }
    } else {
        proof {
            assert(tail.len() == 1);
        }
    }
}

/// Append a header object.
fn push_headers(out: &mut Vec<char>, h: &Vec<(String, String)>)
    ensures
        final(out)@ == old(out)@ + render_headers(h.deep_view()),
{
    proof {
        crate::config::lemma_deep_view_len(h);
    }
    if h.len() == 0 {
        crate::json::push_exact(out, "{}");
    } else {
        crate::json::push_exact(out, "{");
        push_header_entries(out, h, 0);
        crate::json::push_exact(out, "}");
        proof {
            assert(h.deep_view().skip(0) =~= h.deep_view());
            assert(out@ =~= old(out)@ + render_headers(h.deep_view()));
        }
    }
}

/// Append a mock response object.
fn push_mock(out: &mut Vec<char>, m: &crate::config::MockResponseConfiguration)
    ensures
        final(out)@ == old(out)@ + render_mock(m.deep_view()),
{
    crate::json::push_exact(out, "{\"response\":");
    push_opt_text(out, &m.response);
    crate::json::push_exact(out, ",\"status\":");
    crate::json::push_number(out, m.status as u64);
    crate::json::push_exact(out, ",\"headers\":");
    push_headers(out, &m.headers);
    crate::json::push_exact(out, ",\"delay\":");
    crate::json::push_number(out, m.delay);
    crate::json::push_exact(out, "}");
    proof {
        reveal(crate::codec::render_mock);
        assert(out@ =~= old(out)@ + render_mock(m.deep_view()));
    }
}

/// Append a route object.
fn push_route(out: &mut Vec<char>, r: &crate::config::RouteConfiguration)
    ensures
        final(out)@ == old(out)@ + render_route(r.deep_view()),
{
    crate::json::push_exact(out, "{\"endpoint\":");
    crate::json::push_text(out, &r.endpoint);
    crate::json::push_exact(out, "}");
    proof {
        reveal(crate::codec::render_route);
        assert(out@ =~= old(out)@ + render_route(r.deep_view()));
    }
}

/// Append a TLS configuration object.
fn push_https(out: &mut Vec<char>, h: &crate::config::HttpsConfiguration)
    ensures
        final(out)@ == old(out)@ + render_https(h.deep_view()),
{
    crate::json::push_exact(out, "{\"serverCertificate\":");
    crate::json::push_text(out, &h.server_certificate);
    crate::json::push_exact(out, ",\"privateKey\":");
    crate::json::push_text(out, &h.private_key);
    crate::json::push_exact(out, ",\"httpsPort\":");
    crate::json::push_number(out, h.https_port as u64);
    crate::json::push_exact(out, "}");
    proof {
        reveal(crate::codec::render_https);
        assert(out@ =~= old(out)@ + render_https(h.deep_view()));
    }
}

/// Append an optional mock response.
fn push_opt_mock(out: &mut Vec<char>, o: &Option<crate::config::MockResponseConfiguration>)
    ensures
        final(out)@ == old(out)@ + render_opt_mock(o.deep_view()),
{
    match o {
        Option::None => crate::json::push_exact(out, "null"),
        Option::Some(m) => push_mock(out, m),
    }
}

/// Append an optional route.
fn push_opt_route(out: &mut Vec<char>, o: &Option<crate::config::RouteConfiguration>)
    ensures
        final(out)@ == old(out)@ + render_opt_route(o.deep_view()),
{
    match o {
        Option::None => crate::json::push_exact(out, "null"),
        Option::Some(r) => push_route(out, r),
    }
}

/// Append optional TLS material.
fn push_opt_https(out: &mut Vec<char>, o: &Option<crate::config::HttpsConfiguration>)
    ensures
        final(out)@ == old(out)@ + render_opt_https(o.deep_view()),
{
    match o {
        Option::None => crate::json::push_exact(out, "null"),
        Option::Some(h) => push_https(out, h),
    }
}

/// Append an endpoint object.
fn push_endpoint(out: &mut Vec<char>, e: &crate::config::EndpointConfiguration)
    ensures
        final(out)@ == old(out)@ + render_endpoint(e.deep_view()),
{
    crate::json::push_exact(out, "{\"id\":");
    crate::json::push_text(out, &e.id);
    crate::json::push_exact(out, ",\"endpoint\":");
    crate::json::push_text(out, &e.endpoint);
    crate::json::push_exact(out, ",\"method\":");
    crate::json::push_text(out, &e.method);
    crate::json::push_exact(out, ",\"soapAction\":");
    push_opt_text(out, &e.soap_action);
    crate::json::push_exact(out, ",\"mockResponse\":");
    push_opt_mock(out, &e.mock_response);
    crate::json::push_exact(out, ",\"route\":");
    push_opt_route(out, &e.route);
    crate::json::push_exact(out, "}");
    proof {
        reveal(crate::codec::render_endpoint);
        assert(out@ =~= old(out)@ + render_endpoint(e.deep_view()));
    }
}

/// Append the elements of a non-empty endpoint array, from `from` on.
fn push_endpoint_entries(
    out: &mut Vec<char>,
    v: &Vec<crate::config::EndpointConfiguration>,
    from: usize,
)
    requires
        from < v@.len(),
    ensures
        final(out)@ == old(out)@ + render_endpoint_entries(v.deep_view().skip(from as int)),
    decreases v@.len() - from,
{
    let ghost tail = v.deep_view().skip(from as int);
    proof {
        crate::config::lemma_deep_view_len(v);
        crate::config::lemma_deep_view_index(v, from as int);
        assert(tail[0] == v.deep_view()[from as int]);
    }
    let n = v.len();
    push_endpoint(out, &v[from]);
    if from + 1 < n {
        crate::json::push_exact(out, ",");
        push_endpoint_entries(out, v, from + 1);
        proof {
            assert(tail.skip(1) =~= v.deep_view().skip(from as int + 1));
            assert(out@ =~= old(out)@ + render_endpoint_entries(tail));
        }
    } else {
        proof {
            assert(tail.len() == 1);
        }
    }
}

/// Append an endpoint array.
fn push_endpoints(out: &mut Vec<char>, v: &Vec<crate::config::EndpointConfiguration>)
    ensures
        final(out)@ == old(out)@ + render_endpoints(v.deep_view()),
{
    proof {
        crate::config::lemma_deep_view_len(v);
    }
    if v.len() == 0 {
        crate::json::push_exact(out, "[]");
    } else {
        crate::json::push_exact(out, "[");
        push_endpoint_entries(out, v, 0);
        crate::json::push_exact(out, "]");
        proof {
            assert(v.deep_view().skip(0) =~= v.deep_view());
            assert(out@ =~= old(out)@ + render_endpoints(v.deep_view()));
        }
    }
}

/// Append a server object.
fn push_server(out: &mut Vec<char>, s: &crate::config::ServerConfiguration)
    ensures
        final(out)@ == old(out)@ + render_server(s.deep_view()),
{
    crate::json::push_exact(out, "{\"id\":");
    crate::json::push_text(out, &s.id);
    crate::json::push_exact(out, ",\"name\":");
    crate::json::push_text(out, &s.name);
    crate::json::push_exact(out, ",\"httpPort\":");
    push_opt_u16(out, &s.http_port);
    crate::json::push_exact(out, ",\"endpoints\":");
    push_endpoints(out, &s.endpoints);
    crate::json::push_exact(out, ",\"httpsConfig\":");
    push_opt_https(out, &s.https_config);
    crate::json::push_exact(out, "}");
    proof {
        reveal(crate::codec::render_server);
        assert(out@ =~= old(out)@ + render_server(s.deep_view()));
    }
}

/// Append the elements of a non-empty server array, from `from` on.
fn push_server_entries(
    out: &mut Vec<char>,
    v: &Vec<crate::config::ServerConfiguration>,
    from: usize,
)
    requires
        from < v@.len(),
    ensures
        final(out)@ == old(out)@ + render_server_entries(v.deep_view().skip(from as int)),
    decreases v@.len() - from,
{
    let ghost tail = v.deep_view().skip(from as int);
    proof {
        crate::config::lemma_deep_view_len(v);
        crate::config::lemma_deep_view_index(v, from as int);
        assert(tail[0] == v.deep_view()[from as int]);
    }
    let n = v.len();
    push_server(out, &v[from]);
    if from + 1 < n {
        crate::json::push_exact(out, ",");
        push_server_entries(out, v, from + 1);
        proof {
            assert(tail.skip(1) =~= v.deep_view().skip(from as int + 1));
            assert(out@ =~= old(out)@ + render_server_entries(tail));
        }
    } else {
        proof {
            assert(tail.len() == 1);
        }
    }
}

/// Append a server array.
fn push_servers(out: &mut Vec<char>, v: &Vec<crate::config::ServerConfiguration>)
    ensures
        final(out)@ == old(out)@ + render_servers(v.deep_view()),
{
    proof {
        crate::config::lemma_deep_view_len(v);
    }
    if v.len() == 0 {
        crate::json::push_exact(out, "[]");
    } else {
        crate::json::push_exact(out, "[");
        push_server_entries(out, v, 0);
        crate::json::push_exact(out, "]");
        proof {
            assert(v.deep_view().skip(0) =~= v.deep_view());
            assert(out@ =~= old(out)@ + render_servers(v.deep_view()));
        }
    }
}

/// Append a test object.
fn push_test(out: &mut Vec<char>, t: &crate::config::TestConfiguration)
    ensures
        final(out)@ == old(out)@ + render_test(t.deep_view()),
{
    crate::json::push_exact(out, "{\"id\":");
    crate::json::push_text(out, &t.id);
    crate::json::push_exact(out, ",\"name\":");
    crate::json::push_text(out, &t.name);
    crate::json::push_exact(out, ",\"description\":");
    crate::json::push_text(out, &t.description);
    crate::json::push_exact(out, ",\"servers\":");
    push_servers(out, &t.servers);
    crate::json::push_exact(out, "}");
    proof {
        reveal(crate::codec::render_test);
        assert(out@ =~= old(out)@ + render_test(t.deep_view()));
    }
}

/// Append the elements of a non-empty test array, from `from` on.
fn push_test_entries(out: &mut Vec<char>, v: &Vec<crate::config::TestConfiguration>, from: usize)
    requires
        from < v@.len(),
    ensures
        final(out)@ == old(out)@ + render_test_entries(v.deep_view().skip(from as int)),
    decreases v@.len() - from,
{
    let ghost tail = v.deep_view().skip(from as int);
    proof {
        crate::config::lemma_deep_view_len(v);
        crate::config::lemma_deep_view_index(v, from as int);
        assert(tail[0] == v.deep_view()[from as int]);
    }
    let n = v.len();
    push_test(out, &v[from]);
    if from + 1 < n {
        crate::json::push_exact(out, ",");
        push_test_entries(out, v, from + 1);
        proof {
            assert(tail.skip(1) =~= v.deep_view().skip(from as int + 1));
            assert(out@ =~= old(out)@ + render_test_entries(tail));
        }
    } else {
        proof {
            assert(tail.len() == 1);
        }
    }
}

/// Append a test array.
fn push_tests(out: &mut Vec<char>, v: &Vec<crate::config::TestConfiguration>)
    ensures
        final(out)@ == old(out)@ + render_tests(v.deep_view()),
{
    proof {
        crate::config::lemma_deep_view_len(v);
    }
    if v.len() == 0 {
        crate::json::push_exact(out, "[]");
    } else {
        crate::json::push_exact(out, "[");
        push_test_entries(out, v, 0);
        crate::json::push_exact(out, "]");
        proof {
            assert(v.deep_view().skip(0) =~= v.deep_view());
            assert(out@ =~= old(out)@ + render_tests(v.deep_view()));
        }
    }
}

impl crate::config::AppConfiguration {
    /// Render the configuration as its JSON document.
    pub fn to_json(&self) -> (r: String)
        ensures
            r@ == render_app(self.deep_view()),
    {
        let mut out: Vec<char> = Vec::new();
        crate::json::push_exact(&mut out, "{\"name\":");
        crate::json::push_text(&mut out, &self.name);
        crate::json::push_exact(&mut out, ",\"description\":");
        crate::json::push_text(&mut out, &self.description);
        crate::json::push_exact(&mut out, ",\"tests\":");
        push_tests(&mut out, &self.tests);
        crate::json::push_exact(&mut out, "}");
        proof {
            assert(out@ =~= render_app(self.deep_view()));
        }
        crate::json::chars_to_string(&out)
    }
}

// ---------------------------------------------------------------------
// the executable parser
// ---------------------------------------------------------------------

/// Parse an optional text at `pos`.
fn parse_opt_text(chars: &Vec<char>, pos: usize) -> (r: Option<(Option<String>, usize)>)
    requires
        pos <= chars@.len(),
    ensures
        (r is Some) <==> (spec_parse_opt_text(chars@.skip(pos as int)) is Some),
        r matches Some(x) ==> spec_parse_opt_text(chars@.skip(pos as int)) matches Some(y)
            && x.0.deep_view() == y.0 && pos <= x.1 <= chars@.len() && chars@.skip(x.1 as int)
            == y.1,
{
    let ghost s = chars@.skip(pos as int);
    if pos < chars.len() && chars[pos] == 'n' {
        proof {
            assert(s[0] == chars@[pos as int]);
        }
        match crate::json::parse_exact(chars, pos, "null") {
            Some(p) => Some((None, p)),
            None => None,
        }
    } else {
        proof {
            if s.len() > 0 {
                assert(s[0] == chars@[pos as int]);
            }
        }
        match crate::json::parse_text(chars, pos) {
            Some((t, p)) => Some((Some(t), p)),
            None => None,
        }
    }
}

/// Parse a number at `pos` that must fit a `u64`.
fn parse_u64_value(chars: &Vec<char>, pos: usize) -> (r: Option<(u64, usize)>)
    requires
        pos <= chars@.len(),
    ensures
        (r is Some) <==> (spec_parse_u64_value(chars@.skip(pos as int)) is Some),
        r matches Some(x) ==> spec_parse_u64_value(chars@.skip(pos as int)) matches Some(y) && x.0
            == y.0 && pos <= x.1 <= chars@.len() && chars@.skip(x.1 as int) == y.1,
{
    crate::json::parse_u64(chars, pos)
}

/// Parse a number at `pos` that must fit a `u16`.
fn parse_u16_value(chars: &Vec<char>, pos: usize) -> (r: Option<(u16, usize)>)
    requires
        pos <= chars@.len(),
    ensures
        (r is Some) <==> (spec_parse_u16_value(chars@.skip(pos as int)) is Some),
        r matches Some(x) ==> spec_parse_u16_value(chars@.skip(pos as int)) matches Some(y) && x.0
            == y.0 && pos <= x.1 <= chars@.len() && chars@.skip(x.1 as int) == y.1,
{
    match crate::json::parse_u64(chars, pos) {
        Some((v, p)) => {
            if v <= 65535 {
                Some((v as u16, p))
            } else {
                None
            }
        },
        None => None,
    }
}

/// Parse an optional port at `pos`.
fn parse_opt_u16(chars: &Vec<char>, pos: usize) -> (r: Option<(Option<u16>, usize)>)
    requires
        pos <= chars@.len(),
    ensures
        (r is Some) <==> (spec_parse_opt_u16(chars@.skip(pos as int)) is Some),
        r matches Some(x) ==> spec_parse_opt_u16(chars@.skip(pos as int)) matches Some(y) && x.0
            == y.0 && pos <= x.1 <= chars@.len() && chars@.skip(x.1 as int) == y.1,
{
    let ghost s = chars@.skip(pos as int);
    if pos < chars.len() && chars[pos] == 'n' {
        proof {
            assert(s[0] == chars@[pos as int]);
        }
        match crate::json::parse_exact(chars, pos, "null") {
            Some(p) => Some((None, p)),
            None => None,
        }
    } else {
        proof {
            if s.len() > 0 {
                assert(s[0] == chars@[pos as int]);
            }
        }
        match parse_u16_value(chars, pos) {
            Some((n, p)) => Some((Some(n), p)),
            None => None,
        }
    }
}

/// Parse one header member at `pos`.
fn parse_header_entry(chars: &Vec<char>, pos: usize) -> (r: Option<((String, String), usize)>)
    requires
        pos <= chars@.len(),
    ensures
        (r is Some) <==> (spec_parse_header_entry(chars@.skip(pos as int)) is Some),
        r matches Some(x) ==> spec_parse_header_entry(chars@.skip(pos as int)) matches Some(y) && (
        x.0.0@, x.0.1@) == y.0 && pos <= x.1 <= chars@.len() && chars@.skip(x.1 as int) == y.1,
{
    let (key, p1) = match crate::json::parse_text(chars, pos) {
        Some(v) => v,
        None => {
            return None;
        },
    };
    let p2 = match crate::json::parse_exact(chars, p1, ":") {
        Some(v) => v,
        None => {
            return None;
        },
    };
    let (value, p3) = match crate::json::parse_text(chars, p2) {
        Some(v) => v,
        None => {
            return None;
        },
    };
    Some(((key, value), p3))
}

/// Parse a header object at `pos`.
fn parse_headers(chars: &Vec<char>, pos: usize) -> (r: Option<(Vec<(String, String)>, usize)>)
    requires
        pos <= chars@.len(),
    ensures
        (r is Some) <==> (spec_parse_headers(chars@.skip(pos as int)) is Some),
        r matches Some(x) ==> spec_parse_headers(chars@.skip(pos as int)) matches Some(y)
            && x.0.deep_view() == y.0 && pos <= x.1 <= chars@.len() && chars@.skip(x.1 as int)
            == y.1,
{
    proof {
        reveal(crate::codec::spec_parse_headers);
    }
    let p1 = match crate::json::parse_exact(chars, pos, "{") {
        Some(v) => v,
        None => {
            return None;
        },
    };
    let ghost s1 = chars@.skip(p1 as int);
    if p1 < chars.len() && chars[p1] == '}' {
        proof {
            assert(s1[0] == chars@[p1 as int]);
            assert(s1.skip(1) =~= chars@.skip(p1 as int + 1));
        }
        let empty: Vec<(String, String)> = Vec::new();
        proof {
            crate::config::lemma_deep_view_len(&empty);
            assert(empty.deep_view() =~= Seq::<(Seq<char>, Seq<char>)>::empty());
        }
        return Some((empty, p1 + 1));
    }
    proof {
        if s1.len() > 0 {
            assert(s1[0] == chars@[p1 as int]);
        }
    }
    let mut acc: Vec<(String, String)> = Vec::new();
    let mut i: usize = p1;
    proof {
        crate::config::lemma_deep_view_len(&acc);
        assert(acc.deep_view() =~= Seq::<(Seq<char>, Seq<char>)>::empty());
    }
    loop
        invariant
            pos <= p1 <= i <= chars@.len(),
            s1 == chars@.skip(p1 as int),
            spec_parse_headers(chars@.skip(pos as int)) == take_header_entries(s1, Seq::empty()),
            take_header_entries(s1, Seq::empty()) == take_header_entries(
                chars@.skip(i as int),
                acc.deep_view(),
            ),
        decreases chars@.len() - i,
    {
        let ghost before = chars@.skip(i as int);
        let (kv, q) = match parse_header_entry(chars, i) {
            Some(v) => v,
            None => {
                return None;
            },
        };
        proof {
            lemma_parse_header_entry_len(before);
        }
        let ghost pre = acc.deep_view();
        acc.push(kv);
        proof {
            crate::config::lemma_deep_view_len(&acc);
            assert forall|k: int| 0 <= k < acc@.len() implies acc.deep_view()[k] == pre.push(
                (kv.0@, kv.1@),
            )[k] by {
                crate::config::lemma_deep_view_index(&acc, k);
            }
            assert(acc.deep_view() =~= pre.push((kv.0@, kv.1@)));
        }
        if q < chars.len() && chars[q] == ',' {
            proof {
                let rem = chars@.skip(q as int);
                assert(rem[0] == chars@[q as int]);
                assert(rem.skip(1) =~= chars@.skip(q as int + 1));
            }
            i = q + 1;
        } else if q < chars.len() && chars[q] == '}' {
            proof {
                let rem = chars@.skip(q as int);
                assert(rem[0] == chars@[q as int]);
                assert(rem.skip(1) =~= chars@.skip(q as int + 1));
            }
            return Some((acc, q + 1));
        } else {
            proof {
                let rem = chars@.skip(q as int);
                if rem.len() > 0 {
                    assert(rem[0] == chars@[q as int]);
                }
            }
            return None;
        }
    }
}

/// Whether the string holds exactly the given text.
fn text_is(s: &String, lit: &str) -> (r: bool)
    ensures
        r == (s@ == lit@),
{
    let l = lit.to_owned();
    *s == l
}

/// Parse a mock response object at `pos`: members in any order, each at
/// most once, absent optional members defaulting.
#[verifier::rlimit(100)]
fn parse_mock(chars: &Vec<char>, pos: usize) -> (r: Option<(crate::config::MockResponseConfiguration, usize)>)
    requires
        pos <= chars@.len(),
    ensures
        (r is Some) <==> (spec_parse_mock(chars@.skip(pos as int)) is Some),
        r matches Some(x) ==> spec_parse_mock(chars@.skip(pos as int)) matches Some(y)
            && x.0.deep_view() == y.0 && pos <= x.1 <= chars@.len() && chars@.skip(x.1 as int)
            == y.1,
{
    proof {
        reveal(crate::codec::spec_parse_mock);
    }
    let p1 = match crate::json::parse_exact(chars, pos, "{") {
        Some(v) => v,
        None => {
            return None;
        },
    };
    let mut f_response: Option<Option<String>> = None;
    let mut f_status: Option<u16> = None;
    let mut f_headers: Option<Vec<(String, String)>> = None;
    let mut f_delay: Option<u64> = None;
    let mut i: usize = p1;
    loop
        invariant
            pos <= p1 <= i <= chars@.len(),
            spec_parse_exact(chars@.skip(pos as int), "{"@) == Some(
                chars@.skip(p1 as int),
            ),
            take_mock_members(chars@.skip(p1 as int), mock_fields_empty())
                == take_mock_members(chars@.skip(i as int), MockFields { response: f_response.deep_view(), status: f_status.deep_view(), headers: f_headers.deep_view(), delay: f_delay.deep_view() }),
        decreases chars@.len() - i,
    {
        proof {
            reveal(crate::codec::spec_parse_mock);
        }
        let ghost cur = MockFields { response: f_response.deep_view(), status: f_status.deep_view(), headers: f_headers.deep_view(), delay: f_delay.deep_view() };
        let ghost before = chars@.skip(i as int);
        let (key, q1) = match crate::json::parse_text(chars, i) {
            Some(v) => v,
            None => {
                return None;
            },
        };
        let q2 = match crate::json::parse_exact(chars, q1, ":") {
            Some(v) => v,
            None => {
                return None;
            },
        };
        let q3: usize;
        if text_is(&key, "response") {
            if f_response.is_some() {
                return None;
            }
            let (v, q) = match parse_opt_text(chars, q2) {
                Some(v) => v,
                None => {
                    return None;
                },
            };
            f_response = Some(v);
            q3 = q;
        } else if text_is(&key, "status") {
            if f_status.is_some() {
                return None;
            }
            let (v, q) = match parse_u16_value(chars, q2) {
                Some(v) => v,
                None => {
                    return None;
                },
            };
            f_status = Some(v);
            q3 = q;
        } else if text_is(&key, "headers") {
            if f_headers.is_some() {
                return None;
            }
            let (v, q) = match parse_headers(chars, q2) {
                Some(v) => v,
                None => {
                    return None;
                },
            };
            f_headers = Some(v);
            q3 = q;
        } else if text_is(&key, "delay") {
            if f_delay.is_some() {
                return None;
            }
            let (v, q) = match parse_u64_value(chars, q2) {
                Some(v) => v,
                None => {
                    return None;
                },
            };
            f_delay = Some(v);
            q3 = q;
        } else {
            let q = match crate::json::skip_any_value(chars, q2) {
                Some(v) => v,
                None => {
                    return None;
                },
            };
            q3 = q;
        }
        if q3 < chars.len() && chars[q3] == ',' {
            proof {
                let rem = chars@.skip(q3 as int);
                assert(rem[0] == chars@[q3 as int]);
                assert(rem.skip(1) =~= chars@.skip(q3 as int + 1));
            }
            i = q3 + 1;
        } else if q3 < chars.len() && chars[q3] == '}' {
            proof {
                let rem = chars@.skip(q3 as int);
                assert(rem[0] == chars@[q3 as int]);
                assert(rem.skip(1) =~= chars@.skip(q3 as int + 1));
            }
            let response = match f_response {
                Some(v) => v,
                None => None,
            };
            let status = match f_status {
                Some(v) => v,
                None => {
                    return None;
                },
            };
            let headers = match f_headers {
                Some(v) => v,
                None => {
                    return None;
                },
            };
            let delay = match f_delay {
                Some(v) => v,
                None => {
                    return None;
                },
            };
            return Some((crate::config::MockResponseConfiguration { response, status, headers, delay }, q3 + 1));
        } else {
            proof {
                let rem = chars@.skip(q3 as int);
                if rem.len() > 0 {
                    assert(rem[0] == chars@[q3 as int]);
                }
            }
            return None;
        }
    }
}

/// Parse a route object at `pos`: members in any order, each at
/// most once, absent optional members defaulting.
#[verifier::rlimit(100)]
fn parse_route(chars: &Vec<char>, pos: usize) -> (r: Option<(crate::config::RouteConfiguration, usize)>)
    requires
        pos <= chars@.len(),
    ensures
        (r is Some) <==> (spec_parse_route(chars@.skip(pos as int)) is Some),
        r matches Some(x) ==> spec_parse_route(chars@.skip(pos as int)) matches Some(y)
            && x.0.deep_view() == y.0 && pos <= x.1 <= chars@.len() && chars@.skip(x.1 as int)
            == y.1,
{
    proof {
        reveal(crate::codec::spec_parse_route);
    }
    let p1 = match crate::json::parse_exact(chars, pos, "{") {
        Some(v) => v,
        None => {
            return None;
        },
    };
    let mut f_endpoint: Option<String> = None;
    let mut i: usize = p1;
    loop
        invariant
            pos <= p1 <= i <= chars@.len(),
            spec_parse_exact(chars@.skip(pos as int), "{"@) == Some(
                chars@.skip(p1 as int),
            ),
            take_route_members(chars@.skip(p1 as int), route_fields_empty())
                == take_route_members(chars@.skip(i as int), RouteFields { endpoint: f_endpoint.deep_view() }),
        decreases chars@.len() - i,
    {
        proof {
            reveal(crate::codec::spec_parse_route);
        }
        let ghost cur = RouteFields { endpoint: f_endpoint.deep_view() };
        let ghost before = chars@.skip(i as int);
        let (key, q1) = match crate::json::parse_text(chars, i) {
            Some(v) => v,
            None => {
                return None;
            },
        };
        let q2 = match crate::json::parse_exact(chars, q1, ":") {
            Some(v) => v,
            None => {
                return None;
            },
        };
        let q3: usize;
        if text_is(&key, "endpoint") {
            if f_endpoint.is_some() {
                return None;
            }
            let (v, q) = match crate::json::parse_text(chars, q2) {
                Some(v) => v,
                None => {
                    return None;
                },
            };
            f_endpoint = Some(v);
            q3 = q;
        } else {
            let q = match crate::json::skip_any_value(chars, q2) {
                Some(v) => v,
                None => {
                    return None;
                },
            };
            q3 = q;
        }
        if q3 < chars.len() && chars[q3] == ',' {
            proof {
                let rem = chars@.skip(q3 as int);
                assert(rem[0] == chars@[q3 as int]);
                assert(rem.skip(1) =~= chars@.skip(q3 as int + 1));
            }
            i = q3 + 1;
        } else if q3 < chars.len() && chars[q3] == '}' {
            proof {
                let rem = chars@.skip(q3 as int);
                assert(rem[0] == chars@[q3 as int]);
                assert(rem.skip(1) =~= chars@.skip(q3 as int + 1));
            }
            let endpoint = match f_endpoint {
                Some(v) => v,
                None => {
                    return None;
                },
            };
            return Some((crate::config::RouteConfiguration { endpoint }, q3 + 1));
        } else {
            proof {
                let rem = chars@.skip(q3 as int);
                if rem.len() > 0 {
                    assert(rem[0] == chars@[q3 as int]);
                }
            }
            return None;
        }
    }
}

/// Parse a TLS configuration object at `pos`: members in any order, each at
/// most once, absent optional members defaulting.
#[verifier::rlimit(100)]
fn parse_https(chars: &Vec<char>, pos: usize) -> (r: Option<(crate::config::HttpsConfiguration, usize)>)
    requires
        pos <= chars@.len(),
    ensures
        (r is Some) <==> (spec_parse_https(chars@.skip(pos as int)) is Some),
        r matches Some(x) ==> spec_parse_https(chars@.skip(pos as int)) matches Some(y)
            && x.0.deep_view() == y.0 && pos <= x.1 <= chars@.len() && chars@.skip(x.1 as int)
            == y.1,
{
    proof {
        reveal(crate::codec::spec_parse_https);
    }
    let p1 = match crate::json::parse_exact(chars, pos, "{") {
        Some(v) => v,
        None => {
            return None;
        },
    };
    let mut f_server_certificate: Option<String> = None;
    let mut f_private_key: Option<String> = None;
    let mut f_https_port: Option<u16> = None;
    let mut i: usize = p1;
    loop
        invariant
            pos <= p1 <= i <= chars@.len(),
            spec_parse_exact(chars@.skip(pos as int), "{"@) == Some(
                chars@.skip(p1 as int),
            ),
            take_https_members(chars@.skip(p1 as int), https_fields_empty())
                == take_https_members(chars@.skip(i as int), HttpsFields { server_certificate: f_server_certificate.deep_view(), private_key: f_private_key.deep_view(), https_port: f_https_port.deep_view() }),
        decreases chars@.len() - i,
    {
        proof {
            reveal(crate::codec::spec_parse_https);
        }
        let ghost cur = HttpsFields { server_certificate: f_server_certificate.deep_view(), private_key: f_private_key.deep_view(), https_port: f_https_port.deep_view() };
        let ghost before = chars@.skip(i as int);
        let (key, q1) = match crate::json::parse_text(chars, i) {
            Some(v) => v,
            None => {
                return None;
            },
        };
        let q2 = match crate::json::parse_exact(chars, q1, ":") {
            Some(v) => v,
            None => {
                return None;
            },
        };
        let q3: usize;
        if text_is(&key, "serverCertificate") {
            if f_server_certificate.is_some() {
                return None;
            }
            let (v, q) = match crate::json::parse_text(chars, q2) {
                Some(v) => v,
                None => {
                    return None;
                },
            };
            f_server_certificate = Some(v);
            q3 = q;
        } else if text_is(&key, "privateKey") {
            if f_private_key.is_some() {
                return None;
            }
            let (v, q) = match crate::json::parse_text(chars, q2) {
                Some(v) => v,
                None => {
                    return None;
                },
            };
            f_private_key = Some(v);
            q3 = q;
        } else if text_is(&key, "httpsPort") {
            if f_https_port.is_some() {
                return None;
            }
            let (v, q) = match parse_u16_value(chars, q2) {
                Some(v) => v,
                None => {
                    return None;
                },
            };
            f_https_port = Some(v);
            q3 = q;
        } else {
            let q = match crate::json::skip_any_value(chars, q2) {
                Some(v) => v,
                None => {
                    return None;
                },
            };
            q3 = q;
        }
        if q3 < chars.len() && chars[q3] == ',' {
            proof {
                let rem = chars@.skip(q3 as int);
                assert(rem[0] == chars@[q3 as int]);
                assert(rem.skip(1) =~= chars@.skip(q3 as int + 1));
            }
            i = q3 + 1;
        } else if q3 < chars.len() && chars[q3] == '}' {
            proof {
                let rem = chars@.skip(q3 as int);
                assert(rem[0] == chars@[q3 as int]);
                assert(rem.skip(1) =~= chars@.skip(q3 as int + 1));
            }
            let server_certificate = match f_server_certificate {
                Some(v) => v,
                None => {
                    return None;
                },
            };
            let private_key = match f_private_key {
                Some(v) => v,
                None => {
                    return None;
                },
            };
            let https_port = match f_https_port {
                Some(v) => v,
                None => {
                    return None;
                },
            };
            return Some((crate::config::HttpsConfiguration { server_certificate, private_key, https_port }, q3 + 1));
        } else {
            proof {
                let rem = chars@.skip(q3 as int);
                if rem.len() > 0 {
                    assert(rem[0] == chars@[q3 as int]);
                }
            }
            return None;
        }
    }
}

/// Parse a endpoint object at `pos`: members in any order, each at
/// most once, absent optional members defaulting.
#[verifier::rlimit(100)]
fn parse_endpoint(chars: &Vec<char>, pos: usize) -> (r: Option<(crate::config::EndpointConfiguration, usize)>)
    requires
        pos <= chars@.len(),
    ensures
        (r is Some) <==> (spec_parse_endpoint(chars@.skip(pos as int)) is Some),
        r matches Some(x) ==> spec_parse_endpoint(chars@.skip(pos as int)) matches Some(y)
            && x.0.deep_view() == y.0 && pos <= x.1 <= chars@.len() && chars@.skip(x.1 as int)
            == y.1,
{
    proof {
        reveal(crate::codec::spec_parse_endpoint);
    }
    let p1 = match crate::json::parse_exact(chars, pos, "{") {
        Some(v) => v,
        None => {
            return None;
        },
    };
    let mut f_id: Option<String> = None;
    let mut f_endpoint: Option<String> = None;
    let mut f_method: Option<String> = None;
    let mut f_soap_action: Option<Option<String>> = None;
    let mut f_mock_response: Option<Option<crate::config::MockResponseConfiguration>> = None;
    let mut f_route: Option<Option<crate::config::RouteConfiguration>> = None;
    let mut i: usize = p1;
    loop
        invariant
            pos <= p1 <= i <= chars@.len(),
            spec_parse_exact(chars@.skip(pos as int), "{"@) == Some(
                chars@.skip(p1 as int),
            ),
            take_endpoint_members(chars@.skip(p1 as int), endpoint_fields_empty())
                == take_endpoint_members(chars@.skip(i as int), EndpointFields { id: f_id.deep_view(), endpoint: f_endpoint.deep_view(), method: f_method.deep_view(), soap_action: f_soap_action.deep_view(), mock_response: f_mock_response.deep_view(), route: f_route.deep_view() }),
        decreases chars@.len() - i,
    {
        proof {
            reveal(crate::codec::spec_parse_endpoint);
        }
        let ghost cur = EndpointFields { id: f_id.deep_view(), endpoint: f_endpoint.deep_view(), method: f_method.deep_view(), soap_action: f_soap_action.deep_view(), mock_response: f_mock_response.deep_view(), route: f_route.deep_view() };
        let ghost before = chars@.skip(i as int);
        let (key, q1) = match crate::json::parse_text(chars, i) {
            Some(v) => v,
            None => {
                return None;
            },
        };
        let q2 = match crate::json::parse_exact(chars, q1, ":") {
            Some(v) => v,
            None => {
                return None;
            },
        };
        let q3: usize;
        if text_is(&key, "id") {
            if f_id.is_some() {
                return None;
            }
            let (v, q) = match crate::json::parse_text(chars, q2) {
                Some(v) => v,
                None => {
                    return None;
                },
            };
            f_id = Some(v);
            q3 = q;
        } else if text_is(&key, "endpoint") {
            if f_endpoint.is_some() {
                return None;
            }
            let (v, q) = match crate::json::parse_text(chars, q2) {
                Some(v) => v,
                None => {
                    return None;
                },
            };
            f_endpoint = Some(v);
            q3 = q;
        } else if text_is(&key, "method") {
            if f_method.is_some() {
                return None;
            }
            let (v, q) = match crate::json::parse_text(chars, q2) {
                Some(v) => v,
                None => {
                    return None;
                },
            };
            f_method = Some(v);
            q3 = q;
        } else if text_is(&key, "soapAction") {
            if f_soap_action.is_some() {
                return None;
            }
            let (v, q) = match parse_opt_text(chars, q2) {
                Some(v) => v,
                None => {
                    return None;
                },
            };
            f_soap_action = Some(v);
            q3 = q;
        } else if text_is(&key, "mockResponse") {
            if f_mock_response.is_some() {
                return None;
            }
            let (v, q) = match parse_opt_mock(chars, q2) {
                Some(v) => v,
                None => {
                    return None;
                },
            };
            f_mock_response = Some(v);
            q3 = q;
        } else if text_is(&key, "route") {
            if f_route.is_some() {
                return None;
            }
            let (v, q) = match parse_opt_route(chars, q2) {
                Some(v) => v,
                None => {
                    return None;
                },
            };
            f_route = Some(v);
            q3 = q;
        } else {
            let q = match crate::json::skip_any_value(chars, q2) {
                Some(v) => v,
                None => {
                    return None;
                },
            };
            q3 = q;
        }
        if q3 < chars.len() && chars[q3] == ',' {
            proof {
                let rem = chars@.skip(q3 as int);
                assert(rem[0] == chars@[q3 as int]);
                assert(rem.skip(1) =~= chars@.skip(q3 as int + 1));
            }
            i = q3 + 1;
        } else if q3 < chars.len() && chars[q3] == '}' {
            proof {
                let rem = chars@.skip(q3 as int);
                assert(rem[0] == chars@[q3 as int]);
                assert(rem.skip(1) =~= chars@.skip(q3 as int + 1));
            }
            let id = match f_id {
                Some(v) => v,
                None => {
                    return None;
                },
            };
            let endpoint = match f_endpoint {
                Some(v) => v,
                None => {
                    return None;
                },
            };
            let method = match f_method {
                Some(v) => v,
                None => {
                    return None;
                },
            };
            let soap_action = match f_soap_action {
                Some(v) => v,
                None => None,
            };
            let mock_response = match f_mock_response {
                Some(v) => v,
                None => None,
            };
            let route = match f_route {
                Some(v) => v,
                None => None,
            };
            return Some((crate::config::EndpointConfiguration { id, endpoint, method, soap_action, mock_response, route }, q3 + 1));
        } else {
            proof {
                let rem = chars@.skip(q3 as int);
                if rem.len() > 0 {
                    assert(rem[0] == chars@[q3 as int]);
                }
            }
            return None;
        }
    }
}

/// Parse a server object at `pos`: members in any order, each at
/// most once, absent optional members defaulting.
#[verifier::rlimit(100)]
fn parse_server(chars: &Vec<char>, pos: usize) -> (r: Option<(crate::config::ServerConfiguration, usize)>)
    requires
        pos <= chars@.len(),
    ensures
        (r is Some) <==> (spec_parse_server(chars@.skip(pos as int)) is Some),
        r matches Some(x) ==> spec_parse_server(chars@.skip(pos as int)) matches Some(y)
            && x.0.deep_view() == y.0 && pos <= x.1 <= chars@.len() && chars@.skip(x.1 as int)
            == y.1,
{
    proof {
        reveal(crate::codec::spec_parse_server);
    }
    let p1 = match crate::json::parse_exact(chars, pos, "{") {
        Some(v) => v,
        None => {
            return None;
        },
    };
    let mut f_id: Option<String> = None;
    let mut f_name: Option<String> = None;
    let mut f_http_port: Option<Option<u16>> = None;
    let mut f_endpoints: Option<Vec<crate::config::EndpointConfiguration>> = None;
    let mut f_https_config: Option<Option<crate::config::HttpsConfiguration>> = None;
    let mut i: usize = p1;
    loop
        invariant
            pos <= p1 <= i <= chars@.len(),
            spec_parse_exact(chars@.skip(pos as int), "{"@) == Some(
                chars@.skip(p1 as int),
            ),
            take_server_members(chars@.skip(p1 as int), server_fields_empty())
                == take_server_members(chars@.skip(i as int), ServerFields { id: f_id.deep_view(), name: f_name.deep_view(), http_port: f_http_port.deep_view(), endpoints: f_endpoints.deep_view(), https_config: f_https_config.deep_view() }),
        decreases chars@.len() - i,
    {
        proof {
            reveal(crate::codec::spec_parse_server);
        }
        let ghost cur = ServerFields { id: f_id.deep_view(), name: f_name.deep_view(), http_port: f_http_port.deep_view(), endpoints: f_endpoints.deep_view(), https_config: f_https_config.deep_view() };
        let ghost before = chars@.skip(i as int);
        let (key, q1) = match crate::json::parse_text(chars, i) {
            Some(v) => v,
            None => {
                return None;
            },
        };
        let q2 = match crate::json::parse_exact(chars, q1, ":") {
            Some(v) => v,
            None => {
                return None;
            },
        };
        let q3: usize;
        if text_is(&key, "id") {
            if f_id.is_some() {
                return None;
            }
            let (v, q) = match crate::json::parse_text(chars, q2) {
                Some(v) => v,
                None => {
                    return None;
                },
            };
            f_id = Some(v);
            q3 = q;
        } else if text_is(&key, "name") {
            if f_name.is_some() {
                return None;
            }
            let (v, q) = match crate::json::parse_text(chars, q2) {
                Some(v) => v,
                None => {
                    return None;
                },
            };
            f_name = Some(v);
            q3 = q;
        } else if text_is(&key, "httpPort") {
            if f_http_port.is_some() {
                return None;
            }
            let (v, q) = match parse_opt_u16(chars, q2) {
                Some(v) => v,
                None => {
                    return None;
                },
            };
            f_http_port = Some(v);
            q3 = q;
        } else if text_is(&key, "endpoints") {
            if f_endpoints.is_some() {
                return None;
            }
            let (v, q) = match parse_endpoints(chars, q2) {
                Some(v) => v,
                None => {
                    return None;
                },
            };
            f_endpoints = Some(v);
            q3 = q;
        } else if text_is(&key, "httpsConfig") {
            if f_https_config.is_some() {
                return None;
            }
            let (v, q) = match parse_opt_https(chars, q2) {
                Some(v) => v,
                None => {
                    return None;
                },
            };
            f_https_config = Some(v);
            q3 = q;
        } else {
            let q = match crate::json::skip_any_value(chars, q2) {
                Some(v) => v,
                None => {
                    return None;
                },
            };
            q3 = q;
        }
        if q3 < chars.len() && chars[q3] == ',' {
            proof {
                let rem = chars@.skip(q3 as int);
                assert(rem[0] == chars@[q3 as int]);
                assert(rem.skip(1) =~= chars@.skip(q3 as int + 1));
            }
            i = q3 + 1;
        } else if q3 < chars.len() && chars[q3] == '}' {
            proof {
                let rem = chars@.skip(q3 as int);
                assert(rem[0] == chars@[q3 as int]);
                assert(rem.skip(1) =~= chars@.skip(q3 as int + 1));
            }
            let id = match f_id {
                Some(v) => v,
                None => {
                    return None;
                },
            };
            let name = match f_name {
                Some(v) => v,
                None => {
                    return None;
                },
            };
            let http_port = match f_http_port {
                Some(v) => v,
                None => None,
            };
            let endpoints = match f_endpoints {
                Some(v) => v,
                None => {
                    return None;
                },
            };
            let https_config = match f_https_config {
                Some(v) => v,
                None => None,
            };
            return Some((crate::config::ServerConfiguration { id, name, http_port, endpoints, https_config }, q3 + 1));
        } else {
            proof {
                let rem = chars@.skip(q3 as int);
                if rem.len() > 0 {
                    assert(rem[0] == chars@[q3 as int]);
                }
            }
            return None;
        }
    }
}

/// Parse a test object at `pos`: members in any order, each at
/// most once, absent optional members defaulting.
#[verifier::rlimit(100)]
fn parse_test(chars: &Vec<char>, pos: usize) -> (r: Option<(crate::config::TestConfiguration, usize)>)
    requires
        pos <= chars@.len(),
    ensures
        (r is Some) <==> (spec_parse_test(chars@.skip(pos as int)) is Some),
        r matches Some(x) ==> spec_parse_test(chars@.skip(pos as int)) matches Some(y)
            && x.0.deep_view() == y.0 && pos <= x.1 <= chars@.len() && chars@.skip(x.1 as int)
            == y.1,
{
    proof {
        reveal(crate::codec::spec_parse_test);
    }
    let p1 = match crate::json::parse_exact(chars, pos, "{") {
        Some(v) => v,
        None => {
            return None;
        },
    };
    let mut f_id: Option<String> = None;
    let mut f_name: Option<String> = None;
    let mut f_description: Option<String> = None;
    let mut f_servers: Option<Vec<crate::config::ServerConfiguration>> = None;
    let mut i: usize = p1;
    loop
        invariant
            pos <= p1 <= i <= chars@.len(),
            spec_parse_exact(chars@.skip(pos as int), "{"@) == Some(
                chars@.skip(p1 as int),
            ),
            take_test_members(chars@.skip(p1 as int), test_fields_empty())
                == take_test_members(chars@.skip(i as int), TestFields { id: f_id.deep_view(), name: f_name.deep_view(), description: f_description.deep_view(), servers: f_servers.deep_view() }),
        decreases chars@.len() - i,
    {
        proof {
            reveal(crate::codec::spec_parse_test);
        }
        let ghost cur = TestFields { id: f_id.deep_view(), name: f_name.deep_view(), description: f_description.deep_view(), servers: f_servers.deep_view() };
        let ghost before = chars@.skip(i as int);
        let (key, q1) = match crate::json::parse_text(chars, i) {
            Some(v) => v,
            None => {
                return None;
            },
        };
        let q2 = match crate::json::parse_exact(chars, q1, ":") {
            Some(v) => v,
            None => {
                return None;
            },
        };
        let q3: usize;
        if text_is(&key, "id") {
            if f_id.is_some() {
                return None;
            }
            let (v, q) = match crate::json::parse_text(chars, q2) {
                Some(v) => v,
                None => {
                    return None;
                },
            };
            f_id = Some(v);
            q3 = q;
        } else if text_is(&key, "name") {
            if f_name.is_some() {
                return None;
            }
            let (v, q) = match crate::json::parse_text(chars, q2) {
                Some(v) => v,
                None => {
                    return None;
                },
            };
            f_name = Some(v);
            q3 = q;
        } else if text_is(&key, "description") {
            if f_description.is_some() {
                return None;
            }
            let (v, q) = match crate::json::parse_text(chars, q2) {
                Some(v) => v,
                None => {
                    return None;
                },
            };
            f_description = Some(v);
            q3 = q;
        } else if text_is(&key, "servers") {
            if f_servers.is_some() {
                return None;
            }
            let (v, q) = match parse_servers(chars, q2) {
                Some(v) => v,
                None => {
                    return None;
                },
            };
            f_servers = Some(v);
            q3 = q;
        } else {
            let q = match crate::json::skip_any_value(chars, q2) {
                Some(v) => v,
                None => {
                    return None;
                },
            };
            q3 = q;
        }
        if q3 < chars.len() && chars[q3] == ',' {
            proof {
                let rem = chars@.skip(q3 as int);
                assert(rem[0] == chars@[q3 as int]);
                assert(rem.skip(1) =~= chars@.skip(q3 as int + 1));
            }
            i = q3 + 1;
        } else if q3 < chars.len() && chars[q3] == '}' {
            proof {
                let rem = chars@.skip(q3 as int);
                assert(rem[0] == chars@[q3 as int]);
                assert(rem.skip(1) =~= chars@.skip(q3 as int + 1));
            }
            let id = match f_id {
                Some(v) => v,
                None => {
                    return None;
                },
            };
            let name = match f_name {
                Some(v) => v,
                None => {
                    return None;
                },
            };
            let description = match f_description {
                Some(v) => v,
                None => {
                    return None;
                },
            };
            let servers = match f_servers {
                Some(v) => v,
                None => {
                    return None;
                },
            };
            return Some((crate::config::TestConfiguration { id, name, description, servers }, q3 + 1));
        } else {
            proof {
                let rem = chars@.skip(q3 as int);
                if rem.len() > 0 {
                    assert(rem[0] == chars@[q3 as int]);
                }
            }
            return None;
        }
    }
}

/// Parse a configuration object at `pos`: members in any order, each at
/// most once, absent optional members defaulting.
#[verifier::rlimit(100)]
fn parse_app(chars: &Vec<char>, pos: usize) -> (r: Option<(crate::config::AppConfiguration, usize)>)
    requires
        pos <= chars@.len(),
    ensures
        (r is Some) <==> (spec_parse_app(chars@.skip(pos as int)) is Some),
        r matches Some(x) ==> spec_parse_app(chars@.skip(pos as int)) matches Some(y)
            && x.0.deep_view() == y.0 && pos <= x.1 <= chars@.len() && chars@.skip(x.1 as int)
            == y.1,
{
    proof {
        reveal(crate::codec::spec_parse_app);
    }
    let p1 = match crate::json::parse_exact(chars, pos, "{") {
        Some(v) => v,
        None => {
            return None;
        },
    };
    let mut f_name: Option<String> = None;
    let mut f_description: Option<String> = None;
    let mut f_tests: Option<Vec<crate::config::TestConfiguration>> = None;
    let mut i: usize = p1;
    loop
        invariant
            pos <= p1 <= i <= chars@.len(),
            spec_parse_exact(chars@.skip(pos as int), "{"@) == Some(
                chars@.skip(p1 as int),
            ),
            take_app_members(chars@.skip(p1 as int), app_fields_empty())
                == take_app_members(chars@.skip(i as int), AppFields { name: f_name.deep_view(), description: f_description.deep_view(), tests: f_tests.deep_view() }),
        decreases chars@.len() - i,
    {
        proof {
            reveal(crate::codec::spec_parse_app);
        }
        let ghost cur = AppFields { name: f_name.deep_view(), description: f_description.deep_view(), tests: f_tests.deep_view() };
        let ghost before = chars@.skip(i as int);
        let (key, q1) = match crate::json::parse_text(chars, i) {
            Some(v) => v,
            None => {
                return None;
            },
        };
        let q2 = match crate::json::parse_exact(chars, q1, ":") {
            Some(v) => v,
            None => {
                return None;
            },
        };
        let q3: usize;
        if text_is(&key, "name") {
            if f_name.is_some() {
                return None;
            }
            let (v, q) = match crate::json::parse_text(chars, q2) {
                Some(v) => v,
                None => {
                    return None;
                },
            };
            f_name = Some(v);
            q3 = q;
        } else if text_is(&key, "description") {
            if f_description.is_some() {
                return None;
            }
            let (v, q) = match crate::json::parse_text(chars, q2) {
                Some(v) => v,
                None => {
                    return None;
                },
            };
            f_description = Some(v);
            q3 = q;
        } else if text_is(&key, "tests") {
            if f_tests.is_some() {
                return None;
            }
            let (v, q) = match parse_tests(chars, q2) {
                Some(v) => v,
                None => {
                    return None;
                },
            };
            f_tests = Some(v);
            q3 = q;
        } else {
            let q = match crate::json::skip_any_value(chars, q2) {
                Some(v) => v,
                None => {
                    return None;
                },
            };
            q3 = q;
        }
        if q3 < chars.len() && chars[q3] == ',' {
            proof {
                let rem = chars@.skip(q3 as int);
                assert(rem[0] == chars@[q3 as int]);
                assert(rem.skip(1) =~= chars@.skip(q3 as int + 1));
            }
            i = q3 + 1;
        } else if q3 < chars.len() && chars[q3] == '}' {
            proof {
                let rem = chars@.skip(q3 as int);
                assert(rem[0] == chars@[q3 as int]);
                assert(rem.skip(1) =~= chars@.skip(q3 as int + 1));
            }
            let name = match f_name {
                Some(v) => v,
                None => {
                    return None;
                },
            };
            let description = match f_description {
                Some(v) => v,
                None => {
                    return None;
                },
            };
            let tests = match f_tests {
                Some(v) => v,
                None => {
                    return None;
                },
            };
            return Some((crate::config::AppConfiguration { name, description, tests }, q3 + 1));
        } else {
            proof {
                let rem = chars@.skip(q3 as int);
                if rem.len() > 0 {
                    assert(rem[0] == chars@[q3 as int]);
                }
            }
            return None;
        }
    }
}



/// Parse an optional mock response at `pos`.
fn parse_opt_mock(chars: &Vec<char>, pos: usize) -> (r: Option<
    (Option<crate::config::MockResponseConfiguration>, usize),
>)
    requires
        pos <= chars@.len(),
    ensures
        (r is Some) <==> (spec_parse_opt_mock(chars@.skip(pos as int)) is Some),
        r matches Some(x) ==> spec_parse_opt_mock(chars@.skip(pos as int)) matches Some(y)
            && x.0.deep_view() == y.0 && pos <= x.1 <= chars@.len() && chars@.skip(x.1 as int)
            == y.1,
{
    let ghost s = chars@.skip(pos as int);
    if pos < chars.len() && chars[pos] == 'n' {
        proof {
            assert(s[0] == chars@[pos as int]);
        }
        match crate::json::parse_exact(chars, pos, "null") {
            Some(p) => Some((None, p)),
            None => None,
        }
    } else {
        proof {
            if s.len() > 0 {
                assert(s[0] == chars@[pos as int]);
            }
        }
        match parse_mock(chars, pos) {
            Some((m, p)) => Some((Some(m), p)),
            None => None,
        }
    }
}

/// Parse an optional route at `pos`.
fn parse_opt_route(chars: &Vec<char>, pos: usize) -> (r: Option<
    (Option<crate::config::RouteConfiguration>, usize),
>)
    requires
        pos <= chars@.len(),
    ensures
        (r is Some) <==> (spec_parse_opt_route(chars@.skip(pos as int)) is Some),
        r matches Some(x) ==> spec_parse_opt_route(chars@.skip(pos as int)) matches Some(y)
            && x.0.deep_view() == y.0 && pos <= x.1 <= chars@.len() && chars@.skip(x.1 as int)
            == y.1,
{
    let ghost s = chars@.skip(pos as int);
    if pos < chars.len() && chars[pos] == 'n' {
        proof {
            assert(s[0] == chars@[pos as int]);
        }
        match crate::json::parse_exact(chars, pos, "null") {
            Some(p) => Some((None, p)),
            None => None,
        }
    } else {
        proof {
            if s.len() > 0 {
                assert(s[0] == chars@[pos as int]);
            }
        }
        match parse_route(chars, pos) {
            Some((v, p)) => Some((Some(v), p)),
            None => None,
        }
    }
}

/// Parse optional TLS material at `pos`.
fn parse_opt_https(chars: &Vec<char>, pos: usize) -> (r: Option<
    (Option<crate::config::HttpsConfiguration>, usize),
>)
    requires
        pos <= chars@.len(),
    ensures
        (r is Some) <==> (spec_parse_opt_https(chars@.skip(pos as int)) is Some),
        r matches Some(x) ==> spec_parse_opt_https(chars@.skip(pos as int)) matches Some(y)
            && x.0.deep_view() == y.0 && pos <= x.1 <= chars@.len() && chars@.skip(x.1 as int)
            == y.1,
{
    let ghost s = chars@.skip(pos as int);
    if pos < chars.len() && chars[pos] == 'n' {
        proof {
            assert(s[0] == chars@[pos as int]);
        }
        match crate::json::parse_exact(chars, pos, "null") {
            Some(p) => Some((None, p)),
            None => None,
        }
    } else {
        proof {
            if s.len() > 0 {
                assert(s[0] == chars@[pos as int]);
            }
        }
        match parse_https(chars, pos) {
            Some((v, p)) => Some((Some(v), p)),
            None => None,
        }
    }
}


/// Parse an endpoint array at `pos`.
fn parse_endpoints(chars: &Vec<char>, pos: usize) -> (r: Option<
    (Vec<crate::config::EndpointConfiguration>, usize),
>)
    requires
        pos <= chars@.len(),
    ensures
        (r is Some) <==> (spec_parse_endpoints(chars@.skip(pos as int)) is Some),
        r matches Some(x) ==> spec_parse_endpoints(chars@.skip(pos as int)) matches Some(y)
            && x.0.deep_view() == y.0 && pos <= x.1 <= chars@.len() && chars@.skip(x.1 as int)
            == y.1,
{
    proof {
        reveal(crate::codec::spec_parse_endpoints);
    }
    let p1 = match crate::json::parse_exact(chars, pos, "[") {
        Some(v) => v,
        None => {
            return None;
        },
    };
    let ghost s1 = chars@.skip(p1 as int);
    if p1 < chars.len() && chars[p1] == ']' {
        proof {
            assert(s1[0] == chars@[p1 as int]);
            assert(s1.skip(1) =~= chars@.skip(p1 as int + 1));
        }
        let empty: Vec<crate::config::EndpointConfiguration> = Vec::new();
        proof {
            crate::config::lemma_deep_view_len(&empty);
            assert(empty.deep_view() =~= Seq::<EndpointImage>::empty());
        }
        return Some((empty, p1 + 1));
    }
    proof {
        if s1.len() > 0 {
            assert(s1[0] == chars@[p1 as int]);
        }
    }
    let mut acc: Vec<crate::config::EndpointConfiguration> = Vec::new();
    let mut i: usize = p1;
    proof {
        crate::config::lemma_deep_view_len(&acc);
        assert(acc.deep_view() =~= Seq::<EndpointImage>::empty());
    }
    loop
        invariant
            pos <= p1 <= i <= chars@.len(),
            s1 == chars@.skip(p1 as int),
            spec_parse_endpoints(chars@.skip(pos as int)) == take_endpoint_entries(
                s1,
                Seq::empty(),
            ),
            take_endpoint_entries(s1, Seq::empty()) == take_endpoint_entries(
                chars@.skip(i as int),
                acc.deep_view(),
            ),
        decreases chars@.len() - i,
    {
        let ghost before = chars@.skip(i as int);
        let (e, q) = match parse_endpoint(chars, i) {
            Some(v) => v,
            None => {
                return None;
            },
        };
        proof {
            lemma_parse_endpoint_len(before);
        }
        let ghost pre = acc.deep_view();
        let ghost ev = e.deep_view();
        acc.push(e);
        proof {
            crate::config::lemma_deep_view_len(&acc);
            assert forall|k: int| 0 <= k < acc@.len() implies acc.deep_view()[k] == pre.push(
                ev,
            )[k] by {
                crate::config::lemma_deep_view_index(&acc, k);
            }
            assert(acc.deep_view() =~= pre.push(ev));
        }
        if q < chars.len() && chars[q] == ',' {
            proof {
                let rem = chars@.skip(q as int);
                assert(rem[0] == chars@[q as int]);
                assert(rem.skip(1) =~= chars@.skip(q as int + 1));
            }
            i = q + 1;
        } else if q < chars.len() && chars[q] == ']' {
            proof {
                let rem = chars@.skip(q as int);
                assert(rem[0] == chars@[q as int]);
                assert(rem.skip(1) =~= chars@.skip(q as int + 1));
            }
            return Some((acc, q + 1));
        } else {
            proof {
                let rem = chars@.skip(q as int);
                if rem.len() > 0 {
                    assert(rem[0] == chars@[q as int]);
                }
            }
            return None;
        }
    }
}


/// Parse a server array at `pos`.
fn parse_servers(chars: &Vec<char>, pos: usize) -> (r: Option<
    (Vec<crate::config::ServerConfiguration>, usize),
>)
    requires
        pos <= chars@.len(),
    ensures
        (r is Some) <==> (spec_parse_servers(chars@.skip(pos as int)) is Some),
        r matches Some(x) ==> spec_parse_servers(chars@.skip(pos as int)) matches Some(y)
            && x.0.deep_view() == y.0 && pos <= x.1 <= chars@.len() && chars@.skip(x.1 as int)
            == y.1,
{
    proof {
        reveal(crate::codec::spec_parse_servers);
    }
    let p1 = match crate::json::parse_exact(chars, pos, "[") {
        Some(v) => v,
        None => {
            return None;
        },
    };
    let ghost s1 = chars@.skip(p1 as int);
    if p1 < chars.len() && chars[p1] == ']' {
        proof {
            assert(s1[0] == chars@[p1 as int]);
            assert(s1.skip(1) =~= chars@.skip(p1 as int + 1));
        }
        let empty: Vec<crate::config::ServerConfiguration> = Vec::new();
        proof {
            crate::config::lemma_deep_view_len(&empty);
            assert(empty.deep_view() =~= Seq::<ServerImage>::empty());
        }
        return Some((empty, p1 + 1));
    }
    proof {
        if s1.len() > 0 {
            assert(s1[0] == chars@[p1 as int]);
        }
    }
    let mut acc: Vec<crate::config::ServerConfiguration> = Vec::new();
    let mut i: usize = p1;
    proof {
        crate::config::lemma_deep_view_len(&acc);
        assert(acc.deep_view() =~= Seq::<ServerImage>::empty());
    }
    loop
        invariant
            pos <= p1 <= i <= chars@.len(),
            s1 == chars@.skip(p1 as int),
            spec_parse_servers(chars@.skip(pos as int)) == take_server_entries(s1, Seq::empty()),
            take_server_entries(s1, Seq::empty()) == take_server_entries(
                chars@.skip(i as int),
                acc.deep_view(),
            ),
        decreases chars@.len() - i,
    {
        let ghost before = chars@.skip(i as int);
        let (e, q) = match parse_server(chars, i) {
            Some(v) => v,
            None => {
                return None;
            },
        };
        proof {
            lemma_parse_server_len(before);
        }
        let ghost pre = acc.deep_view();
        let ghost ev = e.deep_view();
        acc.push(e);
        proof {
            crate::config::lemma_deep_view_len(&acc);
            assert forall|k: int| 0 <= k < acc@.len() implies acc.deep_view()[k] == pre.push(
                ev,
            )[k] by {
                crate::config::lemma_deep_view_index(&acc, k);
            }
            assert(acc.deep_view() =~= pre.push(ev));
        }
        if q < chars.len() && chars[q] == ',' {
            proof {
                let rem = chars@.skip(q as int);
                assert(rem[0] == chars@[q as int]);
                assert(rem.skip(1) =~= chars@.skip(q as int + 1));
            }
            i = q + 1;
        } else if q < chars.len() && chars[q] == ']' {
            proof {
                let rem = chars@.skip(q as int);
                assert(rem[0] == chars@[q as int]);
                assert(rem.skip(1) =~= chars@.skip(q as int + 1));
            }
            return Some((acc, q + 1));
        } else {
            proof {
                let rem = chars@.skip(q as int);
                if rem.len() > 0 {
                    assert(rem[0] == chars@[q as int]);
                }
            }
            return None;
        }
    }
}


/// Parse a test array at `pos`.
fn parse_tests(chars: &Vec<char>, pos: usize) -> (r: Option<
    (Vec<crate::config::TestConfiguration>, usize),
>)
    requires
        pos <= chars@.len(),
    ensures
        (r is Some) <==> (spec_parse_tests(chars@.skip(pos as int)) is Some),
        r matches Some(x) ==> spec_parse_tests(chars@.skip(pos as int)) matches Some(y)
            && x.0.deep_view() == y.0 && pos <= x.1 <= chars@.len() && chars@.skip(x.1 as int)
            == y.1,
{
    proof {
        reveal(crate::codec::spec_parse_tests);
    }
    let p1 = match crate::json::parse_exact(chars, pos, "[") {
        Some(v) => v,
        None => {
            return None;
        },
    };
    let ghost s1 = chars@.skip(p1 as int);
    if p1 < chars.len() && chars[p1] == ']' {
        proof {
            assert(s1[0] == chars@[p1 as int]);
            assert(s1.skip(1) =~= chars@.skip(p1 as int + 1));
        }
        let empty: Vec<crate::config::TestConfiguration> = Vec::new();
        proof {
            crate::config::lemma_deep_view_len(&empty);
            assert(empty.deep_view() =~= Seq::<TestImage>::empty());
        }
        return Some((empty, p1 + 1));
    }
    proof {
        if s1.len() > 0 {
            assert(s1[0] == chars@[p1 as int]);
        }
    }
    let mut acc: Vec<crate::config::TestConfiguration> = Vec::new();
    let mut i: usize = p1;
    proof {
        crate::config::lemma_deep_view_len(&acc);
        assert(acc.deep_view() =~= Seq::<TestImage>::empty());
    }
    loop
        invariant
            pos <= p1 <= i <= chars@.len(),
            s1 == chars@.skip(p1 as int),
            spec_parse_tests(chars@.skip(pos as int)) == take_test_entries(s1, Seq::empty()),
            take_test_entries(s1, Seq::empty()) == take_test_entries(
                chars@.skip(i as int),
                acc.deep_view(),
            ),
        decreases chars@.len() - i,
    {
        let ghost before = chars@.skip(i as int);
        let (e, q) = match parse_test(chars, i) {
            Some(v) => v,
            None => {
                return None;
            },
        };
        proof {
            lemma_parse_test_len(before);
        }
        let ghost pre = acc.deep_view();
        let ghost ev = e.deep_view();
        acc.push(e);
        proof {
            crate::config::lemma_deep_view_len(&acc);
            assert forall|k: int| 0 <= k < acc@.len() implies acc.deep_view()[k] == pre.push(
                ev,
            )[k] by {
                crate::config::lemma_deep_view_index(&acc, k);
            }
            assert(acc.deep_view() =~= pre.push(ev));
        }
        if q < chars.len() && chars[q] == ',' {
            proof {
                let rem = chars@.skip(q as int);
                assert(rem[0] == chars@[q as int]);
                assert(rem.skip(1) =~= chars@.skip(q as int + 1));
            }
            i = q + 1;
        } else if q < chars.len() && chars[q] == ']' {
            proof {
                let rem = chars@.skip(q as int);
                assert(rem[0] == chars@[q as int]);
                assert(rem.skip(1) =~= chars@.skip(q as int + 1));
            }
            return Some((acc, q + 1));
        } else {
            proof {
                let rem = chars@.skip(q as int);
                if rem.len() > 0 {
                    assert(rem[0] == chars@[q as int]);
                }
            }
            return None;
        }
    }
}


impl crate::config::AppConfiguration {
    /// Read a configuration back from its JSON document.  Whitespace
    /// between tokens is ignored, object members may come in any order,
    /// absent optional members default to `None`, and the full JSON
    /// escape set (surrogate pairs included) is read.  Unknown members
    /// are ignored, whatever value they carry; a duplicated known member
    /// is rejected.  Succeeds exactly on a
    /// document the codec's grammar accepts in full, with nothing left
    /// over; anything else is a `FileError`.
    pub fn from_json(s: &str) -> (r: Result<
        crate::config::AppConfiguration,
        crate::error::ApplicationError,
    >)
        ensures
            (r is Ok) <==> (spec_parse_app(strip_ws(s@)) matches Some(p) && p.1.len() == 0),
            r matches Ok(c) ==> spec_parse_app(strip_ws(s@)) matches Some(p) && c.deep_view()
                == p.0,
            r is Err ==> r->Err_0 is FileError && r->Err_0.spec_detail()
                == "invalid configuration document"@,
    {
        let raw = crate::json::text_chars(s);
        let chars = crate::json::strip_ws_chars(&raw);
        proof {
            assert(chars@.skip(0) =~= strip_ws(s@));
        }
        match parse_app(&chars, 0) {
            Some((config, p)) => {
                if p == chars.len() {
                    proof {
                        assert(chars@.skip(p as int).len() == 0);
                    }
                    Ok(config)
                } else {
                    proof {
                        assert(chars@.skip(p as int).len() > 0);
                    }
                    Err(
                        crate::error::ApplicationError::FileError(
                            "invalid configuration document".to_owned(),
                        ),
                    )
                }
            },
            None => Err(
                crate::error::ApplicationError::FileError(
                    "invalid configuration document".to_owned(),
                ),
            ),
        }
    }
}

} // verus!
