//! The configuration model: an immutable, declarative description of a
//! named test run.  An `AppConfiguration` holds tests; a test holds
//! servers; a server holds endpoint rules; an endpoint may carry a mock
//! response and a (reserved, never consulted) route.
//!
//! Every type has a ghost image made of sequences and plain values, reached
//! through `deep_view()`; contracts all speak in terms of those images.

use vstd::prelude::*;
use vstd::std_specs::cmp::PartialEqSpec;

verus! {

/// Ghost image of [`MockResponseConfiguration`].
pub ghost struct MockResponseImage {
    pub response: Option<Seq<char>>,
    pub status: u16,
    pub headers: Seq<(Seq<char>, Seq<char>)>,
    pub delay: u64,
}

/// Ghost image of [`RouteConfiguration`].
pub ghost struct RouteImage {
    pub endpoint: Seq<char>,
}

/// Ghost image of [`EndpointConfiguration`].
pub ghost struct EndpointImage {
    pub id: Seq<char>,
    pub endpoint: Seq<char>,
    pub method: Seq<char>,
    pub soap_action: Option<Seq<char>>,
    pub mock_response: Option<MockResponseImage>,
    pub route: Option<RouteImage>,
}

/// Ghost image of [`HttpsConfiguration`].
pub ghost struct HttpsImage {
    pub server_certificate: Seq<char>,
    pub private_key: Seq<char>,
    pub https_port: u16,
}

/// Ghost image of [`ServerConfiguration`].
pub ghost struct ServerImage {
    pub id: Seq<char>,
    pub name: Seq<char>,
    pub http_port: Option<u16>,
    pub endpoints: Seq<EndpointImage>,
    pub https_config: Option<HttpsImage>,
}

/// Ghost image of [`TestConfiguration`].
pub ghost struct TestImage {
    pub id: Seq<char>,
    pub name: Seq<char>,
    pub description: Seq<char>,
    pub servers: Seq<ServerImage>,
}

/// Ghost image of [`AppConfiguration`].
pub ghost struct AppImage {
    pub name: Seq<char>,
    pub description: Seq<char>,
    pub tests: Seq<TestImage>,
}

/// A canned response: body (absent means empty), status code, one header
/// line per pair (duplicate keys allowed), and an artificial delay in
/// milliseconds before the response is emitted.
#[derive(Debug)]
pub struct MockResponseConfiguration {
    /// The body to return when the mock is called.
    pub response: Option<String>,
    /// The status code to return when the mock is called.
    pub status: u16,
    /// The headers to return when the mock is called.
    pub headers: Vec<(String, String)>,
    /// Time to wait in milliseconds before returning the response.
    pub delay: u64,
}

/// A forwarding target. Present in the model, never consulted by routing;
/// reserved for future use.
#[derive(Debug)]
pub struct RouteConfiguration {
    /// The URL of the forwarding target.
    pub endpoint: String,
}

/// One routing rule: a path pattern (a regular expression matched against
/// the request path) plus an exact, case-sensitive method string.
#[derive(Debug)]
pub struct EndpointConfiguration {
    /// Unique id, assigned once at construction.
    pub id: String,
    /// Path pattern, a regular expression matched anywhere in the path.
    pub endpoint: String,
    /// HTTP method, compared exactly.
    pub method: String,
    /// Protocol-action tag, carried but unused by routing.
    pub soap_action: Option<String>,
    /// The mock response, if any.
    pub mock_response: Option<MockResponseConfiguration>,
    /// The reserved route, if any.
    pub route: Option<RouteConfiguration>,
}

/// TLS material for one listener: certificate path, private-key path and
/// port, all three required together.
#[derive(Debug)]
pub struct HttpsConfiguration {
    /// Path to the server certificate.
    pub server_certificate: String,
    /// Path to the private key.
    pub private_key: String,
    /// The TLS port.
    pub https_port: u16,
}

/// One logical server: an optional plain-HTTP port, an ordered endpoint
/// list, and optional TLS material.  A server with neither port binds
/// nothing; that is a legal, silent state.
#[derive(Debug)]
pub struct ServerConfiguration {
    /// Unique id, assigned once at construction.
    pub id: String,
    /// The name of the server.
    pub name: String,
    /// The plain-HTTP port, if any.
    pub http_port: Option<u16>,
    /// The endpoint rules, matched in declared order.
    pub endpoints: Vec<EndpointConfiguration>,
    /// The TLS configuration, if any.
    pub https_config: Option<HttpsConfiguration>,
}

/// One named, selectable scenario consisting of mock servers.
#[derive(Debug)]
pub struct TestConfiguration {
    /// Unique id, assigned once at construction.
    pub id: String,
    /// The name of the test.
    pub name: String,
    /// The description of the test.
    pub description: String,
    /// The server configurations.
    pub servers: Vec<ServerConfiguration>,
}

/// The root of a loaded configuration document.
#[derive(Debug)]
pub struct AppConfiguration {
    /// The name of the configuration.
    pub name: String,
    /// The description of the configuration.
    pub description: String,
    /// The test configurations.
    pub tests: Vec<TestConfiguration>,
}

impl DeepView for MockResponseConfiguration {
    type V = MockResponseImage;

    open spec fn deep_view(&self) -> MockResponseImage {
        MockResponseImage {
            response: self.response.deep_view(),
            status: self.status,
            headers: self.headers.deep_view(),
            delay: self.delay,
        }
    }
}

impl DeepView for RouteConfiguration {
    type V = RouteImage;

    open spec fn deep_view(&self) -> RouteImage {
        RouteImage { endpoint: self.endpoint@ }
    }
}

impl DeepView for EndpointConfiguration {
    type V = EndpointImage;

    open spec fn deep_view(&self) -> EndpointImage {
        EndpointImage {
            id: self.id@,
            endpoint: self.endpoint@,
            method: self.method@,
            soap_action: self.soap_action.deep_view(),
            mock_response: self.mock_response.deep_view(),
            route: self.route.deep_view(),
        }
    }
}

impl DeepView for HttpsConfiguration {
    type V = HttpsImage;

    open spec fn deep_view(&self) -> HttpsImage {
        HttpsImage {
            server_certificate: self.server_certificate@,
            private_key: self.private_key@,
            https_port: self.https_port,
        }
    }
}

impl DeepView for ServerConfiguration {
    type V = ServerImage;

    open spec fn deep_view(&self) -> ServerImage {
        ServerImage {
            id: self.id@,
            name: self.name@,
            http_port: self.http_port,
            endpoints: self.endpoints.deep_view(),
            https_config: self.https_config.deep_view(),
        }
    }
}

impl DeepView for TestConfiguration {
    type V = TestImage;

    open spec fn deep_view(&self) -> TestImage {
        TestImage {
            id: self.id@,
            name: self.name@,
            description: self.description@,
            servers: self.servers.deep_view(),
        }
    }
}

impl DeepView for AppConfiguration {
    type V = AppImage;

    open spec fn deep_view(&self) -> AppImage {
        AppImage {
            name: self.name@,
            description: self.description@,
            tests: self.tests.deep_view(),
        }
    }
}

/// Length of a freshly generated id, the hyphenated textual form of a UUID.
pub const ID_LENGTH: usize = 36;

/// Relies on `uuid::Uuid::new_v4` and its `Display` form: a fresh random
/// version-4 UUID rendered in the hyphenated format, which is always 36
/// characters long.  The value itself is random, so nothing more is
/// promised of it.  The generator reads the operating system's random
/// source and aborts the process if that source fails — an environmental
/// failure independent of any input, like running out of memory.
#[verifier::external_body]
fn fresh_id() -> (r: String)
    ensures
        r@.len() == ID_LENGTH,
{
    uuid::Uuid::new_v4().to_string()
}

impl AppConfiguration {
    /// Assemble a configuration from its parts.
    pub fn new(name: String, description: String, tests: Vec<TestConfiguration>) -> (r: Self)
        ensures
            r.name == name,
            r.description == description,
            r.tests == tests,
    {
        AppConfiguration { name, description, tests }
    }
}

impl TestConfiguration {
    /// Assemble a test with a freshly generated id.
    pub fn new(name: String, description: String, servers: Vec<ServerConfiguration>) -> (r: Self)
        ensures
            r.id@.len() == ID_LENGTH,
            r.name == name,
            r.description == description,
            r.servers == servers,
    {
        TestConfiguration { id: fresh_id(), name, description, servers }
    }
}

impl ServerConfiguration {
    /// Assemble a server with a freshly generated id.
    pub fn new(
        name: String,
        http_port: Option<u16>,
        endpoints: Vec<EndpointConfiguration>,
        https_config: Option<HttpsConfiguration>,
    ) -> (r: Self)
        ensures
            r.id@.len() == ID_LENGTH,
            r.name == name,
            r.http_port == http_port,
            r.endpoints == endpoints,
            r.https_config == https_config,
    {
        ServerConfiguration { id: fresh_id(), name, http_port, endpoints, https_config }
    }
}

impl EndpointConfiguration {
    /// Assemble an endpoint rule with a freshly generated id.
    pub fn new(
        endpoint: String,
        method: String,
        soap_action: Option<String>,
        mock_response: Option<MockResponseConfiguration>,
        route: Option<RouteConfiguration>,
    ) -> (r: Self)
        ensures
            r.id@.len() == ID_LENGTH,
            r.endpoint == endpoint,
            r.method == method,
            r.soap_action == soap_action,
            r.mock_response == mock_response,
            r.route == route,
    {
        EndpointConfiguration {
            id: fresh_id(),
            endpoint,
            method,
            soap_action,
            mock_response,
            route,
        }
    }
}

impl HttpsConfiguration {
    /// Assemble TLS material for one listener.
    pub fn new(server_certificate: String, private_key: String, https_port: u16) -> (r: Self)
        ensures
            r.server_certificate == server_certificate,
            r.private_key == private_key,
            r.https_port == https_port,
    {
        HttpsConfiguration { server_certificate, private_key, https_port }
    }
}

impl MockResponseConfiguration {
    /// Assemble a mock response.
    pub fn new(
        response: Option<String>,
        status: u16,
        headers: Vec<(String, String)>,
        delay: u64,
    ) -> (r: Self)
        ensures
            r.response == response,
            r.status == status,
            r.headers == headers,
            r.delay == delay,
    {
        MockResponseConfiguration { response, status, headers, delay }
    }
}

impl RouteConfiguration {
    /// Assemble a (reserved) forwarding target.
    pub fn new(endpoint: String) -> (r: Self)
        ensures
            r.endpoint == endpoint,
    {
        RouteConfiguration { endpoint }
    }
}

/// A status code the response builder accepts: a valid HTTP status.
pub open spec fn status_is_valid(status: u16) -> bool {
    100 <= status <= 599
}

/// The deep view of a vector is as long as the vector.
pub(crate) proof fn lemma_deep_view_len<T: DeepView>(v: &Vec<T>)
    ensures
        v.deep_view().len() == v@.len(),
{
}

/// The deep view of a vector holds the elements' deep views.
pub(crate) proof fn lemma_deep_view_index<T: DeepView>(v: &Vec<T>, i: int)
    requires
        0 <= i < v@.len(),
    ensures
        v.deep_view()[i] == v@[i].deep_view(),
{
}

/// Two vectors of equal length whose elements have equal deep views have
/// equal deep views, and conversely.
pub(crate) proof fn lemma_deep_view_eq<T: DeepView>(a: &Vec<T>, b: &Vec<T>)
    ensures
        (a.deep_view() == b.deep_view()) <==> (a@.len() == b@.len() && forall|i: int|
            0 <= i < a@.len() ==> a@[i].deep_view() == b@[i].deep_view()),
{
    lemma_deep_view_len(a);
    lemma_deep_view_len(b);
    if a@.len() == b@.len() && forall|i: int|
        0 <= i < a@.len() ==> a@[i].deep_view() == b@[i].deep_view() {
        assert forall|i: int| 0 <= i < a.deep_view().len() implies a.deep_view()[i]
            == b.deep_view()[i] by {
            lemma_deep_view_index(a, i);
            lemma_deep_view_index(b, i);
        }
        assert(a.deep_view() =~= b.deep_view());
    }
    if a.deep_view() == b.deep_view() {
        assert forall|i: int| 0 <= i < a@.len() implies a@[i].deep_view() == b@[i].deep_view() by {
            lemma_deep_view_index(a, i);
            lemma_deep_view_index(b, i);
            assert(a.deep_view()[i] == b.deep_view()[i]);
        }
    }
}

/// Whether two optional strings hold the same text.
fn opt_string_eq(a: &Option<String>, b: &Option<String>) -> (r: bool)
    ensures
        r == (a.deep_view() == b.deep_view()),
{
    match (a, b) {
        (Option::None, Option::None) => true,
        (Option::Some(x), Option::Some(y)) => *x == *y,
        _ => false,
    }
}

/// Whether two header lists hold the same pairs in the same order.
fn header_lists_eq(a: &Vec<(String, String)>, b: &Vec<(String, String)>) -> (r: bool)
    ensures
        r == (a.deep_view() == b.deep_view()),
{
    proof {
        lemma_deep_view_eq(a, b);
    }
    if a.len() != b.len() {
        return false;
    }
    let n = a.len();
    let mut i: usize = 0;
    while i < n
        invariant
            n == a@.len(),
            n == b@.len(),
            i <= n,
            forall|j: int| 0 <= j < i ==> a@[j].deep_view() == b@[j].deep_view(),
        decreases n - i,
    {
        let pa = &a[i];
        let pb = &b[i];
        if !(pa.0 == pb.0 && pa.1 == pb.1) {
            proof {
                lemma_deep_view_eq(a, b);
                assert(a@[i as int].deep_view() != b@[i as int].deep_view());
            }
            return false;
        }
        i += 1;
    }
    proof {
        lemma_deep_view_eq(a, b);
    }
    true
}

impl vstd::std_specs::cmp::PartialEqSpecImpl for MockResponseConfiguration {
    open spec fn obeys_eq_spec() -> bool {
        true
    }

    open spec fn eq_spec(&self, other: &Self) -> bool {
        self.deep_view() == other.deep_view()
    }
}

impl PartialEq for MockResponseConfiguration {
    fn eq(&self, other: &Self) -> (r: bool) {
        opt_string_eq(&self.response, &other.response) && self.status == other.status
            && header_lists_eq(&self.headers, &other.headers) && self.delay == other.delay
    }
}

impl vstd::std_specs::cmp::PartialEqSpecImpl for RouteConfiguration {
    open spec fn obeys_eq_spec() -> bool {
        true
    }

    open spec fn eq_spec(&self, other: &Self) -> bool {
        self.deep_view() == other.deep_view()
    }
}

impl PartialEq for RouteConfiguration {
    fn eq(&self, other: &Self) -> (r: bool) {
        self.endpoint == other.endpoint
    }
}

/// Whether two optional mock responses are equal.
fn opt_mock_eq(
    a: &Option<MockResponseConfiguration>,
    b: &Option<MockResponseConfiguration>,
) -> (r: bool)
    ensures
        r == (a.deep_view() == b.deep_view()),
{
    match (a, b) {
        (Option::None, Option::None) => true,
        (Option::Some(x), Option::Some(y)) => *x == *y,
        _ => false,
    }
}

/// Whether two optional routes are equal.
fn opt_route_eq(a: &Option<RouteConfiguration>, b: &Option<RouteConfiguration>) -> (r: bool)
    ensures
        r == (a.deep_view() == b.deep_view()),
{
    match (a, b) {
        (Option::None, Option::None) => true,
        (Option::Some(x), Option::Some(y)) => *x == *y,
        _ => false,
    }
}

impl vstd::std_specs::cmp::PartialEqSpecImpl for EndpointConfiguration {
    open spec fn obeys_eq_spec() -> bool {
        true
    }

    open spec fn eq_spec(&self, other: &Self) -> bool {
        self.deep_view() == other.deep_view()
    }
}

impl PartialEq for EndpointConfiguration {
    fn eq(&self, other: &Self) -> (r: bool) {
        self.id == other.id && self.endpoint == other.endpoint && self.method == other.method
            && opt_string_eq(&self.soap_action, &other.soap_action)
            && opt_mock_eq(&self.mock_response, &other.mock_response)
            && opt_route_eq(&self.route, &other.route)
    }
}

impl vstd::std_specs::cmp::PartialEqSpecImpl for HttpsConfiguration {
    open spec fn obeys_eq_spec() -> bool {
        true
    }

    open spec fn eq_spec(&self, other: &Self) -> bool {
        self.deep_view() == other.deep_view()
    }
}

impl PartialEq for HttpsConfiguration {
    fn eq(&self, other: &Self) -> (r: bool) {
        self.server_certificate == other.server_certificate
            && self.private_key == other.private_key && self.https_port == other.https_port
    }
}

/// Whether two optional TLS configurations are equal.
fn opt_https_eq(a: &Option<HttpsConfiguration>, b: &Option<HttpsConfiguration>) -> (r: bool)
    ensures
        r == (a.deep_view() == b.deep_view()),
{
    match (a, b) {
        (Option::None, Option::None) => true,
        (Option::Some(x), Option::Some(y)) => *x == *y,
        _ => false,
    }
}

/// Whether two endpoint lists are equal, element by element.
fn endpoint_lists_eq(a: &Vec<EndpointConfiguration>, b: &Vec<EndpointConfiguration>) -> (r: bool)
    ensures
        r == (a.deep_view() == b.deep_view()),
{
    proof {
        lemma_deep_view_eq(a, b);
    }
    if a.len() != b.len() {
        return false;
    }
    let n = a.len();
    let mut i: usize = 0;
    while i < n
        invariant
            n == a@.len(),
            n == b@.len(),
            i <= n,
            forall|j: int| 0 <= j < i ==> a@[j].deep_view() == b@[j].deep_view(),
        decreases n - i,
    {
        if !(a[i] == b[i]) {
            proof {
                lemma_deep_view_eq(a, b);
            }
            return false;
        }
        i += 1;
    }
    proof {
        lemma_deep_view_eq(a, b);
    }
    true
}

impl vstd::std_specs::cmp::PartialEqSpecImpl for ServerConfiguration {
    open spec fn obeys_eq_spec() -> bool {
        true
    }

    open spec fn eq_spec(&self, other: &Self) -> bool {
        self.deep_view() == other.deep_view()
    }
}

impl PartialEq for ServerConfiguration {
    fn eq(&self, other: &Self) -> (r: bool) {
        self.id == other.id && self.name == other.name && self.http_port == other.http_port
            && endpoint_lists_eq(&self.endpoints, &other.endpoints)
            && opt_https_eq(&self.https_config, &other.https_config)
    }
}

/// Whether two server lists are equal, element by element.
fn server_lists_eq(a: &Vec<ServerConfiguration>, b: &Vec<ServerConfiguration>) -> (r: bool)
    ensures
        r == (a.deep_view() == b.deep_view()),
{
    proof {
        lemma_deep_view_eq(a, b);
    }
    if a.len() != b.len() {
        return false;
    }
    let n = a.len();
    let mut i: usize = 0;
    while i < n
        invariant
            n == a@.len(),
            n == b@.len(),
            i <= n,
            forall|j: int| 0 <= j < i ==> a@[j].deep_view() == b@[j].deep_view(),
        decreases n - i,
    {
        if !(a[i] == b[i]) {
            proof {
                lemma_deep_view_eq(a, b);
            }
            return false;
        }
        i += 1;
    }
    proof {
        lemma_deep_view_eq(a, b);
    }
    true
}

impl vstd::std_specs::cmp::PartialEqSpecImpl for TestConfiguration {
    open spec fn obeys_eq_spec() -> bool {
        true
    }

    open spec fn eq_spec(&self, other: &Self) -> bool {
        self.deep_view() == other.deep_view()
    }
}

impl PartialEq for TestConfiguration {
    fn eq(&self, other: &Self) -> (r: bool) {
        self.id == other.id && self.name == other.name && self.description == other.description
            && server_lists_eq(&self.servers, &other.servers)
    }
}

/// Whether two test lists are equal, element by element.
fn test_lists_eq(a: &Vec<TestConfiguration>, b: &Vec<TestConfiguration>) -> (r: bool)
    ensures
        r == (a.deep_view() == b.deep_view()),
{
    proof {
        lemma_deep_view_eq(a, b);
    }
    if a.len() != b.len() {
        return false;
    }
    let n = a.len();
    let mut i: usize = 0;
    while i < n
        invariant
            n == a@.len(),
            n == b@.len(),
            i <= n,
            forall|j: int| 0 <= j < i ==> a@[j].deep_view() == b@[j].deep_view(),
        decreases n - i,
    {
        if !(a[i] == b[i]) {
            proof {
                lemma_deep_view_eq(a, b);
            }
            return false;
        }
        i += 1;
    }
    proof {
        lemma_deep_view_eq(a, b);
    }
    true
}

impl vstd::std_specs::cmp::PartialEqSpecImpl for AppConfiguration {
    open spec fn obeys_eq_spec() -> bool {
        true
    }

    open spec fn eq_spec(&self, other: &Self) -> bool {
        self.deep_view() == other.deep_view()
    }
}

impl PartialEq for AppConfiguration {
    fn eq(&self, other: &Self) -> (r: bool) {
        self.name == other.name && self.description == other.description
            && test_lists_eq(&self.tests, &other.tests)
    }
}

/// A pair-by-pair copy of a header list.
pub(crate) fn clone_headers(a: &Vec<(String, String)>) -> (r: Vec<(String, String)>)
    ensures
        r.deep_view() == a.deep_view(),
{
    let mut r: Vec<(String, String)> = Vec::new();
    let n = a.len();
    let mut i: usize = 0;
    while i < n
        invariant
            n == a@.len(),
            i == r@.len(),
            i <= n,
            forall|j: int| 0 <= j < i ==> r@[j].deep_view() == a@[j].deep_view(),
        decreases n - i,
    {
        let p = &a[i];
        r.push((p.0.clone(), p.1.clone()));
        i += 1;
    }
    proof {
        lemma_deep_view_eq(&r, a);
    }
    r
}

impl Clone for MockResponseConfiguration {
    /// A copy that the contracts can see through: the copy's image equals
    /// the original's.
    fn clone(&self) -> (r: Self)
        ensures
            r.deep_view() == self.deep_view(),
    {
        MockResponseConfiguration {
            response: self.response.clone(),
            status: self.status,
            headers: clone_headers(&self.headers),
            delay: self.delay,
        }
    }
}

impl Clone for RouteConfiguration {
    /// A copy that the contracts can see through.
    fn clone(&self) -> (r: Self)
        ensures
            r.deep_view() == self.deep_view(),
    {
        RouteConfiguration { endpoint: self.endpoint.clone() }
    }
}

impl Clone for EndpointConfiguration {
    /// A copy that the contracts can see through.
    fn clone(&self) -> (r: Self)
        ensures
            r.deep_view() == self.deep_view(),
    {
        let r = EndpointConfiguration {
            id: self.id.clone(),
            endpoint: self.endpoint.clone(),
            method: self.method.clone(),
            soap_action: self.soap_action.clone(),
            mock_response: self.mock_response.clone(),
            route: self.route.clone(),
        };
        proof {
            assert(r.soap_action.deep_view() =~= self.soap_action.deep_view());
            assert(r.mock_response.deep_view() =~= self.mock_response.deep_view());
            assert(r.route.deep_view() =~= self.route.deep_view());
        }
        r
    }
}

impl Clone for HttpsConfiguration {
    /// A copy that the contracts can see through.
    fn clone(&self) -> (r: Self)
        ensures
            r.deep_view() == self.deep_view(),
    {
        HttpsConfiguration {
            server_certificate: self.server_certificate.clone(),
            private_key: self.private_key.clone(),
            https_port: self.https_port,
        }
    }
}

impl Clone for ServerConfiguration {
    /// A copy that the contracts can see through.
    fn clone(&self) -> (r: Self)
        ensures
            r.deep_view() == self.deep_view(),
    {
        let r = ServerConfiguration {
            id: self.id.clone(),
            name: self.name.clone(),
            http_port: self.http_port,
            endpoints: self.endpoints.clone(),
            https_config: self.https_config.clone(),
        };
        proof {
            assert(r.endpoints.deep_view() =~= self.endpoints.deep_view());
            assert(r.https_config.deep_view() =~= self.https_config.deep_view());
        }
        r
    }
}

} // verus!
