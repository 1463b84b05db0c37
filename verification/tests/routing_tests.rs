//! Tests for the endpoint matcher and the mock-response synthesizer.

use testit::config::{
    EndpointConfiguration, HttpsConfiguration, MockResponseConfiguration, ServerConfiguration,
    TestConfiguration,
};
use testit::error::ApplicationError;
use testit::routing::{
    generate_mock_response, handle_endpoint, is_valid_endpoint, request_handler,
};
use testit::server::ServerSetup;

fn mock(body: &str, status: u16, delay: u64) -> MockResponseConfiguration {
    MockResponseConfiguration::new(Some(body.to_string()), status, Vec::new(), delay)
}

#[test]
fn test_endpoint_ok() {
    let test_configuration = TestConfiguration::new(
        "test".to_string(),
        "test".to_string(),
        vec![ServerConfiguration::new(
            "test".to_string(),
            Some(8082),
            vec![
                EndpointConfiguration::new(
                    "/test2".to_string(),
                    "GET".to_string(),
                    None,
                    Some(mock("{}", 400, 1000)),
                    None,
                ),
                EndpointConfiguration::new(
                    "/test".to_string(),
                    "GET".to_string(),
                    None,
                    Some(mock("{}", 200, 1000)),
                    None,
                ),
            ],
            None,
        )],
    );
    let mut server_setup = ServerSetup::new();
    server_setup.setup_test(&test_configuration);
    let servers = server_setup.servers();
    assert_eq!(servers.len(), 1);
    assert_eq!(servers[0].http_port(), Some(8082));

    let res = request_handler(&servers[0].server_configuration, "/test", "GET");
    assert_eq!(res.status, 200);
    assert_eq!(res.body, "{}".to_string());

    let res = request_handler(&servers[0].server_configuration, "/", "GET");
    assert_eq!(res.status, 501);
    assert_eq!(res.body, "Not implemented");
}

#[test]
fn test_https() {
    let server_cert_path = "/tmp/https_test/server_cert.pem".to_owned();
    let server_key_path = "/tmp/https_test/server_key.pem".to_owned();
    let https_config = HttpsConfiguration::new(server_cert_path.clone(), server_key_path, 8084);
    let test_configuration = TestConfiguration::new(
        "test".to_string(),
        "test".to_string(),
        vec![ServerConfiguration::new(
            "test".to_string(),
            None,
            vec![EndpointConfiguration::new(
                "/".to_string(),
                "GET".to_string(),
                None,
                Some(mock("{}", 200, 1000)),
                None,
            )],
            Some(https_config),
        )],
    );
    let mut server_setup = ServerSetup::new();
    server_setup.setup_test(&test_configuration);
    let servers = server_setup.servers();
    assert_eq!(servers.len(), 1);
    assert_eq!(servers[0].http_port(), None);
    assert_eq!(servers[0].https_port(), Some(8084));
    let cfg = &servers[0].server_configuration;
    assert_eq!(
        cfg.https_config.as_ref().unwrap().server_certificate,
        server_cert_path
    );

    let res = request_handler(cfg, "/", "GET");
    assert_eq!(res.status, 200);
    assert_eq!(res.body, "{}");
}

#[test]
fn first_matching_endpoint_wins() {
    let server = ServerConfiguration::new(
        "s".to_string(),
        Some(9000),
        vec![
            EndpointConfiguration::new(
                ".*".to_string(),
                "GET".to_string(),
                None,
                Some(mock("first", 418, 0)),
                None,
            ),
            EndpointConfiguration::new(
                "^/exact$".to_string(),
                "GET".to_string(),
                None,
                Some(mock("second", 200, 0)),
                None,
            ),
        ],
        None,
    );
    let res = request_handler(&server, "/exact", "GET");
    assert_eq!(res.status, 418);
    assert_eq!(res.body, "first");
}

#[test]
fn method_must_match_exactly() {
    let server = ServerConfiguration::new(
        "s".to_string(),
        Some(9000),
        vec![EndpointConfiguration::new(
            "/x".to_string(),
            "GET".to_string(),
            None,
            Some(mock("ok", 200, 0)),
            None,
        )],
        None,
    );
    assert_eq!(request_handler(&server, "/x", "POST").status, 501);
    assert_eq!(request_handler(&server, "/x", "get").status, 501);
    assert_eq!(request_handler(&server, "/x", "GET").status, 200);
}

#[test]
fn pattern_matches_anywhere_in_path() {
    let endpoint = EndpointConfiguration::new(
        "test".to_string(),
        "GET".to_string(),
        None,
        None,
        None,
    );
    assert_eq!(is_valid_endpoint("/mytest/sub", "GET", &endpoint).unwrap(), true);
    assert_eq!(is_valid_endpoint("/other", "GET", &endpoint).unwrap(), false);
    let anchored = EndpointConfiguration::new(
        "^/a$".to_string(),
        "GET".to_string(),
        None,
        None,
        None,
    );
    assert_eq!(is_valid_endpoint("/ab", "GET", &anchored).unwrap(), false);
    assert_eq!(is_valid_endpoint("/a", "GET", &anchored).unwrap(), true);
}

#[test]
fn unconfigured_endpoint_answers_not_implemented() {
    let server = ServerConfiguration::new(
        "s".to_string(),
        Some(9000),
        vec![EndpointConfiguration::new(
            "/bare".to_string(),
            "GET".to_string(),
            None,
            None,
            None,
        )],
        None,
    );
    let res = request_handler(&server, "/bare", "GET");
    assert_eq!(res.status, 501);
    assert_eq!(res.body, "Not implemented");
    assert_eq!(res.headers.len(), 0);

    let direct = handle_endpoint(&server.endpoints[0]).unwrap();
    assert_eq!(direct.status, 501);
    assert_eq!(direct.body, "Not implemented");
}

#[test]
fn no_matching_endpoint_answers_not_implemented() {
    let server = ServerConfiguration::new("s".to_string(), Some(9000), Vec::new(), None);
    let res = request_handler(&server, "/anything", "GET");
    assert_eq!(res.status, 501);
    assert_eq!(res.body, "Not implemented");
}

#[test]
fn invalid_pattern_answers_service_unavailable() {
    let server = ServerConfiguration::new(
        "s".to_string(),
        Some(9000),
        vec![
            EndpointConfiguration::new(
                "(".to_string(),
                "GET".to_string(),
                None,
                Some(mock("never", 200, 0)),
                None,
            ),
            EndpointConfiguration::new(
                "/ok".to_string(),
                "GET".to_string(),
                None,
                Some(mock("later", 200, 0)),
                None,
            ),
        ],
        None,
    );
    let res = request_handler(&server, "/ok", "GET");
    assert_eq!(res.status, 503);
    assert!(res.body.starts_with("Configuration error: "));

    let checked = is_valid_endpoint("/ok", "GET", &server.endpoints[0]);
    assert!(matches!(checked, Err(ApplicationError::ConfigurationError(_))));
}

#[test]
fn invalid_status_answers_service_unavailable() {
    let bad = MockResponseConfiguration::new(Some("x".to_string()), 42, Vec::new(), 0);
    assert!(matches!(
        generate_mock_response(&bad),
        Err(ApplicationError::ConfigurationError(_))
    ));
    let server = ServerConfiguration::new(
        "s".to_string(),
        Some(9000),
        vec![EndpointConfiguration::new(
            "/x".to_string(),
            "GET".to_string(),
            None,
            Some(MockResponseConfiguration::new(None, 600, Vec::new(), 0)),
            None,
        )],
        None,
    );
    let res = request_handler(&server, "/x", "GET");
    assert_eq!(res.status, 503);
    assert_eq!(res.body, "Configuration error: invalid status code");
}

#[test]
fn status_bounds_are_inclusive() {
    assert_eq!(generate_mock_response(&mock("a", 100, 0)).unwrap().status, 100);
    assert_eq!(generate_mock_response(&mock("a", 599, 0)).unwrap().status, 599);
    assert!(generate_mock_response(&mock("a", 99, 0)).is_err());
    assert!(generate_mock_response(&mock("a", 600, 0)).is_err());
}

#[test]
fn mock_response_carries_delay_headers_and_body() {
    let m = MockResponseConfiguration::new(
        Some("body".to_string()),
        201,
        vec![
            ("X-One".to_string(), "1".to_string()),
            ("X-One".to_string(), "2".to_string()),
        ],
        250,
    );
    let r = generate_mock_response(&m).unwrap();
    assert_eq!(r.status, 201);
    assert_eq!(r.body, "body");
    assert_eq!(r.delay, 250);
    assert_eq!(
        r.headers,
        vec![
            ("X-One".to_string(), "1".to_string()),
            ("X-One".to_string(), "2".to_string()),
        ]
    );

    let empty_body = MockResponseConfiguration::new(None, 204, Vec::new(), 0);
    let r = generate_mock_response(&empty_body).unwrap();
    assert_eq!(r.body, "");
    assert_eq!(r.delay, 0);
}
