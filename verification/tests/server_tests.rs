//! Tests for the orchestrator and test selection.

use testit::config::{AppConfiguration, ServerConfiguration, TestConfiguration};
use testit::error::ApplicationError;
use testit::routing::request_handler;
use testit::server::{get_test, AppServer, ServerSetup};

#[test]
fn test_server_start() {
    let test_configuration = TestConfiguration::new(
        "test".to_string(),
        "test".to_string(),
        vec![
            ServerConfiguration::new("test".to_string(), Some(8080), Vec::new(), None),
            ServerConfiguration::new("test".to_string(), Some(8081), Vec::new(), None),
        ],
    );
    let mut server_setup = ServerSetup::new();
    server_setup.setup_test(&test_configuration);
    let servers = server_setup.servers();
    assert_eq!(servers.len(), 2);
    assert_eq!(servers[0].http_port(), Some(8080));
    assert_eq!(servers[1].http_port(), Some(8081));

    let res = request_handler(&servers[0].server_configuration, "/", "GET");
    assert_eq!(res.status, 501);
    let res = request_handler(&servers[1].server_configuration, "/", "GET");
    assert_eq!(res.status, 501);
}

#[test]
fn setup_test_appends_in_declared_order() {
    let first = TestConfiguration::new(
        "one".to_string(),
        String::new(),
        vec![ServerConfiguration::new("a".to_string(), Some(1000), Vec::new(), None)],
    );
    let second = TestConfiguration::new(
        "two".to_string(),
        String::new(),
        vec![
            ServerConfiguration::new("b".to_string(), Some(2000), Vec::new(), None),
            ServerConfiguration::new("c".to_string(), None, Vec::new(), None),
        ],
    );
    let mut setup = ServerSetup::new();
    assert_eq!(setup.server_count(), 0);
    setup.setup_test(&first);
    assert_eq!(setup.server_count(), 1);
    setup.setup_test(&second);
    assert_eq!(setup.server_count(), 3);
    let servers = setup.servers();
    assert_eq!(servers[0].server_configuration.name, "a");
    assert_eq!(servers[1].server_configuration.name, "b");
    assert_eq!(servers[2].server_configuration.name, "c");
    assert_eq!(servers[2].http_port(), None);
    assert_eq!(servers[2].https_port(), None);
}

#[test]
fn app_server_wraps_one_configuration() {
    let config = ServerConfiguration::new("solo".to_string(), Some(7777), Vec::new(), None);
    let server = AppServer::new(config);
    assert_eq!(server.server_configuration.name, "solo");
    assert_eq!(server.http_port(), Some(7777));
    assert_eq!(server.https_port(), None);
}

#[test]
fn get_test_selects_first_match_by_id() {
    let mut t1 = TestConfiguration::new("first".to_string(), String::new(), Vec::new());
    let mut t2 = TestConfiguration::new("second".to_string(), String::new(), Vec::new());
    let mut t3 = TestConfiguration::new("third".to_string(), String::new(), Vec::new());
    t1.id = "alpha".to_string();
    t2.id = "beta".to_string();
    t3.id = "beta".to_string();
    let config = AppConfiguration::new("c".to_string(), "d".to_string(), vec![t1, t2, t3]);

    let found = get_test("beta", &config).unwrap();
    assert_eq!(found.name, "second");

    let missing = get_test("gamma", &config);
    match missing {
        Err(ApplicationError::CouldNotFindTest(detail)) => {
            assert_eq!(detail, "No test with id: gamma");
        }
        _ => panic!("expected CouldNotFindTest"),
    }
}
