//! Tests for the configuration model and its JSON codec.

use testit::config::{
    AppConfiguration, EndpointConfiguration, HttpsConfiguration, MockResponseConfiguration,
    RouteConfiguration, ServerConfiguration, TestConfiguration,
};
use testit::error::ApplicationError;

fn sample_configuration() -> AppConfiguration {
    AppConfiguration::new(
        "Test Configuration".to_string(),
        "Test Configuration Description".to_string(),
        vec![TestConfiguration::new(
            "Test".to_string(),
            "Test Description".to_string(),
            vec![ServerConfiguration::new(
                "Server".to_string(),
                Some(8080),
                vec![EndpointConfiguration::new(
                    "/test".to_string(),
                    "GET".to_string(),
                    None,
                    Some(MockResponseConfiguration::new(
                        Some("Test Response".to_string()),
                        200,
                        Vec::new(),
                        0,
                    )),
                    Some(RouteConfiguration::new("/test".to_string())),
                )],
                None,
            )],
        )],
    )
}

#[test]
fn test_configuration() {
    let configuration = sample_configuration();

    assert_eq!(configuration.name, "Test Configuration");
    assert_eq!(configuration.description, "Test Configuration Description");
    assert_eq!(configuration.tests.len(), 1);
    assert_eq!(configuration.tests[0].name, "Test");
    assert_eq!(configuration.tests[0].description, "Test Description");
    assert_eq!(configuration.tests[0].servers.len(), 1);
    assert_eq!(configuration.tests[0].servers[0].name, "Server");
    assert_eq!(configuration.tests[0].servers[0].http_port, Some(8080));
    assert_eq!(configuration.tests[0].servers[0].endpoints.len(), 1);
    assert_eq!(
        configuration.tests[0].servers[0].endpoints[0].endpoint,
        "/test"
    );
    assert_eq!(
        configuration.tests[0].servers[0].endpoints[0]
            .mock_response
            .as_ref()
            .unwrap()
            .response,
        Some("Test Response".to_string())
    );
    assert_eq!(
        configuration.tests[0].servers[0].endpoints[0]
            .mock_response
            .as_ref()
            .unwrap()
            .status,
        200
    );
    assert_eq!(
        configuration.tests[0].servers[0].endpoints[0]
            .mock_response
            .as_ref()
            .unwrap()
            .headers
            .len(),
        0
    );
    assert_eq!(
        configuration.tests[0].servers[0].endpoints[0]
            .mock_response
            .as_ref()
            .unwrap()
            .delay,
        0
    );
    assert_eq!(
        configuration.tests[0].servers[0].endpoints[0]
            .route
            .as_ref()
            .unwrap()
            .endpoint,
        "/test"
    );
}

#[test]
fn test_serialize_deserialize() {
    let configuration = sample_configuration();

    let serialized = configuration.to_json();
    let deserialized: AppConfiguration = AppConfiguration::from_json(&serialized).unwrap();

    assert_eq!(configuration, deserialized);
}

#[test]
fn round_trip_preserves_ids() {
    let configuration = sample_configuration();
    let deserialized = AppConfiguration::from_json(&configuration.to_json()).unwrap();
    assert_eq!(configuration.tests[0].id, deserialized.tests[0].id);
    assert_eq!(
        configuration.tests[0].servers[0].id,
        deserialized.tests[0].servers[0].id
    );
    assert_eq!(
        configuration.tests[0].servers[0].endpoints[0].id,
        deserialized.tests[0].servers[0].endpoints[0].id
    );
}

#[test]
fn round_trip_with_escapes_and_headers() {
    let mock = MockResponseConfiguration::new(
        Some("line one\nline two\t\"quoted\" back\\slash \u{1F600}".to_string()),
        418,
        vec![
            ("X-Key".to_string(), "value one".to_string()),
            ("X-Key".to_string(), "value two".to_string()),
            ("Other".to_string(), "a,b:{}[]".to_string()),
        ],
        250,
    );
    let endpoint = EndpointConfiguration::new(
        "^/π/.*$".to_string(),
        "POST".to_string(),
        Some("urn:action".to_string()),
        Some(mock),
        None,
    );
    let https = HttpsConfiguration::new(
        "/etc/certs/server.pem".to_string(),
        "/etc/certs/key.pem".to_string(),
        8443,
    );
    let server = ServerConfiguration::new(
        "edge \"server\"".to_string(),
        None,
        vec![endpoint],
        Some(https),
    );
    let test = TestConfiguration::new("t".to_string(), String::new(), vec![server]);
    let configuration = AppConfiguration::new("n".to_string(), "d".to_string(), vec![test]);

    let deserialized = AppConfiguration::from_json(&configuration.to_json()).unwrap();
    assert_eq!(configuration, deserialized);
}

#[test]
fn round_trip_empty_lists() {
    let configuration = AppConfiguration::new(String::new(), String::new(), Vec::new());
    let deserialized = AppConfiguration::from_json(&configuration.to_json()).unwrap();
    assert_eq!(configuration, deserialized);

    let with_empty_test = AppConfiguration::new(
        "n".to_string(),
        "d".to_string(),
        vec![TestConfiguration::new("t".to_string(), "td".to_string(), Vec::new())],
    );
    let again = AppConfiguration::from_json(&with_empty_test.to_json()).unwrap();
    assert_eq!(with_empty_test, again);
}

#[test]
fn from_json_rejects_malformed_documents() {
    assert!(matches!(
        AppConfiguration::from_json(""),
        Err(ApplicationError::FileError(_))
    ));
    assert!(matches!(
        AppConfiguration::from_json("{}"),
        Err(ApplicationError::FileError(_))
    ));
    assert!(matches!(
        AppConfiguration::from_json("{\"name\":\"a\",\"description\":\"b\",\"tests\":[]"),
        Err(ApplicationError::FileError(_))
    ));
    let good = AppConfiguration::new("a".to_string(), "b".to_string(), Vec::new()).to_json();
    let mut trailing_garbage = good.clone();
    trailing_garbage.push('x');
    assert!(matches!(
        AppConfiguration::from_json(&trailing_garbage),
        Err(ApplicationError::FileError(_))
    ));
    let mut trailing_space = good.clone();
    trailing_space.push('\n');
    assert!(AppConfiguration::from_json(&trailing_space).is_ok());
    assert!(AppConfiguration::from_json(&good).is_ok());
}

#[test]
fn to_json_writes_the_exact_document() {
    let server = ServerConfiguration {
        id: "sid".to_string(),
        name: "s".to_string(),
        http_port: Some(8080),
        endpoints: Vec::new(),
        https_config: None,
    };
    let test = TestConfiguration {
        id: "tid".to_string(),
        name: "t".to_string(),
        description: "td".to_string(),
        servers: vec![server],
    };
    let configuration = AppConfiguration {
        name: "n".to_string(),
        description: "d".to_string(),
        tests: vec![test],
    };
    assert_eq!(
        configuration.to_json(),
        "{\"name\":\"n\",\"description\":\"d\",\"tests\":[{\"id\":\"tid\",\"name\":\"t\",\
         \"description\":\"td\",\"servers\":[{\"id\":\"sid\",\"name\":\"s\",\"httpPort\":8080,\
         \"endpoints\":[],\"httpsConfig\":null}]}]}"
    );
}

#[test]
fn to_json_escapes_special_characters() {
    let configuration = AppConfiguration {
        name: "a\"b\\c\nd".to_string(),
        description: String::new(),
        tests: Vec::new(),
    };
    assert_eq!(
        configuration.to_json(),
        "{\"name\":\"a\\\"b\\\\c\\u000ad\",\"description\":\"\",\"tests\":[]}"
    );
}

#[test]
fn from_json_reads_a_handwritten_document() {
    let text = "{\"name\":\"\\u0041x\",\"description\":\"ok\",\"tests\":[{\"id\":\"i\",\
                \"name\":\"n\",\"description\":\"\",\"servers\":[{\"id\":\"s\",\"name\":\"sv\",\
                \"httpPort\":null,\"endpoints\":[{\"id\":\"e\",\"endpoint\":\"/p\",\
                \"method\":\"PUT\",\"soapAction\":null,\"mockResponse\":{\"response\":null,\
                \"status\":204,\"headers\":{\"k\":\"v\"},\"delay\":5},\"route\":null}],\
                \"httpsConfig\":null}]}]}";
    let configuration = AppConfiguration::from_json(text).unwrap();
    assert_eq!(configuration.name, "Ax");
    assert_eq!(configuration.description, "ok");
    let server = &configuration.tests[0].servers[0];
    assert_eq!(server.http_port, None);
    let endpoint = &server.endpoints[0];
    assert_eq!(endpoint.method, "PUT");
    let mock = endpoint.mock_response.as_ref().unwrap();
    assert_eq!(mock.response, None);
    assert_eq!(mock.status, 204);
    assert_eq!(mock.headers, vec![("k".to_string(), "v".to_string())]);
    assert_eq!(mock.delay, 5);
}

#[test]
fn from_json_accepts_members_in_any_order() {
    let configuration =
        AppConfiguration::from_json("{\"description\":\"b\",\"name\":\"a\",\"tests\":[]}")
            .unwrap();
    assert_eq!(configuration.name, "a");
    assert_eq!(configuration.description, "b");
    assert_eq!(configuration.tests.len(), 0);

    let reordered = "{\"tests\":[{\"servers\":[{\"endpoints\":[],\"name\":\"sv\",\"id\":\"s\",\
                     \"httpsConfig\":null,\"httpPort\":8080}],\"description\":\"\",\
                     \"name\":\"n\",\"id\":\"i\"}],\"name\":\"a\",\"description\":\"b\"}";
    let configuration = AppConfiguration::from_json(reordered).unwrap();
    assert_eq!(configuration.tests[0].servers[0].http_port, Some(8080));
    assert_eq!(configuration.tests[0].servers[0].name, "sv");
}

#[test]
fn from_json_defaults_absent_optional_members() {
    let text = "{\"name\":\"a\",\"description\":\"b\",\"tests\":[{\"id\":\"i\",\"name\":\"n\",\
                \"description\":\"\",\"servers\":[{\"id\":\"s\",\"name\":\"sv\",\"endpoints\":[{\
                \"id\":\"e\",\"endpoint\":\"/p\",\"method\":\"GET\"}]}]}]}";
    let configuration = AppConfiguration::from_json(text).unwrap();
    let server = &configuration.tests[0].servers[0];
    assert_eq!(server.http_port, None);
    assert!(server.https_config.is_none());
    let endpoint = &server.endpoints[0];
    assert!(endpoint.soap_action.is_none());
    assert!(endpoint.mock_response.is_none());
    assert!(endpoint.route.is_none());
}

#[test]
fn from_json_reads_standard_escapes() {
    let text = "{\"name\":\"a\\nb\\tc\\rd\\be\\ff\\/g\",\"description\":\"\\uD83D\\uDE00\",\
                \"tests\":[]}";
    let configuration = AppConfiguration::from_json(text).unwrap();
    assert_eq!(configuration.name, "a\nb\tc\rd\u{8}e\u{c}f/g");
    assert_eq!(configuration.description, "\u{1F600}");
}

#[test]
fn from_json_rejects_missing_required_and_duplicate_members() {
    let missing_status = "{\"name\":\"a\",\"description\":\"b\",\"tests\":[{\"id\":\"i\",\
                          \"name\":\"n\",\"description\":\"\",\"servers\":[{\"id\":\"s\",\
                          \"name\":\"sv\",\"endpoints\":[{\"id\":\"e\",\"endpoint\":\"/p\",\
                          \"method\":\"GET\",\"mockResponse\":{\"response\":null,\
                          \"headers\":{},\"delay\":0}}]}]}]}";
    assert!(matches!(
        AppConfiguration::from_json(missing_status),
        Err(ApplicationError::FileError(_))
    ));
    let duplicate_name = "{\"name\":\"a\",\"name\":\"a2\",\"description\":\"b\",\"tests\":[]}";
    assert!(matches!(
        AppConfiguration::from_json(duplicate_name),
        Err(ApplicationError::FileError(_))
    ));
}

#[test]
fn from_json_ignores_unknown_members() {
    let unknown_members = "{\"name\":\"a\",\"extra\":null,\"description\":\"b\",\
                           \"more\":{\"deep\":[1,2,{\"x\":\"y\"},[],true,false],\"t\":\"u\"},\
                           \"tests\":[],\"count\":12345}";
    let configuration = AppConfiguration::from_json(unknown_members).unwrap();
    assert_eq!(configuration.name, "a");
    assert_eq!(configuration.description, "b");
    assert_eq!(configuration.tests.len(), 0);
}

#[test]
fn from_json_ignores_whitespace_between_tokens() {
    let text = "{\n  \"name\" : \"spaced name\",\n  \"description\" : \"d\",\n  \"tests\" : [\n    {\n      \"id\" : \"i\",\n      \"name\" : \"n\",\n      \"description\" : \"has  two  spaces\",\n      \"servers\" : [ ]\n    }\n  ]\n}\n";
    let configuration = AppConfiguration::from_json(text).unwrap();
    assert_eq!(configuration.name, "spaced name");
    assert_eq!(configuration.tests[0].description, "has  two  spaces");
    assert_eq!(configuration.tests[0].servers.len(), 0);
}

#[test]
fn from_json_rejects_out_of_range_numbers() {
    let too_big_port = "{\"name\":\"a\",\"description\":\"b\",\"tests\":[{\"id\":\"i\",\
                        \"name\":\"n\",\"description\":\"\",\"servers\":[{\"id\":\"s\",\
                        \"name\":\"sv\",\"httpPort\":70000,\"endpoints\":[],\
                        \"httpsConfig\":null}]}]}";
    assert!(matches!(
        AppConfiguration::from_json(too_big_port),
        Err(ApplicationError::FileError(_))
    ));
}

#[test]
fn generated_ids_are_fresh() {
    let a = TestConfiguration::new("a".to_string(), "a".to_string(), Vec::new());
    let b = TestConfiguration::new("b".to_string(), "b".to_string(), Vec::new());
    assert_eq!(a.id.chars().count(), 36);
    assert_eq!(b.id.chars().count(), 36);
    assert_ne!(a.id, b.id);
}

#[test]
fn error_messages_carry_their_prefixes() {
    assert_eq!(
        ApplicationError::FileError("broken".to_string()).message(),
        "File error: broken"
    );
    assert_eq!(
        ApplicationError::MissingId("Missing id".to_string()).message(),
        "Missing id: Missing id"
    );
    assert_eq!(
        ApplicationError::CouldNotFindTest("No test with id: x".to_string()).message(),
        "Could not find test: No test with id: x"
    );
    assert_eq!(
        ApplicationError::ConfigurationError("bad".to_string()).message(),
        "Configuration error: bad"
    );
    assert_eq!(
        ApplicationError::ServerStartUpError("port".to_string()).message(),
        "Server start up error: port"
    );
}
