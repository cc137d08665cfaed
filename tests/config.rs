use ndc_odata::config::{validate_raw_configuration, Endpoint, RawConfiguration};
use ndc_odata::ndc;

fn empty_schema() -> ndc::Schema {
    ndc::Schema {
        collections: vec![],
        scalar_types: vec![],
        object_types: vec![],
        functions: vec![],
        procedures: vec![],
    }
}

#[test]
fn endpoint_parse_splits_url() {
    let e = Endpoint::parse("https://services.odata.org/TripPinRESTierService").unwrap();
    assert_eq!(e.protocol, "https");
    assert_eq!(e.authority, "services.odata.org");
    assert_eq!(e.path, "/TripPinRESTierService");
}

#[test]
fn endpoint_parse_requires_scheme() {
    assert!(Endpoint::parse("/relative/path").is_err());
    assert!(Endpoint::parse("http://exa mple.com").is_err());
}

#[test]
fn endpoint_to_string() {
    let e = Endpoint {
        protocol: "http".to_string(),
        authority: "example.com".to_string(),
        path: "/test".to_string(),
    };
    assert_eq!(e.to_string().unwrap(), "http://example.com/test");
}

#[test]
fn validate_configuration() {
    let raw = RawConfiguration { api_endpoint: "http://example.com/odata".to_string(), schema: empty_schema() };
    let c = validate_raw_configuration(raw).unwrap();
    assert_eq!(c.api_endpoint.path, "/odata");
    let raw = RawConfiguration { api_endpoint: "not a url".to_string(), schema: empty_schema() };
    assert!(validate_raw_configuration(raw).is_err());
}
