use lwm2m_server::requests::parse_link_format;
use lwm2m_server::{
    DeviceRegistry, RegisterOutcome, Lwm2mAttribute, Lwm2mBindMode, Lwm2mRegistrationRequest, Lwm2mVersion,
    ResponseCode,
};

const LINK_FORMAT: usize = 40;

fn decode(
    query: &str,
    content_format: Option<usize>,
    payload: &[u8],
) -> Result<Lwm2mRegistrationRequest, lwm2m_server::RequestError> {
    Lwm2mRegistrationRequest::decode(Some(Ok(query.to_string())), content_format, payload)
}

#[test]
fn empty_payload_without_content_format() {
    let e = decode("ep=device123&lt=3600&b=U&lwm2m=1.1", None, b"").unwrap_err();
    assert_eq!(e.code, ResponseCode::UnprocessableEntity);
    assert_eq!(e.message, "Registration requires objects in payload");
}

#[test]
fn registration_with_two_objects() {
    let req = decode("ep=device123&lt=3600&b=U&lwm2m=1.1", Some(LINK_FORMAT), b"</1>,</3>").unwrap();
    assert_eq!(req.endpoint, "device123");
    assert_eq!(req.lifetime, 3600);
    assert_eq!(req.version, Lwm2mVersion::V11);
    assert_eq!(req.binding_mode, Lwm2mBindMode::Udp);
    assert_eq!(req.objects.len(), 2);
    assert_eq!(req.objects[0].object, "/1");
    assert_eq!(req.objects[1].object, "/3");
    let mut registry = DeviceRegistry::new();
    let (server_endpoint, lifetime) = registry.register(req).unwrap();
    assert_eq!(lifetime, 3600);
    assert_eq!(server_endpoint.len(), 32);
    assert!(server_endpoint.chars().all(|c| c.is_ascii_alphanumeric()));
    assert_eq!(registry.len(), 1);
    let device = registry.get(&server_endpoint).unwrap();
    assert_eq!(device.device_endpoint, "device123");
    assert_eq!(device.lifetime, 3600);
    assert_eq!(device.objects.len(), 2);
}

#[test]
fn lifetime_not_a_number() {
    let e = decode("ep=device123&lt=aaa&b=U&lwm2m=1.1", Some(LINK_FORMAT), b"</1>").unwrap_err();
    assert_eq!(e.code, ResponseCode::UnprocessableEntity);
}

#[test]
fn unknown_lwm2m_version() {
    let e = decode("ep=device123&lt=3600&b=U&lwm2m=1.3", Some(LINK_FORMAT), b"</1>").unwrap_err();
    assert_eq!(e.code, ResponseCode::UnprocessableEntity);
}

#[test]
fn negative_lifetime_rejects() {
    let e = decode("ep=device123&lt=-5&b=U&lwm2m=1.1", Some(LINK_FORMAT), b"</1>").unwrap_err();
    assert_eq!(e.code, ResponseCode::UnprocessableEntity);
}

#[test]
fn missing_endpoint_rejects() {
    let e = decode("lt=3600&b=U&lwm2m=1.1", Some(LINK_FORMAT), b"</1>").unwrap_err();
    assert_eq!(e.code, ResponseCode::UnprocessableEntity);
    assert_eq!(e.message, "Incorrect URL query format");
}

#[test]
fn version_and_binding_aliases() {
    let req = decode("ep=a&lt=1&b=t&lwm2m=v1.0", Some(LINK_FORMAT), b"</1>").unwrap();
    assert_eq!(req.version, Lwm2mVersion::V10);
    assert_eq!(req.binding_mode, Lwm2mBindMode::Tcp);
    let req = decode("ep=a&lt=1&b=T&lwm2m=1.2", Some(LINK_FORMAT), b"</1>").unwrap();
    assert_eq!(req.version, Lwm2mVersion::V12);
    assert!(decode("ep=a&lt=1&b=X&lwm2m=1.2", Some(LINK_FORMAT), b"</1>").is_err());
    assert!(decode("ep=a&lt=1&b=Udp&lwm2m=1.2", Some(LINK_FORMAT), b"</1>").is_err());
    assert!(decode("ep=a&lt=1&b=U&lwm2m=V12", Some(LINK_FORMAT), b"</1>").is_err());
}

#[test]
fn query_values_are_percent_decoded() {
    let req = decode("ep=dev%20ice&lt=60&b=U&lwm2m=1.1", None, b"</1>").unwrap();
    assert_eq!(req.endpoint, "dev ice");
    assert_eq!(req.lifetime, 60);
}

#[test]
fn missing_query_option() {
    let e = Lwm2mRegistrationRequest::decode(None, Some(LINK_FORMAT), b"</1>").unwrap_err();
    assert_eq!(e.code, ResponseCode::BadOption);
    assert_eq!(e.message, "Missing all URL query parameters");
}

#[test]
fn unreadable_query_option() {
    let e = Lwm2mRegistrationRequest::decode(Some(Err(())), Some(LINK_FORMAT), b"</1>").unwrap_err();
    assert_eq!(e.code, ResponseCode::InternalServerError);
}

#[test]
fn payload_not_utf8() {
    let e = decode("ep=a&lt=1&b=U&lwm2m=1.1", Some(LINK_FORMAT), &[0xff, 0xfe]).unwrap_err();
    assert_eq!(e.code, ResponseCode::UnprocessableEntity);
    assert_eq!(e.message, "Unreadable utf8 content");
}

#[test]
fn other_content_format() {
    let e = decode("ep=a&lt=1&b=U&lwm2m=1.1", Some(50), b"</1>").unwrap_err();
    assert_eq!(e.code, ResponseCode::UnsupportedContentFormat);
}

#[test]
fn blank_payload_without_content_format() {
    let e = decode("ep=a&lt=1&b=U&lwm2m=1.1", None, b" \n\t ").unwrap_err();
    assert_eq!(e.code, ResponseCode::UnprocessableEntity);
}

#[test]
fn malformed_link_format() {
    let e = decode("ep=a&lt=1&b=U&lwm2m=1.1", Some(LINK_FORMAT), b"hello").unwrap_err();
    assert_eq!(e.code, ResponseCode::UnprocessableEntity);
    assert_eq!(e.message, "ParseError");
}

#[test]
fn link_attributes_are_read_and_unquoted() {
    let objects = parse_link_format("</1/0>;ver=\"1.1\";ssid=101,</3/0>;pmin=10;gt=1.5;foo=bar").unwrap();
    assert_eq!(objects.len(), 2);
    assert_eq!(objects[0].object, "/1/0");
    assert!(matches!(&objects[0].attributes[0], Lwm2mAttribute::ObjectVersion(v) if v == "1.1"));
    assert!(matches!(objects[0].attributes[1], Lwm2mAttribute::Ssid(101)));
    assert!(matches!(objects[1].attributes[0], Lwm2mAttribute::MinPeriod(10)));
    assert!(matches!(&objects[1].attributes[1], Lwm2mAttribute::GreaterThan(v) if v == "1.5"));
    assert!(matches!(&objects[1].attributes[2], Lwm2mAttribute::Unknown(v) if v == "bar"));
}

#[test]
fn bad_attribute_value_is_not_acceptable() {
    let e = decode("ep=a&lt=1&b=U&lwm2m=1.1", Some(LINK_FORMAT), b"</1>;pmin=x").unwrap_err();
    assert_eq!(e.code, ResponseCode::NotAcceptable);
    assert_eq!(e.message, "Minimum Period valuetype should be u64, is x");
}

#[test]
fn refresh_keeps_server_endpoint() {
    let mut registry = DeviceRegistry::new();
    let first = decode("ep=dev&lt=60&b=U&lwm2m=1.1", None, b"</1>").unwrap();
    let (s1, _) = registry.register(first).unwrap();
    let again = decode("ep=dev&lt=120&b=U&lwm2m=1.1", None, b"</1>,</3>,</5>").unwrap();
    let (s2, lifetime) = registry.register(again).unwrap();
    assert_eq!(s1, s2);
    assert_eq!(lifetime, 120);
    assert_eq!(registry.len(), 1);
    assert_eq!(registry.get(&s1).unwrap().objects.len(), 3);
    let removed = registry.remove(&s1).unwrap();
    assert_eq!(removed.device_endpoint, "dev");
    assert_eq!(registry.len(), 0);
    assert!(registry.remove(&s1).is_none());
}

#[test]
fn taken_server_endpoint_is_a_collision() {
    let mut registry = DeviceRegistry::new();
    let first = decode("ep=one&lt=60&b=U&lwm2m=1.1", None, b"</1>").unwrap();
    let outcome = registry.register_with(first, "A".repeat(32), 10);
    assert!(matches!(outcome, RegisterOutcome::Registered { .. }));
    let second = decode("ep=two&lt=60&b=U&lwm2m=1.1", None, b"</1>").unwrap();
    match registry.register_with(second, "A".repeat(32), 11) {
        RegisterOutcome::Collision(back) => assert_eq!(back.endpoint, "two"),
        _ => panic!("expected a collision"),
    }
    assert_eq!(registry.len(), 1);
    let again = decode("ep=one&lt=90&b=U&lwm2m=1.1", None, b"</1>").unwrap();
    match registry.register_with(again, "B".repeat(32), 12) {
        RegisterOutcome::Refreshed { server_endpoint, lifetime } => {
            assert_eq!(server_endpoint, "A".repeat(32));
            assert_eq!(lifetime, 90);
        }
        _ => panic!("expected a refresh"),
    }
    let device = registry.get(&"A".repeat(32)).unwrap();
    assert_eq!(device.last_seen, 12);
    assert_eq!(device.lifetime, 90);
}
