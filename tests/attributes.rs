use lwm2m_server::{Lwm2mAttribute, Lwm2mVersion, ResponseCode};

fn refused(name: &str, value: &str) -> (ResponseCode, String) {
    let e = Lwm2mAttribute::new(name, value).unwrap_err();
    (e.code, e.message)
}

#[test]
fn numeric_attributes() {
    assert!(matches!(Lwm2mAttribute::new("dim", "3"), Ok(Lwm2mAttribute::Dimension(3))));
    assert!(matches!(Lwm2mAttribute::new("pmax", "+60"), Ok(Lwm2mAttribute::MaxPeriod(60))));
    assert!(matches!(Lwm2mAttribute::new("epmin", "1"), Ok(Lwm2mAttribute::MinEvalPeriod(1))));
    assert!(matches!(Lwm2mAttribute::new("epmax", "2"), Ok(Lwm2mAttribute::MaxEvalPeriod(2))));
    assert!(matches!(
        Lwm2mAttribute::new("hqmax", "18446744073709551615"),
        Ok(Lwm2mAttribute::MaxHistoricalQueue(u64::MAX))
    ));
    assert_eq!(
        refused("hqmax", "18446744073709551616").1,
        "Maximum Historical Queue valuetype should be u64, is 18446744073709551616"
    );
}

#[test]
fn dimension_and_ssid_messages() {
    assert_eq!(
        refused("dim", "a"),
        (ResponseCode::NotAcceptable, "Dimension value a should be 0-255".to_string())
    );
    assert_eq!(
        refused("ssid", "-1").1,
        "Short Server ID (SSID) value -1 should be 0-65534"
    );
}

#[test]
fn float_attributes() {
    for v in ["1.5", "-2", ".5", "3.", "1e3", "2.5E-3", "inf", "-Infinity", "NaN"] {
        assert!(matches!(Lwm2mAttribute::new("gt", v), Ok(Lwm2mAttribute::GreaterThan(t)) if t == v), "{}", v);
        assert!(v.parse::<f64>().is_ok());
    }
    for v in ["", ".", "e3", "1e", "1.2.3", "abc", "1x"] {
        assert!(Lwm2mAttribute::new("st", v).is_err(), "{}", v);
        assert!(v.parse::<f64>().is_err());
    }
    assert_eq!(refused("lt", "x").1, "Less Than valuetype should be f64, is x");
}

#[test]
fn boolean_attributes() {
    assert!(matches!(Lwm2mAttribute::new("edge", "1"), Ok(Lwm2mAttribute::Edge(true))));
    assert!(matches!(Lwm2mAttribute::new("con", "0"), Ok(Lwm2mAttribute::Confirmable(false))));
    assert_eq!(refused("edge", "2").1, "Edge parameter 2 should be a 0 or 1");
    assert_eq!(
        refused("con", "yes").1,
        "Confirmable Notification parameter yes should be a 0 or 1"
    );
}

#[test]
fn version_attribute_any_case() {
    assert!(matches!(
        Lwm2mAttribute::new("lwm2m", "1.1"),
        Ok(Lwm2mAttribute::Lwm2mVersion(Lwm2mVersion::V11))
    ));
    assert!(matches!(
        Lwm2mAttribute::new("Lwm2m", "v1.2"),
        Ok(Lwm2mAttribute::Lwm2mVersion(Lwm2mVersion::V12))
    ));
    assert_eq!(refused("lwm2m", "2.0").1, "LWM2M Version 2.0 is not supported.");
}

#[test]
fn content_type_attribute() {
    assert!(matches!(Lwm2mAttribute::new("ct", "40"), Ok(Lwm2mAttribute::ContentType(40))));
    assert!(matches!(Lwm2mAttribute::new("ct", "110"), Ok(Lwm2mAttribute::ContentType(110))));
    assert_eq!(refused("ct", "11543").1, "ct value 11543 not recognized as content format");
    assert_eq!(refused("ct", "7").1, "ct value 7 not recognized as content format");
    assert_eq!(refused("ct", "x").1, "ct value should be an integer");
}

#[test]
fn text_and_unknown_attributes() {
    assert!(matches!(Lwm2mAttribute::new("uri", "/a"), Ok(Lwm2mAttribute::Uri(v)) if v == "/a"));
    assert!(matches!(Lwm2mAttribute::new("ver", "1.0"), Ok(Lwm2mAttribute::ObjectVersion(v)) if v == "1.0"));
    assert!(matches!(Lwm2mAttribute::new("rt", "x.y"), Ok(Lwm2mAttribute::Unknown(v)) if v == "x.y"));
}
