use lwm2m_server::{ObjectModelError, Version};

#[test]
fn version_boundaries() {
    assert!(Version::parse("0.0").is_ok());
    assert!(Version::parse("9.9").is_ok());
    assert!(Version::parse("10.0").is_err());
    assert!(Version::parse("1").is_err());
    assert!(Version::parse("1,0").is_err());
    assert!(Version::parse("").is_err());
}

#[test]
fn version_error_message() {
    let e = Version::parse("1.x").unwrap_err();
    assert_eq!(e.to_string(), "Version is not in format DIGIT.DIGIT");
}

#[test]
fn version_round_trip() {
    for s in ["0.0", "1.0", "1.2", "9.9"] {
        let v = Version::parse(s).unwrap();
        assert_eq!(v.to_string(), s);
        assert_eq!(Version::parse(&v.to_string()).unwrap(), v);
    }
}

#[test]
fn default_version_is_one_zero() {
    assert_eq!(Version::default().to_string(), "1.0");
    assert_eq!(Version::default(), Version::parse("1.0").unwrap());
    assert_ne!(Version::parse("1.1").unwrap(), Version::parse("1.0").unwrap());
}

#[test]
fn object_model_error_messages() {
    assert_eq!(ObjectModelError::Parser("bad".to_string()).to_string(), "bad");
    assert_eq!(ObjectModelError::NotFound("gone".to_string()).to_string(), "gone");
}
