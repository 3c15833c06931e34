use lwm2m_server::ObjectLink;

#[test]
fn test_valid_object_link() {
    let link = "123:456".to_string();
    let object_link = ObjectLink::parse(link);
    assert!(object_link.is_ok());
    if let Ok(link) = object_link {
        assert_eq!(link.object_id, 123);
        assert_eq!(link.object_instance, 456);
    }
}

#[test]
fn test_invalid_object_link_format() {
    let link = "123:456:789".to_string();
    let object_link = ObjectLink::parse(link);
    assert!(object_link.is_err());
    if let Err(e) = object_link {
        assert_eq!(e.to_string(), "Object Link should match u16:u16 pattern");
    }
}

#[test]
fn test_invalid_object_link_values() {
    let link = "abc:def".to_string();
    let object_link = ObjectLink::parse(link);
    assert!(object_link.is_err());
    if let Err(e) = object_link {
        assert_eq!(e.to_string(), "Object Link index 0, value abc is not a u16");
    }
}

#[test]
fn object_link_needs_two_parts() {
    let e = ObjectLink::parse("123".to_string()).unwrap_err();
    assert_eq!(e.to_string(), "Object Link should match u16:u16 pattern");
}

#[test]
fn object_link_second_part_too_large() {
    let e = ObjectLink::parse("1:70000".to_string()).unwrap_err();
    assert_eq!(e.to_string(), "Object Link index 1, value 70000 is not a u16");
}

#[test]
fn object_link_keeps_text() {
    let l = ObjectLink::parse("3:0".to_string()).unwrap();
    assert_eq!(l.to_string(), "3:0");
}
