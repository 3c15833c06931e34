use lwm2m_server::{CoreLink, ModelType};

#[test]
fn test_try_from_valid_string() {
    let core_link = CoreLink::parse("</3/1/3/0>");
    assert!(core_link.is_ok());
    if let Ok(core_link) = core_link {
        assert_eq!(core_link.object_id, 3);
        assert_eq!(core_link.object_instance, Some(1));
        assert_eq!(core_link.resource_id, Some(3));
        assert_eq!(core_link.resource_instance, Some(0));
    }
}

#[test]
fn test_try_from_valid_string2() {
    let core_link = CoreLink::parse("</3/1>");
    assert!(core_link.is_ok());
    if let Ok(core_link) = core_link {
        assert_eq!(core_link.object_id, 3);
        assert_eq!(core_link.object_instance, Some(1));
        assert_eq!(core_link.resource_id, None);
        assert_eq!(core_link.resource_instance, None);
    }
}

#[test]
fn test_try_from_valid_string3() {
    let core_link = CoreLink::parse("</3>");
    assert!(core_link.is_ok());
    if let Ok(core_link) = core_link {
        assert_eq!(core_link.object_id, 3);
        assert_eq!(core_link.object_instance, None);
        assert_eq!(core_link.resource_id, None);
        assert_eq!(core_link.resource_instance, None);
    }
}

#[test]
fn test_try_from_invalid_string() {
    let core_link = CoreLink::parse("</a/2/b>");
    assert!(core_link.is_err());
}

#[test]
fn test_try_from_invalid_string2() {
    let core_link = CoreLink::parse("hello");
    assert!(core_link.is_err());
}

#[test]
fn test_try_from_too_many_elements() {
    let core_link = CoreLink::parse("</1/2/3/4/5>");
    assert!(core_link.is_err());
}

#[test]
fn bare_path_is_accepted() {
    let link = CoreLink::parse("3/0/0").unwrap();
    assert_eq!(link.object_id, 3);
    assert_eq!(link.object_instance, Some(0));
    assert_eq!(link.resource_id, Some(0));
    assert_eq!(link.resource_instance, None);
    assert_eq!(link.kind(), ModelType::Resource);
}

#[test]
fn bare_path_with_leading_slash() {
    let link = CoreLink::parse("/3/0").unwrap();
    assert_eq!(link.object_id, 3);
    assert_eq!(link.object_instance, Some(0));
    assert_eq!(link.to_string(), "/3/0");
    assert!(CoreLink::parse("/").is_err());
    assert!(CoreLink::parse("//3").is_err());
}

#[test]
fn object_path_kind() {
    assert_eq!(CoreLink::parse("</3/0>").unwrap().kind(), ModelType::Object);
}

#[test]
fn empty_and_bracket_only_paths_reject() {
    assert!(CoreLink::parse("").is_err());
    assert!(CoreLink::parse("</>").is_err());
    assert!(CoreLink::parse("<>").is_err());
    assert!(CoreLink::parse("<3>").is_err());
    assert!(CoreLink::parse("</3").is_err());
    assert!(CoreLink::parse("3//0").is_err());
}

#[test]
fn bare_path_with_five_components_rejects() {
    assert!(CoreLink::parse("1/2/3/4/5").is_err());
}

#[test]
fn invalid_shape_message() {
    let e = CoreLink::parse("</a/2/b>").unwrap_err();
    assert_eq!(e.to_string(), "LwM2M CoRE link is not valid");
}

#[test]
fn component_too_large_rejects_with_index() {
    let e = CoreLink::parse("</3/65536>").unwrap_err();
    assert_eq!(e.to_string(), "CoRE link index 1, value 65536 is not a u16");
    let ok = CoreLink::parse("</65535>").unwrap();
    assert_eq!(ok.object_id, 65535);
}

#[test]
fn parse_format_parse_round_trip() {
    for s in ["</3/1/3/0>", "</3>", "3/0/0", "65535/1"] {
        let first = CoreLink::parse(s).unwrap();
        assert_eq!(first.to_string(), s);
        let second = CoreLink::parse(&first.to_string()).unwrap();
        assert_eq!(second.object_id, first.object_id);
        assert_eq!(second.object_instance, first.object_instance);
        assert_eq!(second.resource_id, first.resource_id);
        assert_eq!(second.resource_instance, first.resource_instance);
    }
}
