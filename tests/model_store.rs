use lwm2m_server::store::descriptor_file_name;
use lwm2m_server::xml::parse_model;
use lwm2m_server::{
    CoreLink, Model, ModelNotFoundError, ObjectModelStore, ResourceOperation, ResourceRange,
    ResourceType, Version, XmlElement,
};

fn element(name: &str, text: Option<&str>, children: Vec<XmlElement>) -> XmlElement {
    XmlElement {
        name: name.to_string(),
        text: text.map(|t| t.to_string()),
        attributes: Vec::new(),
        children,
    }
}

fn leaf(name: &str, text: &str) -> XmlElement {
    element(name, Some(text), Vec::new())
}

fn item(id: &str, name: &str) -> XmlElement {
    XmlElement {
        name: "Item".to_string(),
        text: None,
        attributes: vec![("ID".to_string(), id.to_string())],
        children: vec![
            leaf("Name", name),
            leaf("Operations", "R"),
            leaf("MultipleInstances", "Single"),
            leaf("Mandatory", "Optional"),
            leaf("Type", "String"),
            leaf("RangeEnumeration", "0..255"),
            leaf("Units", "s"),
            leaf("Description", "A resource"),
        ],
    }
}

fn device_object(version: Option<&str>) -> XmlElement {
    let mut children = vec![
        leaf("Name", "Device"),
        leaf("Description1", "This LwM2M Object provides a range of device related information"),
        leaf("ObjectID", "3"),
        leaf("ObjectURN", "urn:oma:lwm2m:oma:3"),
        leaf("LWM2MVersion", "1.1"),
        leaf("MultipleInstances", "Single"),
        leaf("Mandatory", "Mandatory"),
        element(
            "Resources",
            None,
            vec![item("0", "Manufacturer"), item("1", "Model Number"), item("2", "Serial Number")],
        ),
    ];
    if let Some(v) = version {
        children.push(leaf("ObjectVersion", v));
    }
    element("Object", None, children)
}

fn registry_store() -> ObjectModelStore {
    let docs = vec![Some(device_object(None)), Some(device_object(Some("1.2")))];
    ObjectModelStore::new(&docs).unwrap()
}

#[test]
fn test_model_store() {
    let docs = vec![Some(device_object(None)), Some(device_object(Some("1.2")))];
    assert!(ObjectModelStore::new(&docs).is_ok());
}

#[test]
fn test_get_object_model() {
    let store = registry_store();
    let model = store.get_model(CoreLink::parse("</3>").unwrap(), None);
    match model {
        Ok(Model::Object(m)) => {
            assert_eq!(m.id, 3);
            assert_eq!(m.name, "Device".to_string());
            assert_eq!(m.version, Version::default());
            assert_eq!(m.version.to_string(), "1.0");
            assert_eq!(m.lwm2m_version.to_string(), "1.1");
            assert_eq!(m.urn, "urn:oma:lwm2m:oma:3");
            assert!(m.mandatory);
            assert!(!m.multiple);
            assert_eq!(m.resources.len(), 3);
        }
        _ => panic!("expected an object model"),
    }
}

#[test]
fn test_get_versioned_object_model() {
    let store = registry_store();
    let version = Version::parse("1.2").unwrap();
    match store.get_model(CoreLink::parse("</3>").unwrap(), Some(version)) {
        Ok(Model::Object(m)) => {
            assert_eq!(m.id, 3);
            assert_eq!(m.name, "Device".to_string());
            assert_eq!(m.version, version);
        }
        _ => panic!("expected an object model"),
    }
}

#[test]
fn test_get_resource_model() {
    let store = registry_store();
    let version = Version::parse("1.2").unwrap();
    match store.get_model(CoreLink::parse("</3/0/0>").unwrap(), Some(version)) {
        Ok(Model::Resource(r)) => {
            assert_eq!(r.id, 0);
            assert_eq!(r.name, "Manufacturer".to_string());
            assert_eq!(r.operations, Some(ResourceOperation::Read));
            assert_eq!(r.resourcetype, Some(ResourceType::String));
            assert!(!r.mandatory);
            assert!(!r.multiple);
            assert_eq!(r.units.as_deref(), Some("s"));
            assert!(matches!(&r.range, Some(ResourceRange::Other(t)) if t == "0..255"));
        }
        _ => panic!("expected a resource model"),
    }
}

#[test]
fn every_stored_resource_is_found_under_its_id() {
    let store = registry_store();
    for rid in [0u16, 1, 2] {
        let link = CoreLink::parse(&format!("</3/0/{}>", rid)).unwrap();
        match store.get_model(link, None) {
            Ok(Model::Resource(r)) => assert_eq!(r.id, rid),
            _ => panic!("expected a resource model"),
        }
    }
}

#[test]
fn lookups_that_miss() {
    let store = registry_store();
    assert!(matches!(
        store.get_model(CoreLink::parse("</4>").unwrap(), None),
        Err(ModelNotFoundError::ObjectId(_))
    ));
    assert!(matches!(
        store.get_model(CoreLink::parse("</3>").unwrap(), Some(Version::parse("1.1").unwrap())),
        Err(ModelNotFoundError::Version { .. })
    ));
    assert!(matches!(
        store.get_model(CoreLink::parse("</3/0/9>").unwrap(), None),
        Err(ModelNotFoundError::ResourceId(_))
    ));
}

#[test]
fn not_found_messages() {
    let store = registry_store();
    let e = store.get_model(CoreLink::parse("</4>").unwrap(), None).unwrap_err();
    assert_eq!(e.to_string(), "Object model for link </4> was not found in model registry");
    let e = store
        .get_model(CoreLink::parse("</3>").unwrap(), Some(Version::parse("2.0").unwrap()))
        .unwrap_err();
    assert_eq!(
        e.to_string(),
        "Object version 2.0 for link </3> was not found in model registry"
    );
}

#[test]
fn later_descriptor_replaces_same_id_and_version() {
    let mut second = device_object(None);
    second.children[0] = leaf("Name", "Device Two");
    let docs = vec![Some(device_object(None)), Some(second)];
    let store = ObjectModelStore::new(&docs).unwrap();
    match store.get_model(CoreLink::parse("</3>").unwrap(), None) {
        Ok(Model::Object(m)) => assert_eq!(m.name, "Device Two"),
        _ => panic!("expected an object model"),
    }
}

#[test]
fn failing_descriptor_aborts_load() {
    let mut bad = device_object(None);
    bad.children[5] = leaf("MultipleInstances", "Many");
    let docs = vec![Some(device_object(None)), Some(bad)];
    let e = ObjectModelStore::new(&docs).err().unwrap();
    assert_eq!(e.to_string(), "MultipleInstances needs to be Multiple or Single, is: Many");
}

#[test]
fn failing_add_leaves_store_unchanged() {
    let mut store = registry_store();
    let docs = vec![None];
    let e = store.add_models(&docs).unwrap_err();
    assert_eq!(e.to_string(), "No Object found in file");
    assert!(store.get_model(CoreLink::parse("</3>").unwrap(), None).is_ok());
}

#[test]
fn add_models_merges() {
    let mut store = registry_store();
    let mut other = device_object(None);
    other.children[2] = leaf("ObjectID", "5");
    other.children[0] = leaf("Name", "Firmware Update");
    store.add_models(&vec![Some(other)]).unwrap();
    assert!(store.get_model(CoreLink::parse("</3>").unwrap(), None).is_ok());
    match store.get_model(CoreLink::parse("</5>").unwrap(), None) {
        Ok(Model::Object(m)) => assert_eq!(m.name, "Firmware Update"),
        _ => panic!("expected an object model"),
    }
}

#[test]
fn missing_name_is_reported_at_build() {
    let mut obj = device_object(None);
    obj.children.remove(0);
    let e = parse_model(Some(&obj)).unwrap_err();
    assert_eq!(e.to_string(), "Field not initialized: name");
}

#[test]
fn bad_object_id_and_version() {
    let mut obj = device_object(None);
    obj.children[2] = leaf("ObjectID", "x");
    assert_eq!(parse_model(Some(&obj)).unwrap_err().to_string(), "Error parsing ObjectID");
    let mut obj = device_object(Some("1.x"));
    obj.children[2] = leaf("ObjectID", "3");
    assert_eq!(
        parse_model(Some(&obj)).unwrap_err().to_string(),
        "Version is not in format DIGIT.DIGIT"
    );
}

#[test]
fn bad_resource_entries() {
    let mut obj = device_object(None);
    let mut it = item("0", "Manufacturer");
    it.children[1] = leaf("Operations", "X");
    obj.children[7] = element("Resources", None, vec![it]);
    assert_eq!(
        parse_model(Some(&obj)).unwrap_err().to_string(),
        "Operations needs to be R, W, RW, E or empty, is: X"
    );
    let mut it = item("0", "Manufacturer");
    it.attributes.clear();
    obj.children[7] = element("Resources", None, vec![it]);
    assert_eq!(parse_model(Some(&obj)).unwrap_err().to_string(), "No Resource ID found");
    let it = item("x", "Manufacturer");
    obj.children[7] = element("Resources", None, vec![it]);
    assert_eq!(parse_model(Some(&obj)).unwrap_err().to_string(), "Error parsing Resource ID");
}

#[test]
fn no_object_element() {
    assert_eq!(parse_model(None).unwrap_err().to_string(), "No Object found in file");
}

#[test]
fn descriptor_file_names() {
    assert!(descriptor_file_name("3.xml"));
    assert!(descriptor_file_name("3-1_2.xml"));
    assert!(descriptor_file_name("10241.xml"));
    assert!(!descriptor_file_name("3.json"));
    assert!(!descriptor_file_name("LWM2M-v1_1.xml"));
    assert!(!descriptor_file_name("xml"));
    assert!(!descriptor_file_name("3a.xml"));
}

fn print_multi_version_models(store: &ObjectModelStore) {
    for version in ["1.0", "1.1", "1.2"] {
        let version = Version::parse(version).unwrap();
        if let Ok(Model::Object(m)) = store.get_model(CoreLink::parse("</3>").unwrap(), Some(version)) {
            println!("{} {} {}", m.id, m.name, m.version.to_string());
        }
    }
}

#[test]
fn xml_parser_parse_all() {
    let docs = vec![Some(device_object(None)), Some(device_object(Some("1.2")))];
    let result = ObjectModelStore::new(&docs);
    assert!(result.is_ok());
    print_multi_version_models(&result.unwrap());
}

#[test]
fn lib_parse_all() {
    let docs = vec![Some(device_object(Some("1.1"))), Some(device_object(Some("1.2")))];
    let result = ObjectModelStore::new(&docs);
    assert!(result.is_ok());
    print_multi_version_models(&result.unwrap());
}
