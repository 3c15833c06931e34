use std::collections::HashMap;

use lwm2m_server::device_model::{self, DeviceModel, ObjectInstance};
use lwm2m_server::registration_model::{self, Lwm2mRegistration, UnitsType};
use lwm2m_server::Lwm2mVersion;

#[test]
fn device_model_starts_empty_and_holds_objects() {
    let mut model = DeviceModel::new();
    assert!(model.objects.is_empty());
    let mut instances = HashMap::new();
    instances.insert(0u64, ObjectInstance { resources: Vec::new() });
    model.objects.push(device_model::Object {
        id: 3,
        instances,
        mandatory: true,
        name: "Device".to_string(),
        description: String::new(),
        version: "1.0".to_string(),
        lwm2m_version: Lwm2mVersion::V11,
        urn: "urn:oma:lwm2m:oma:3".to_string(),
    });
    assert_eq!(model.objects.len(), 1);
    assert_eq!(model.objects[0].instances.len(), 1);
}

#[test]
fn registration_model_values() {
    let _ = Lwm2mRegistration {};
    let value = registration_model::ResourceInstance {
        instance_id: 0,
        value: registration_model::ResourceType::Float("1.5".to_string()),
    };
    assert_eq!(value.instance_id, 0);
    assert!(matches!(UnitsType::Other("s".to_string()), UnitsType::Other(u) if u == "s"));
}
