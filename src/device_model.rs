//! A registered device's tree of objects, instances and resources, each
//! resource with its current value.
use vstd::prelude::*;
use std::collections::HashMap;
use crate::attributes::Lwm2mVersion;

verus! {

/// The objects a device holds.
#[derive(Debug)]
pub struct DeviceModel {
    pub objects: Vec<Object>,
}

impl DeviceModel {
    /// A device that holds no objects yet.
    pub fn new() -> (r: Self)
        ensures
            r.objects@.len() == 0,
    {
        DeviceModel { objects: Vec::new() }
    }
}

/// One object of a device, with its instances by instance id.
#[derive(Debug)]
pub struct Object {
    pub id: u16,
    pub instances: HashMap<u64, ObjectInstance>,
    pub mandatory: bool,
    pub name: String,
    pub description: String,
    pub version: String,
    pub lwm2m_version: Lwm2mVersion,
    pub urn: String,
}

/// One instance of an object.
#[derive(Debug)]
pub struct ObjectInstance {
    pub resources: Vec<Resource>,
}

/// One resource of an object instance, with its instances by instance id.
#[derive(Debug)]
pub struct Resource {
    pub id: u16,
    pub instances: HashMap<u64, ResourceInstance>,
    pub mandatory: bool,
    pub name: String,
    pub description: String,
    pub datatype: Option<ResourceType>,
    pub range: Option<ResourceRange>,
    pub units: String,
    pub operations: Vec<ResourceOperation>,
}

/// A single instance of a resource.
#[derive(Debug)]
pub struct ResourceInstance {
    pub value: Option<ResourceType>,
}

/// What may be done with a resource.
#[derive(Debug, Clone, Copy, PartialEq, Eq, Structural)]
pub enum ResourceOperation {
    Read,
    Write,
    Execute,
}

/// A resource value of one of the LwM2M data types. A float is kept as its
/// decimal text.
#[derive(Debug)]
pub enum ResourceType {
    String(String),
    Integer(i64),
    UnsignedInteger(u64),
    Opaque(Vec<u8>),
    Float(String),
    Boolean(bool),
    ObjectLink(String),
    Time(u64),
    CoreLink(String),
}

/// The values a resource may take.
#[derive(Debug)]
pub enum ResourceRange {
    /// An inclusive interval.
    Numerical(u64, u64),
    NumericalDiscrete(Vec<u64>),
    ByteLength(u64, u64),
    ByteDiscrete(Vec<u64>),
    StringLength(u64, u64),
    StringEnum(Vec<String>),
}

} // verus!
