//! The model of a registration: the objects a client registered, with
//! their instances and resources.
use vstd::prelude::*;
use crate::attributes::Lwm2mVersion;

verus! {

/// A registration as a whole.
#[derive(Debug)]
pub struct Lwm2mRegistration {}

/// The objects of a registration.
#[derive(Debug)]
pub struct Model {
    pub objects: Vec<Object>,
}

/// One registered object.
#[derive(Debug)]
pub struct Object {
    pub id: u16,
    pub mandatory: bool,
    pub name: String,
    pub description: String,
    pub instances: Vec<ObjectInstance>,
    pub version: String,
    pub lwm2m_version: Lwm2mVersion,
    pub urn: String,
}

/// One instance of a registered object.
#[derive(Debug)]
pub struct ObjectInstance {
    pub instance_id: u16,
    pub resources: Vec<Resource>,
}

/// One resource of a registered object instance.
#[derive(Debug)]
pub struct Resource {
    pub id: u16,
    pub instances: Vec<ResourceInstance>,
    pub mandatory: bool,
    pub name: String,
    pub description: String,
    pub datatype: Option<ResourceType>,
    pub range: Option<ResourceRange>,
    pub units: String,
    pub operations: Vec<ResourceOperation>,
}

/// The units a resource is measured in. Descriptors do not restrict them,
/// so they are kept as given.
#[derive(Debug)]
pub enum UnitsType {
    Other(String),
}

/// A single instance of a resource.
#[derive(Debug)]
pub struct ResourceInstance {
    pub instance_id: u16,
    pub value: ResourceType,
}

/// What may be done with a resource.
#[derive(Debug, Clone, Copy, PartialEq, Eq, Structural)]
pub enum ResourceOperation {
    Read,
    Write,
    Execute,
}

/// A resource value of one of the LwM2M data types. A float is kept as its
/// decimal text.
#[derive(Debug)]
pub enum ResourceType {
    String(String),
    Integer(i64),
    UnsignedInteger(u64),
    Opaque(Vec<u8>),
    Float(String),
    Boolean(bool),
    ObjectLink(String),
    Time(u64),
    CoreLink(String),
}

/// The values a resource may take.
#[derive(Debug)]
pub enum ResourceRange {
    /// An inclusive interval.
    Numerical(u64, u64),
    NumericalDiscrete(Vec<u64>),
    ByteLength(u64, u64),
    ByteDiscrete(Vec<u64>),
    StringLength(u64, u64),
    StringEnum(Vec<String>),
}

} // verus!
