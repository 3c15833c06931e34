//! The object model: what an LwM2M object and its resources look like, as
//! the OMA descriptors state it.
use vstd::prelude::*;
use std::collections::HashMap;
use crate::version::Version;

verus! {

/// What may be done with a resource.
#[derive(Debug, Clone, Copy, PartialEq, Eq, Structural)]
pub enum ResourceOperation {
    Read,
    Write,
    ReadWrite,
    Execute,
}

/// The data type of a resource.
#[derive(Debug, Clone, Copy, PartialEq, Eq, Structural)]
pub enum ResourceType {
    String,
    Integer,
    UnsignedInteger,
    Opaque,
    Float,
    Boolean,
    ObjectLink,
    Time,
    CoreLink,
}

/// The values a resource may take. A range enumeration that is not broken
/// down further is kept as `Other` with its raw text.
#[derive(Debug, Clone)]
pub enum ResourceRange {
    /// An inclusive interval.
    Numerical(i64, i64),
    NumericalDiscrete(Vec<i64>),
    DiscreteLength(Vec<u64>),
    Length(u64, u64),
    StringEnum(Vec<String>),
    Other(String),
}

/// The description of one resource of an object.
#[derive(Debug)]
pub struct ResourceModel {
    pub id: u16,
    pub mandatory: bool,
    pub name: String,
    pub description: Option<String>,
    pub range: Option<ResourceRange>,
    pub units: Option<String>,
    pub operations: Option<ResourceOperation>,
    pub resourcetype: Option<ResourceType>,
    pub multiple: bool,
}

/// The description of one object, in one version.
#[derive(Debug)]
pub struct ObjectModel {
    pub id: u16,
    pub mandatory: bool,
    pub name: String,
    pub description: Option<String>,
    pub description2: Option<String>,
    pub version: Version,
    pub lwm2m_version: Version,
    pub urn: String,
    pub multiple: bool,
    pub resources: HashMap<u16, ResourceModel>,
}

/// An object model with its resources as a map.
pub struct ObjectModelView {
    pub id: u16,
    pub mandatory: bool,
    pub name: Seq<char>,
    pub description: Option<Seq<char>>,
    pub description2: Option<Seq<char>>,
    pub version: Version,
    pub lwm2m_version: Version,
    pub urn: Seq<char>,
    pub multiple: bool,
    pub resources: Map<u16, ResourceModel>,
}

pub open spec fn opt_view(o: Option<String>) -> Option<Seq<char>> {
    match o {
        Some(s) => Some(s@),
        None => None,
    }
}

impl View for ObjectModel {
    type V = ObjectModelView;

    open spec fn view(&self) -> ObjectModelView {
        ObjectModelView {
            id: self.id,
            mandatory: self.mandatory,
            name: self.name@,
            description: opt_view(self.description),
            description2: opt_view(self.description2),
            version: self.version,
            lwm2m_version: self.lwm2m_version,
            urn: self.urn@,
            multiple: self.multiple,
            resources: self.resources@,
        }
    }
}

/// Every resource is filed under its own id.
pub open spec fn resources_keyed_by_id(m: Map<u16, ResourceModel>) -> bool {
    forall|k: u16| #[trigger] m.contains_key(k) ==> m[k].id == k
}

impl ObjectModel {
    pub open spec fn wf(&self) -> bool {
        resources_keyed_by_id(self.resources@)
    }

    /// The resource with the given id, if the object has one.
    pub fn resource(&self, id: u16) -> (r: Option<&ResourceModel>)
        ensures
            match r {
                Some(m) => self.resources@.contains_key(id) && *m == self.resources@[id],
                None => !self.resources@.contains_key(id),
            },
    {
        self.resources.get(&id)
    }
}

} // verus!
