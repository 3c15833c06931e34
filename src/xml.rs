//! From an OMA object descriptor, given as a tree of XML elements, to an
//! object model. Each child element sets one field; the last one wins, the
//! first bad one fails the whole object, and fields that must be present are
//! checked at the end.
use vstd::prelude::*;
use std::collections::HashMap;
use crate::err::ObjectParserError;
use crate::model::{
    opt_view, ObjectModelView, resources_keyed_by_id, ObjectModel, ResourceModel, ResourceOperation, ResourceRange,
    ResourceType,
};
use crate::text::{is_unsigned, parse_number, str_eq, unsigned_value};
use crate::version::{is_version_text, Version};

verus! {

/// An XML element: its name, its text (when its first child is text), its
/// attributes in order, and its child elements in order.
#[derive(Debug)]
pub struct XmlElement {
    pub name: String,
    pub text: Option<String>,
    pub attributes: Vec<(String, String)>,
    pub children: Vec<XmlElement>,
}

/// The value of the first attribute named `key`.
pub open spec fn attribute_of(attrs: Seq<(String, String)>, key: Seq<char>) -> Option<String>
    decreases attrs.len(),
{
    if attrs.len() == 0 {
        None
    } else if attrs[0].0@ == key {
        Some(attrs[0].1)
    } else {
        attribute_of(attrs.drop_first(), key)
    }
}

/// A resource while its elements are read.
pub struct ResourceDraft {
    pub id: u16,
    pub name: Option<String>,
    pub mandatory: Option<bool>,
    pub multiple: Option<bool>,
    pub description: Option<String>,
    pub range: Option<ResourceRange>,
    pub units: Option<String>,
    pub operations: Option<ResourceOperation>,
    pub resourcetype: Option<ResourceType>,
}

pub open spec fn set_if_text(text: Option<String>, old: Option<String>) -> Option<String> {
    match text {
        Some(v) => Some(v),
        None => old,
    }
}

pub open spec fn multiple_error(text: Option<String>) -> Seq<char> {
    match text {
        Some(v) => "MultipleInstances needs to be Multiple or Single, is: "@ + v@,
        None => "MultipleInstances needs to be Multiple or Single, is empty"@,
    }
}

pub open spec fn mandatory_error(text: Option<String>) -> Seq<char> {
    match text {
        Some(v) => "Mandatory needs to be Mandatory or Optional, is: "@ + v@,
        None => "Mandatory needs to be Mandatory or Optional, is empty"@,
    }
}

/// `Multiple` or `Single`.
pub open spec fn multiple_of(text: Option<String>) -> Option<bool> {
    match text {
        Some(v) => if v@ == "Multiple"@ {
            Some(true)
        } else if v@ == "Single"@ {
            Some(false)
        } else {
            None
        },
        None => None,
    }
}

/// `Mandatory` or `Optional`.
pub open spec fn mandatory_of(text: Option<String>) -> Option<bool> {
    match text {
        Some(v) => if v@ == "Mandatory"@ {
            Some(true)
        } else if v@ == "Optional"@ {
            Some(false)
        } else {
            None
        },
        None => None,
    }
}

/// The operations named by `R`, `W`, `RW`, `E` or the empty text; `None`
/// for any other text.
pub open spec fn operations_of(v: Seq<char>) -> Option<Option<ResourceOperation>> {
    if v == "R"@ {
        Some(Some(ResourceOperation::Read))
    } else if v == "W"@ {
        Some(Some(ResourceOperation::Write))
    } else if v == "RW"@ {
        Some(Some(ResourceOperation::ReadWrite))
    } else if v == "E"@ {
        Some(Some(ResourceOperation::Execute))
    } else if v == ""@ {
        Some(None)
    } else {
        None
    }
}

/// The resource type that a `Type` text names.
pub open spec fn type_of(v: Seq<char>) -> Option<ResourceType> {
    if v == "String"@ {
        Some(ResourceType::String)
    } else if v == "Integer"@ {
        Some(ResourceType::Integer)
    } else if v == "Unsigned Integer"@ {
        Some(ResourceType::UnsignedInteger)
    } else if v == "Float"@ {
        Some(ResourceType::Float)
    } else if v == "Boolean"@ {
        Some(ResourceType::Boolean)
    } else if v == "Opaque"@ {
        Some(ResourceType::Opaque)
    } else if v == "Time"@ {
        Some(ResourceType::Time)
    } else if v == "Objlnk"@ {
        Some(ResourceType::ObjectLink)
    } else if v == "Corelnk"@ {
        Some(ResourceType::CoreLink)
    } else {
        None
    }
}

/// What one child element of a resource `Item` does to the draft.
pub open spec fn resource_step(d: ResourceDraft, c: XmlElement) -> Result<ResourceDraft, Seq<char>> {
    let n = c.name@;
    if n == "Name"@ {
        match c.text {
            Some(v) => Ok(ResourceDraft { name: Some(v), ..d }),
            None => Err("No resource name found"@),
        }
    } else if n == "Operations"@ {
        match c.text {
            Some(v) => match operations_of(v@) {
                Some(o) => Ok(ResourceDraft { operations: o, ..d }),
                None => Err("Operations needs to be R, W, RW, E or empty, is: "@ + v@),
            },
            None => Ok(d),
        }
    } else if n == "MultipleInstances"@ {
        match multiple_of(c.text) {
            Some(b) => Ok(ResourceDraft { multiple: Some(b), ..d }),
            None => Err(multiple_error(c.text)),
        }
    } else if n == "Mandatory"@ {
        match mandatory_of(c.text) {
            Some(b) => Ok(ResourceDraft { mandatory: Some(b), ..d }),
            None => Err(mandatory_error(c.text)),
        }
    } else if n == "Type"@ {
        match c.text {
            Some(v) => match type_of(v@) {
                Some(t) => Ok(ResourceDraft { resourcetype: Some(t), ..d }),
                None => Err(
                    "Resource Type can be String, Integer, Float, Boolean, Opaque, Time, Objlnk or empty, is: "@
                        + v@,
                ),
            },
            None => Ok(d),
        }
    } else if n == "Description"@ {
        Ok(ResourceDraft { description: set_if_text(c.text, d.description), ..d })
    } else if n == "Units"@ {
        Ok(ResourceDraft { units: set_if_text(c.text, d.units), ..d })
    } else if n == "RangeEnumeration"@ {
        match c.text {
            Some(v) => Ok(ResourceDraft { range: Some(ResourceRange::Other(v)), ..d }),
            None => Ok(d),
        }
    } else {
        Ok(d)
    }
}

/// The draft after the first `n` children.
pub open spec fn resource_steps(children: Seq<XmlElement>, n: nat, id: u16) -> Result<
    ResourceDraft,
    Seq<char>,
>
    decreases n,
{
    if n == 0 {
        Ok(
            ResourceDraft {
                id,
                name: None,
                mandatory: None,
                multiple: None,
                description: None,
                range: None,
                units: None,
                operations: None,
                resourcetype: None,
            },
        )
    } else {
        match resource_steps(children, (n - 1) as nat, id) {
            Ok(d) => if n <= children.len() {
                resource_step(d, children[n - 1])
            } else {
                Ok(d)
            },
            Err(e) => Err(e),
        }
    }
}

/// The resource a finished draft describes, or the first field it lacks.
pub open spec fn resource_build(d: ResourceDraft) -> Result<ResourceModel, Seq<char>> {
    if d.mandatory is None {
        Err("Field not initialized: mandatory"@)
    } else if d.name is None {
        Err("Field not initialized: name"@)
    } else if d.multiple is None {
        Err("Field not initialized: multiple"@)
    } else {
        Ok(
            ResourceModel {
                id: d.id,
                mandatory: d.mandatory.unwrap(),
                name: d.name.unwrap(),
                description: d.description,
                range: d.range,
                units: d.units,
                operations: d.operations,
                resourcetype: d.resourcetype,
                multiple: d.multiple.unwrap(),
            },
        )
    }
}

/// The resource that an `Item` element with the given id describes.
pub open spec fn resource_of(item: XmlElement, id: u16) -> Result<ResourceModel, Seq<char>> {
    match resource_steps(item.children@, item.children@.len(), id) {
        Ok(d) => resource_build(d),
        Err(e) => Err(e),
    }
}

/// Whether an executable result agrees with a result of the description.
pub open spec fn agrees<T>(r: Result<T, ObjectParserError>, s: Result<T, Seq<char>>) -> bool {
    match (r, s) {
        (Ok(a), Ok(b)) => a == b,
        (Err(e), Err(m)) => e.message_view() == m,
        _ => false,
    }
}

fn copy_text(t: &Option<String>) -> (r: Option<String>)
    ensures
        r == *t,
{
    match t {
        Some(v) => Some(v.clone()),
        None => None,
    }
}

fn text_error(prefix: &str, v: &String) -> (e: ObjectParserError)
    ensures
        e.message_view() == prefix@ + v@,
{
    let mut m = prefix.to_owned();
    m.append(v.as_str());
    ObjectParserError::from_string(m)
}

fn is_text(t: &Option<String>, lit: &str) -> (r: bool)
    ensures
        r == (t is Some && t.unwrap()@ == lit@),
{
    match t {
        Some(v) => str_eq(v.as_str(), lit),
        None => false,
    }
}

fn parse_multiple(t: &Option<String>) -> (r: Result<bool, ObjectParserError>)
    ensures
        match r {
            Ok(b) => multiple_of(*t) == Some(b),
            Err(e) => multiple_of(*t) is None && e.message_view() == multiple_error(*t),
        },
{
    if is_text(t, "Multiple") {
        Ok(true)
    } else if is_text(t, "Single") {
        Ok(false)
    } else {
        match t {
            Some(v) => Err(text_error("MultipleInstances needs to be Multiple or Single, is: ", v)),
            None => Err(
                ObjectParserError::new("MultipleInstances needs to be Multiple or Single, is empty"),
            ),
        }
    }
}

fn parse_mandatory(t: &Option<String>) -> (r: Result<bool, ObjectParserError>)
    ensures
        match r {
            Ok(b) => mandatory_of(*t) == Some(b),
            Err(e) => mandatory_of(*t) is None && e.message_view() == mandatory_error(*t),
        },
{
    if is_text(t, "Mandatory") {
        Ok(true)
    } else if is_text(t, "Optional") {
        Ok(false)
    } else {
        match t {
            Some(v) => Err(text_error("Mandatory needs to be Mandatory or Optional, is: ", v)),
            None => Err(
                ObjectParserError::new("Mandatory needs to be Mandatory or Optional, is empty"),
            ),
        }
    }
}

fn parse_operations(v: &str) -> (r: Option<Option<ResourceOperation>>)
    ensures
        r == operations_of(v@),
{
    if str_eq(v, "R") {
        Some(Some(ResourceOperation::Read))
    } else if str_eq(v, "W") {
        Some(Some(ResourceOperation::Write))
    } else if str_eq(v, "RW") {
        Some(Some(ResourceOperation::ReadWrite))
    } else if str_eq(v, "E") {
        Some(Some(ResourceOperation::Execute))
    } else if str_eq(v, "") {
        Some(None)
    } else {
        None
    }
}

fn parse_type(v: &str) -> (r: Option<ResourceType>)
    ensures
        r == type_of(v@),
{
    if str_eq(v, "String") {
        Some(ResourceType::String)
    } else if str_eq(v, "Integer") {
        Some(ResourceType::Integer)
    } else if str_eq(v, "Unsigned Integer") {
        Some(ResourceType::UnsignedInteger)
    } else if str_eq(v, "Float") {
        Some(ResourceType::Float)
    } else if str_eq(v, "Boolean") {
        Some(ResourceType::Boolean)
    } else if str_eq(v, "Opaque") {
        Some(ResourceType::Opaque)
    } else if str_eq(v, "Time") {
        Some(ResourceType::Time)
    } else if str_eq(v, "Objlnk") {
        Some(ResourceType::ObjectLink)
    } else if str_eq(v, "Corelnk") {
        Some(ResourceType::CoreLink)
    } else {
        None
    }
}

/// A range enumeration, kept as its raw text.
pub fn parse_range_enumeration(enumeration: &String) -> (r: ResourceRange)
    ensures
        r == ResourceRange::Other(*enumeration),
{
    ResourceRange::Other(enumeration.clone())
}

fn apply_resource_child(d: ResourceDraft, c: &XmlElement) -> (r: Result<ResourceDraft, ObjectParserError>)
    ensures
        agrees(r, resource_step(d, *c)),
        r matches Ok(x) ==> x.id == d.id,
{
    let n = c.name.as_str();
    if str_eq(n, "Name") {
        match &c.text {
            Some(v) => Ok(ResourceDraft { name: Some(v.clone()), ..d }),
            None => Err(ObjectParserError::new("No resource name found")),
        }
    } else if str_eq(n, "Operations") {
        match &c.text {
            Some(v) => match parse_operations(v.as_str()) {
                Some(o) => Ok(ResourceDraft { operations: o, ..d }),
                None => Err(text_error("Operations needs to be R, W, RW, E or empty, is: ", v)),
            },
            None => Ok(d),
        }
    } else if str_eq(n, "MultipleInstances") {
        match parse_multiple(&c.text) {
            Ok(b) => Ok(ResourceDraft { multiple: Some(b), ..d }),
            Err(e) => Err(e),
        }
    } else if str_eq(n, "Mandatory") {
        match parse_mandatory(&c.text) {
            Ok(b) => Ok(ResourceDraft { mandatory: Some(b), ..d }),
            Err(e) => Err(e),
        }
    } else if str_eq(n, "Type") {
        match &c.text {
            Some(v) => match parse_type(v.as_str()) {
                Some(t) => Ok(ResourceDraft { resourcetype: Some(t), ..d }),
                None => Err(
                    text_error(
                        "Resource Type can be String, Integer, Float, Boolean, Opaque, Time, Objlnk or empty, is: ",
                        v,
                    ),
                ),
            },
            None => Ok(d),
        }
    } else if str_eq(n, "Description") {
        match &c.text {
            Some(v) => Ok(ResourceDraft { description: Some(v.clone()), ..d }),
            None => Ok(d),
        }
    } else if str_eq(n, "Units") {
        match &c.text {
            Some(v) => Ok(ResourceDraft { units: Some(v.clone()), ..d }),
            None => Ok(d),
        }
    } else if str_eq(n, "RangeEnumeration") {
        match &c.text {
            Some(v) => Ok(ResourceDraft { range: Some(parse_range_enumeration(v)), ..d }),
            None => Ok(d),
        }
    } else {
        Ok(d)
    }
}

/// Reads a resource `Item` element whose id has already been read.
pub fn parse_resource(item: &XmlElement, id: u16) -> (r: Result<ResourceModel, ObjectParserError>)
    ensures
        agrees(r, resource_of(*item, id)),
        r matches Ok(m) ==> m.id == id,
{
    let mut d = ResourceDraft {
        id,
        name: None,
        mandatory: None,
        multiple: None,
        description: None,
        range: None,
        units: None,
        operations: None,
        resourcetype: None,
    };
    let n = item.children.len();
    let mut i: usize = 0;
    while i < n
        invariant
            n == item.children@.len(),
            i <= n,
            resource_steps(item.children@, i as nat, id) == Ok::<ResourceDraft, Seq<char>>(d),
            d.id == id,
        decreases n - i,
    {
        match apply_resource_child(d, &item.children[i]) {
            Ok(next) => {
                d = next;
            },
            Err(e) => {
                proof {
                    lemma_resource_steps_stay_failed(item.children@, (i + 1) as nat, n as nat, id);
                }
                return Err(e);
            },
        }
        i = i + 1;
    }
    if d.mandatory.is_none() {
        return Err(ObjectParserError::new("Field not initialized: mandatory"));
    }
    if d.name.is_none() {
        return Err(ObjectParserError::new("Field not initialized: name"));
    }
    if d.multiple.is_none() {
        return Err(ObjectParserError::new("Field not initialized: multiple"));
    }
    Ok(
        ResourceModel {
            id: d.id,
            mandatory: d.mandatory.unwrap(),
            name: d.name.unwrap(),
            description: d.description,
            range: d.range,
            units: d.units,
            operations: d.operations,
            resourcetype: d.resourcetype,
            multiple: d.multiple.unwrap(),
        },
    )
}

/// An object while its elements are read.
pub struct ObjectDraft {
    pub id: Option<u16>,
    pub mandatory: Option<bool>,
    pub name: Option<String>,
    pub description: Option<String>,
    pub description2: Option<String>,
    pub version: Version,
    pub lwm2m_version: Version,
    pub urn: Option<String>,
    pub multiple: Option<bool>,
    pub resources: HashMap<u16, ResourceModel>,
}

/// An object draft with its resources as a map.
pub struct ObjectDraftView {
    pub id: Option<u16>,
    pub mandatory: Option<bool>,
    pub name: Option<String>,
    pub description: Option<String>,
    pub description2: Option<String>,
    pub version: Version,
    pub lwm2m_version: Version,
    pub urn: Option<String>,
    pub multiple: Option<bool>,
    pub resources: Map<u16, ResourceModel>,
}

impl View for ObjectDraft {
    type V = ObjectDraftView;

    open spec fn view(&self) -> ObjectDraftView {
        ObjectDraftView {
            id: self.id,
            mandatory: self.mandatory,
            name: self.name,
            description: self.description,
            description2: self.description2,
            version: self.version,
            lwm2m_version: self.lwm2m_version,
            urn: self.urn,
            multiple: self.multiple,
            resources: self.resources@,
        }
    }
}

/// The version whose text is `t`.
pub open spec fn version_from(t: Seq<char>) -> Version {
    choose|v: Version| v.text() == t
}

/// What one child of a `Resources` element does to the resources read so
/// far: an `Item` adds the resource under its `ID`, anything else is
/// skipped.
pub open spec fn item_step(m: Map<u16, ResourceModel>, it: XmlElement) -> Result<
    Map<u16, ResourceModel>,
    Seq<char>,
> {
    if it.name@ != "Item"@ {
        Ok(m)
    } else {
        match attribute_of(it.attributes@, "ID"@) {
            None => Err("No Resource ID found"@),
            Some(t) => if !is_unsigned(t@, 0xffff) {
                Err("Error parsing Resource ID"@)
            } else {
                let id = unsigned_value(t@) as u16;
                match resource_of(it, id) {
                    Ok(r) => Ok(m.insert(id, r)),
                    Err(e) => Err(e),
                }
            },
        }
    }
}

/// The resources after the first `n` children of a `Resources` element.
pub open spec fn item_steps(items: Seq<XmlElement>, n: nat) -> Result<
    Map<u16, ResourceModel>,
    Seq<char>,
>
    decreases n,
{
    if n == 0 {
        Ok(Map::empty())
    } else {
        match item_steps(items, (n - 1) as nat) {
            Ok(m) => if n <= items.len() {
                item_step(m, items[n - 1])
            } else {
                Ok(m)
            },
            Err(e) => Err(e),
        }
    }
}

pub open spec fn version_step(d: ObjectDraftView, text: Option<String>, lwm2m: bool) -> Result<
    ObjectDraftView,
    Seq<char>,
> {
    match text {
        Some(v) => if is_version_text(v@) {
            if lwm2m {
                Ok(ObjectDraftView { lwm2m_version: version_from(v@), ..d })
            } else {
                Ok(ObjectDraftView { version: version_from(v@), ..d })
            }
        } else {
            Err("Version is not in format DIGIT.DIGIT"@)
        },
        None => Ok(d),
    }
}

/// What one child element of an `Object` does to the draft.
pub open spec fn object_step(d: ObjectDraftView, c: XmlElement) -> Result<ObjectDraftView, Seq<char>> {
    let n = c.name@;
    if n == "Name"@ {
        match c.text {
            Some(v) => Ok(ObjectDraftView { name: Some(v), ..d }),
            None => Err("No object name found"@),
        }
    } else if n == "Description1"@ {
        Ok(ObjectDraftView { description: set_if_text(c.text, d.description), ..d })
    } else if n == "Description2"@ {
        Ok(ObjectDraftView { description2: set_if_text(c.text, d.description2), ..d })
    } else if n == "ObjectID"@ {
        match c.text {
            Some(v) => if is_unsigned(v@, 0xffff) {
                Ok(ObjectDraftView { id: Some(unsigned_value(v@) as u16), ..d })
            } else {
                Err("Error parsing ObjectID"@)
            },
            None => Err("No ObjectID found"@),
        }
    } else if n == "ObjectURN"@ {
        Ok(ObjectDraftView { urn: set_if_text(c.text, d.urn), ..d })
    } else if n == "LWM2MVersion"@ {
        version_step(d, c.text, true)
    } else if n == "ObjectVersion"@ {
        version_step(d, c.text, false)
    } else if n == "MultipleInstances"@ {
        match multiple_of(c.text) {
            Some(b) => Ok(ObjectDraftView { multiple: Some(b), ..d }),
            None => Err(multiple_error(c.text)),
        }
    } else if n == "Mandatory"@ {
        match mandatory_of(c.text) {
            Some(b) => Ok(ObjectDraftView { mandatory: Some(b), ..d }),
            None => Err(mandatory_error(c.text)),
        }
    } else if n == "Resources"@ {
        match item_steps(c.children@, c.children@.len()) {
            Ok(m) => Ok(ObjectDraftView { resources: m, ..d }),
            Err(e) => Err(e),
        }
    } else {
        Ok(d)
    }
}

/// The draft after the first `n` children of an `Object` element.
pub open spec fn object_steps(children: Seq<XmlElement>, n: nat) -> Result<
    ObjectDraftView,
    Seq<char>,
>
    decreases n,
{
    if n == 0 {
        Ok(
            ObjectDraftView {
                id: None,
                mandatory: None,
                name: None,
                description: None,
                description2: None,
                version: Version::default_spec(),
                lwm2m_version: Version::default_spec(),
                urn: None,
                multiple: None,
                resources: Map::empty(),
            },
        )
    } else {
        match object_steps(children, (n - 1) as nat) {
            Ok(d) => if n <= children.len() {
                object_step(d, children[n - 1])
            } else {
                Ok(d)
            },
            Err(e) => Err(e),
        }
    }
}

/// The object a finished draft describes, or the first field it lacks.
pub open spec fn object_build(d: ObjectDraftView) -> Result<ObjectModelView, Seq<char>> {
    if d.id is None {
        Err("Field not initialized: id"@)
    } else if d.mandatory is None {
        Err("Field not initialized: mandatory"@)
    } else if d.name is None {
        Err("Field not initialized: name"@)
    } else if d.urn is None {
        Err("Field not initialized: urn"@)
    } else if d.multiple is None {
        Err("Field not initialized: multiple"@)
    } else {
        Ok(
            ObjectModelView {
                id: d.id.unwrap(),
                mandatory: d.mandatory.unwrap(),
                name: d.name.unwrap()@,
                description: opt_view(d.description),
                description2: opt_view(d.description2),
                version: d.version,
                lwm2m_version: d.lwm2m_version,
                urn: d.urn.unwrap()@,
                multiple: d.multiple.unwrap(),
                resources: d.resources,
            },
        )
    }
}

/// The object model that an `Object` element describes.
pub open spec fn object_of(e: XmlElement) -> Result<ObjectModelView, Seq<char>> {
    match object_steps(e.children@, e.children@.len()) {
        Ok(d) => object_build(d),
        Err(e) => Err(e),
    }
}

/// The value of the first attribute named `key`.
pub fn find_attribute<'a>(attrs: &'a Vec<(String, String)>, key: &str) -> (r: Option<&'a String>)
    ensures
        match r {
            Some(v) => attribute_of(attrs@, key@) == Some(*v),
            None => attribute_of(attrs@, key@) is None,
        },
{
    let n = attrs.len();
    let mut i: usize = 0;
    assert(attrs@.skip(0) =~= attrs@);
    while i < n
        invariant
            n == attrs@.len(),
            i <= n,
            attribute_of(attrs@, key@) == attribute_of(attrs@.skip(i as int), key@),
        decreases n - i,
    {
        assert(attrs@.skip(i as int)[0] == attrs@[i as int]);
        if str_eq(attrs[i].0.as_str(), key) {
            return Some(&attrs[i].1);
        }
        assert(attrs@.skip(i as int).drop_first() =~= attrs@.skip(i + 1));
        i = i + 1;
    }
    assert(attrs@.skip(i as int) =~= Seq::<(String, String)>::empty());
    None
}

fn parse_items(items: &Vec<XmlElement>) -> (r: Result<HashMap<u16, ResourceModel>, ObjectParserError>)
    ensures
        match (r, item_steps(items@, items@.len())) {
            (Ok(m), Ok(v)) => m@ == v && resources_keyed_by_id(v),
            (Err(e), Err(msg)) => e.message_view() == msg,
            _ => false,
        },
{
    let mut m: HashMap<u16, ResourceModel> = HashMap::new();
    let n = items.len();
    let mut i: usize = 0;
    while i < n
        invariant
            n == items@.len(),
            i <= n,
            item_steps(items@, i as nat) == Ok::<Map<u16, ResourceModel>, Seq<char>>(m@),
            resources_keyed_by_id(m@),
        decreases n - i,
    {
        let it = &items[i];
        if str_eq(it.name.as_str(), "Item") {
            let failed: Result<(), ObjectParserError> = match find_attribute(&it.attributes, "ID") {
                None => Err(ObjectParserError::new("No Resource ID found")),
                Some(t) => match parse_number(t.as_str(), 0xffff) {
                    None => Err(ObjectParserError::new("Error parsing Resource ID")),
                    Some(x) => {
                        let id = x as u16;
                        match parse_resource(it, id) {
                            Ok(res) => {
                                m.insert(id, res);
                                Ok(())
                            },
                            Err(e) => Err(e),
                        }
                    },
                },
            };
            if let Err(e) = failed {
                proof {
                    lemma_item_steps_stay_failed(items@, (i + 1) as nat, n as nat);
                }
                return Err(e);
            }
        }
        i = i + 1;
    }
    Ok(m)
}

proof fn lemma_item_steps_stay_failed(items: Seq<XmlElement>, i: nat, n: nat)
    requires
        i <= n,
        item_steps(items, i) is Err,
    ensures
        item_steps(items, n) == item_steps(items, i),
    decreases n - i,
{
    if i < n {
        lemma_item_steps_stay_failed(items, i, (n - 1) as nat);
    }
}

proof fn lemma_object_steps_stay_failed(children: Seq<XmlElement>, i: nat, n: nat)
    requires
        i <= n,
        object_steps(children, i) is Err,
    ensures
        object_steps(children, n) == object_steps(children, i),
    decreases n - i,
{
    if i < n {
        lemma_object_steps_stay_failed(children, i, (n - 1) as nat);
    }
}

fn parse_version_text(t: &Option<String>) -> (r: Result<Option<Version>, ObjectParserError>)
    ensures
        match r {
            Ok(Some(v)) => t is Some && is_version_text(t.unwrap()@) && v == version_from(
                t.unwrap()@,
            ),
            Ok(None) => t is None,
            Err(e) => t is Some && !is_version_text(t.unwrap()@) && e.message_view()
                == "Version is not in format DIGIT.DIGIT"@,
        },
{
    match t {
        None => Ok(None),
        Some(v) => match Version::parse(v.as_str()) {
            Ok(ver) => {
                proof {
                    let w = version_from(v@);
                    assert(ver.text() == v@);
                    assert(w.text() == v@);
                    crate::version::lemma_version_round_trip(ver, w);
                }
                Ok(Some(ver))
            },
            Err(e) => Err(e),
        },
    }
}

fn apply_object_child(d: ObjectDraft, c: &XmlElement) -> (r: Result<ObjectDraft, ObjectParserError>)
    requires
        resources_keyed_by_id(d.resources@),
    ensures
        match (r, object_step(d@, *c)) {
            (Ok(a), Ok(b)) => a@ == b && resources_keyed_by_id(a.resources@),
            (Err(e), Err(m)) => e.message_view() == m,
            _ => false,
        },
{
    let n = c.name.as_str();
    if str_eq(n, "Name") {
        match &c.text {
            Some(v) => Ok(ObjectDraft { name: Some(v.clone()), ..d }),
            None => Err(ObjectParserError::new("No object name found")),
        }
    } else if str_eq(n, "Description1") {
        match &c.text {
            Some(v) => Ok(ObjectDraft { description: Some(v.clone()), ..d }),
            None => Ok(d),
        }
    } else if str_eq(n, "Description2") {
        match &c.text {
            Some(v) => Ok(ObjectDraft { description2: Some(v.clone()), ..d }),
            None => Ok(d),
        }
    } else if str_eq(n, "ObjectID") {
        match &c.text {
            Some(v) => match parse_number(v.as_str(), 0xffff) {
                Some(x) => Ok(ObjectDraft { id: Some(x as u16), ..d }),
                None => Err(ObjectParserError::new("Error parsing ObjectID")),
            },
            None => Err(ObjectParserError::new("No ObjectID found")),
        }
    } else if str_eq(n, "ObjectURN") {
        match &c.text {
            Some(v) => Ok(ObjectDraft { urn: Some(v.clone()), ..d }),
            None => Ok(d),
        }
    } else if str_eq(n, "LWM2MVersion") {
        match parse_version_text(&c.text) {
            Ok(Some(ver)) => Ok(ObjectDraft { lwm2m_version: ver, ..d }),
            Ok(None) => Ok(d),
            Err(e) => Err(e),
        }
    } else if str_eq(n, "ObjectVersion") {
        match parse_version_text(&c.text) {
            Ok(Some(ver)) => Ok(ObjectDraft { version: ver, ..d }),
            Ok(None) => Ok(d),
            Err(e) => Err(e),
        }
    } else if str_eq(n, "MultipleInstances") {
        match parse_multiple(&c.text) {
            Ok(b) => Ok(ObjectDraft { multiple: Some(b), ..d }),
            Err(e) => Err(e),
        }
    } else if str_eq(n, "Mandatory") {
        match parse_mandatory(&c.text) {
            Ok(b) => Ok(ObjectDraft { mandatory: Some(b), ..d }),
            Err(e) => Err(e),
        }
    } else if str_eq(n, "Resources") {
        match parse_items(&c.children) {
            Ok(m) => Ok(ObjectDraft { resources: m, ..d }),
            Err(e) => Err(e),
        }
    } else {
        Ok(d)
    }
}

/// Reads an `Object` element into an object model.
pub fn parse_object(object: &XmlElement) -> (r: Result<ObjectModel, ObjectParserError>)
    ensures
        match (r, object_of(*object)) {
            (Ok(m), Ok(v)) => m@ == v && m.wf(),
            (Err(e), Err(msg)) => e.message_view() == msg,
            _ => false,
        },
{
    let mut d = ObjectDraft {
        id: None,
        mandatory: None,
        name: None,
        description: None,
        description2: None,
        version: Version::default(),
        lwm2m_version: Version::default(),
        urn: None,
        multiple: None,
        resources: HashMap::new(),
    };
    let n = object.children.len();
    let mut i: usize = 0;
    while i < n
        invariant
            n == object.children@.len(),
            i <= n,
            object_steps(object.children@, i as nat) == Ok::<ObjectDraftView, Seq<char>>(d@),
            resources_keyed_by_id(d.resources@),
        decreases n - i,
    {
        match apply_object_child(d, &object.children[i]) {
            Ok(next) => {
                d = next;
            },
            Err(e) => {
                proof {
                    lemma_object_steps_stay_failed(object.children@, (i + 1) as nat, n as nat);
                }
                return Err(e);
            },
        }
        i = i + 1;
    }
    let id = match d.id {
        Some(x) => x,
        None => {
            return Err(ObjectParserError::new("Field not initialized: id"));
        },
    };
    let mandatory = match d.mandatory {
        Some(x) => x,
        None => {
            return Err(ObjectParserError::new("Field not initialized: mandatory"));
        },
    };
    let name = match d.name {
        Some(x) => x,
        None => {
            return Err(ObjectParserError::new("Field not initialized: name"));
        },
    };
    let urn = match d.urn {
        Some(x) => x,
        None => {
            return Err(ObjectParserError::new("Field not initialized: urn"));
        },
    };
    let multiple = match d.multiple {
        Some(x) => x,
        None => {
            return Err(ObjectParserError::new("Field not initialized: multiple"));
        },
    };
    Ok(
        ObjectModel {
            id,
            mandatory,
            name,
            description: d.description,
            description2: d.description2,
            version: d.version,
            lwm2m_version: d.lwm2m_version,
            urn,
            multiple,
            resources: d.resources,
        },
    )
}

/// Reads the object model of a descriptor, given its first element named
/// `Object`, if it has one.
pub fn parse_model(object: Option<&XmlElement>) -> (r: Result<ObjectModel, ObjectParserError>)
    ensures
        match object {
            Some(e) => match (r, object_of(*e)) {
                (Ok(m), Ok(v)) => m@ == v && m.wf(),
                (Err(x), Err(msg)) => x.message_view() == msg,
                _ => false,
            },
            None => r matches Err(x) && x.message_view() == "No Object found in file"@,
        },
{
    match object {
        Some(e) => parse_object(e),
        None => Err(ObjectParserError::new("No Object found in file")),
    }
}

proof fn lemma_resource_steps_keep_id(children: Seq<XmlElement>, n: nat, id: u16)
    requires
        resource_steps(children, n, id) is Ok,
    ensures
        (resource_steps(children, n, id))->Ok_0.id == id,
    decreases n,
{
    if n > 0 {
        lemma_resource_steps_keep_id(children, (n - 1) as nat, id);
    }
}

proof fn lemma_resource_of_id(item: XmlElement, id: u16)
    requires
        resource_of(item, id) is Ok,
    ensures
        (resource_of(item, id))->Ok_0.id == id,
{
    lemma_resource_steps_keep_id(item.children@, item.children@.len(), id);
}

proof fn lemma_item_steps_keyed(items: Seq<XmlElement>, n: nat)
    requires
        item_steps(items, n) is Ok,
    ensures
        resources_keyed_by_id((item_steps(items, n))->Ok_0),
    decreases n,
{
    if n > 0 {
        lemma_item_steps_keyed(items, (n - 1) as nat);
        if n <= items.len() {
            let it = items[n - 1];
            if it.name@ == "Item"@ {
                let t = attribute_of(it.attributes@, "ID"@).unwrap();
                lemma_resource_of_id(it, unsigned_value(t@) as u16);
            }
        }
    }
}

/// Every resource `Item` that a descriptor's `Resources` element lists is
/// kept, under its `ID`, with that id: when the items read without error,
/// the resources hold the item's `ID`, and the resource stored under it
/// has that id.
pub proof fn lemma_listed_resource_kept(items: Seq<XmlElement>, j: int)
    requires
        item_steps(items, items.len()) is Ok,
        0 <= j < items.len(),
        items[j].name@ == "Item"@,
    ensures
        ({
            let m = (item_steps(items, items.len()))->Ok_0;
            let t = attribute_of(items[j].attributes@, "ID"@);
            &&& t is Some
            &&& is_unsigned(t.unwrap()@, 0xffff)
            &&& m.contains_key(unsigned_value(t.unwrap()@) as u16)
            &&& m[unsigned_value(t.unwrap()@) as u16].id == unsigned_value(t.unwrap()@) as u16
        }),
{
    lemma_item_listed_stays(items, j, items.len());
    lemma_item_steps_keyed(items, items.len());
}

/// The resources of an object come from its last `Resources` element.
pub proof fn lemma_object_resources(children: Seq<XmlElement>, r: int, n: nat)
    requires
        object_steps(children, n) is Ok,
        0 <= r < n <= children.len(),
        children[r].name@ == "Resources"@,
        forall|k: int| r < k < n ==> (#[trigger] children[k]).name@ != "Resources"@,
    ensures
        item_steps(children[r].children@, children[r].children@.len()) is Ok,
        (object_steps(children, n))->Ok_0.resources == (item_steps(
            children[r].children@,
            children[r].children@.len(),
        ))->Ok_0,
    decreases n,
{
    if n > r + 1 {
        if object_steps(children, (n - 1) as nat) is Err {
            lemma_object_steps_stay_failed(children, (n - 1) as nat, n);
        }
        lemma_object_resources(children, r, (n - 1) as nat);
        assert(children[n - 1].name@ != "Resources"@);
    } else {
        if object_steps(children, (n - 1) as nat) is Err {
            lemma_object_steps_stay_failed(children, (n - 1) as nat, n);
        }
        lemma_resources_is_no_other_name();
    }
}

proof fn lemma_resources_is_no_other_name()
    ensures
        "Resources"@ != "Name"@,
        "Resources"@ != "Description1"@,
        "Resources"@ != "Description2"@,
        "Resources"@ != "ObjectID"@,
        "Resources"@ != "ObjectURN"@,
        "Resources"@ != "LWM2MVersion"@,
        "Resources"@ != "ObjectVersion"@,
        "Resources"@ != "MultipleInstances"@,
        "Resources"@ != "Mandatory"@,
{
    reveal_strlit("Resources");
    reveal_strlit("Name");
    reveal_strlit("Description1");
    reveal_strlit("Description2");
    reveal_strlit("ObjectID");
    reveal_strlit("ObjectURN");
    reveal_strlit("LWM2MVersion");
    reveal_strlit("ObjectVersion");
    reveal_strlit("MultipleInstances");
    reveal_strlit("Mandatory");
    assert("Resources"@[0] != "ObjectURN"@[0]);
    assert("Resources"@[0] != "Mandatory"@[0]);
}

proof fn lemma_item_listed_stays(items: Seq<XmlElement>, j: int, n: nat)
    requires
        item_steps(items, n) is Ok,
        0 <= j < n <= items.len(),
        items[j].name@ == "Item"@,
    ensures
        ({
            let t = attribute_of(items[j].attributes@, "ID"@);
            &&& t is Some
            &&& is_unsigned(t.unwrap()@, 0xffff)
            &&& (item_steps(items, n))->Ok_0.contains_key(unsigned_value(t.unwrap()@) as u16)
        }),
    decreases n,
{
    if n > j + 1 {
        lemma_item_listed_stays(items, j, (n - 1) as nat);
    } else {
        assert(item_steps(items, (n - 1) as nat) is Ok);
    }
}

proof fn lemma_resource_steps_stay_failed(children: Seq<XmlElement>, i: nat, n: nat, id: u16)
    requires
        i <= n,
        resource_steps(children, i, id) is Err,
    ensures
        resource_steps(children, n, id) == resource_steps(children, i, id),
    decreases n - i,
{
    if i < n {
        lemma_resource_steps_stay_failed(children, i, (n - 1) as nat, id);
    }
}

} // verus!
