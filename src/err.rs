//! Errors of the object model: malformed input and failed lookups.
use vstd::prelude::*;
use crate::core_link::CoreLink;
use crate::version::Version;

verus! {

/// A failure of the object model catalogue.
#[derive(Debug, Clone)]
pub enum ObjectModelError {
    Parser(String),
    NotFound(String),
}

impl ObjectModelError {
    /// The message this error carries.
    pub fn to_string(&self) -> (r: String)
        ensures
            r@ == match self {
                ObjectModelError::Parser(m) => m@,
                ObjectModelError::NotFound(m) => m@,
            },
    {
        match self {
            ObjectModelError::Parser(m) => m.clone(),
            ObjectModelError::NotFound(m) => m.clone(),
        }
    }
}

/// Malformed input: a path, a link, a version or a model description.
#[derive(Debug, Clone)]
pub struct ObjectParserError {
    message: String,
}

impl ObjectParserError {
    pub closed spec fn message_view(&self) -> Seq<char> {
        self.message@
    }

    pub fn new(message: &str) -> (r: Self)
        ensures
            r.message_view() == message@,
    {
        ObjectParserError { message: message.to_owned() }
    }

    pub fn from_string(message: String) -> (r: Self)
        ensures
            r.message_view() == message@,
    {
        ObjectParserError { message }
    }

    /// The message this error carries.
    pub fn to_string(&self) -> (r: String)
        ensures
            r@ == self.message_view(),
    {
        self.message.clone()
    }
}

/// A lookup in the model store that found nothing.
#[derive(Debug, Clone)]
pub enum ModelNotFoundError {
    ObjectId(CoreLink),
    ResourceId(CoreLink),
    Version { version: Version, link: CoreLink },
}

pub open spec fn not_found_message(e: ModelNotFoundError) -> Seq<char> {
    match e {
        ModelNotFoundError::ObjectId(link) => "Object model for link "@ + link.link@
            + " was not found in model registry"@,
        ModelNotFoundError::ResourceId(link) => "Resource model for link "@ + link.link@
            + " was not found in model registry"@,
        ModelNotFoundError::Version { version, link } => "Object version "@ + version.text()
            + " for link "@ + link.link@ + " was not found in model registry"@,
    }
}

impl ModelNotFoundError {
    /// A sentence that names the link (and version) that was not found.
    pub fn to_string(&self) -> (r: String)
        ensures
            r@ == not_found_message(*self),
    {
        let mut r = String::new();
        match self {
            ModelNotFoundError::ObjectId(link) => {
                r.append("Object model for link ");
                r.append(link.link.as_str());
                r.append(" was not found in model registry");
            },
            ModelNotFoundError::ResourceId(link) => {
                r.append("Resource model for link ");
                r.append(link.link.as_str());
                r.append(" was not found in model registry");
            },
            ModelNotFoundError::Version { version, link } => {
                r.append("Object version ");
                let v = version.to_string();
                r.append(v.as_str());
                r.append(" for link ");
                r.append(link.link.as_str());
                r.append(" was not found in model registry");
            },
        }
        assert(r@ =~= not_found_message(*self));
        r
    }
}

} // verus!
