//! A LightweightM2M management server library: the object model catalogue,
//! the registration request decoder, the device registry and the decisions
//! of the registration timer tracker.
pub mod attributes;
pub mod core_link;
pub mod device_model;
pub mod err;
pub mod model;
pub mod object_link;
pub mod registration_model;
pub mod registry;
pub mod requests;
pub mod store;
pub mod text;
pub mod tracker;
pub mod version;
pub mod xml;

pub use attributes::{Lwm2mAttribute, Lwm2mBindMode, Lwm2mVersion, RequestError, ResponseCode};
pub use core_link::{CoreLink, ModelType};
pub use err::{ModelNotFoundError, ObjectModelError, ObjectParserError};
pub use model::{ObjectModel, ResourceModel, ResourceOperation, ResourceRange, ResourceType};
pub use object_link::ObjectLink;
pub use registry::{Device, DeviceRegistry, RegisterOutcome, Registration, RegistrationTimer};
pub use requests::{Lwm2mObject, Lwm2mRegistrationRequest};
pub use store::{Model, ObjectModelStore, ObjectModelVersions};
pub use tracker::{InsertAction, TrackerState};
pub use version::Version;
pub use xml::XmlElement;
