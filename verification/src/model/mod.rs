//! The STIX object model: property values, objects, bundles and an id index.

pub mod value;
pub mod version;
pub mod error;
pub mod view;
pub mod sdo;
pub mod object;
pub mod store;
pub mod bundle;

pub use bundle::Bundle;
pub use error::ModelError;
pub use object::{StixObject, TypedObject};
pub use sdo::ObservedData;
pub use store::ObjectStore;
pub use value::StixValue;
pub use version::SpecVersion;
pub use view::{GenericObject, ObjectView};
