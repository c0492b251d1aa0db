//! Persistence of access-control rules in a YAML file: the rule store, its
//! text form, filtered loading and the read-modify-write mutations.

pub mod models;
pub mod mutation;
pub mod codec;
pub mod filter;
pub mod adapter;
pub mod laws;

pub use adapter::{Update, YamlAdapter};
pub use codec::{decode, encode, AdapterError};
pub use filter::{section_of, Filter, Loaded, PolicyLine, Section};
pub use models::{Family, Policies};
