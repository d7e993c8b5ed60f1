//! Tag-driven synchronisation of secrets from a secret store into the
//! namespaces of a cluster.
//!
//! A secret in the store says through its tags what it becomes in the
//! cluster: [`tags`] reads the destination name, the namespaces and the
//! optional file name out of a descriptor. [`payload`] reads the fields of a
//! secret from the JSON text that the store keeps, and [`transform`] writes
//! them as the base64 data of a cluster secret, field by field or as one
//! file. [`record`] puts the three together for one secret, and [`sync`]
//! orders the work of a whole run: it names the next action, and the caller
//! performs it and hands back what happened.
//!
//! The library does no input or output. Every executable function states
//! what it returns over the specification functions of its module, and the
//! proof functions state what holds of those.
pub mod error;
pub mod fields;
pub mod payload;
pub mod record;
pub mod sync;
pub mod tags;
pub mod text;
pub mod transform;
