//! Configuration model and synthesis plans for derived duplication and
//! ordering operations on composite types.
//!
//! Attribute metadata arrives as [`meta::Meta`] trees. The builders in
//! [`field_attribute`] and [`type_attribute`] validate the metadata and yield
//! immutable configuration values or a [`violation::Violation`]. The modules
//! [`ranking`] and [`clone_struct`] turn validated configuration into the
//! plans that describe the generated operations.

pub mod violation;
pub mod meta;
pub mod capability;
pub mod text;
pub mod syntax;
pub mod field_attribute;
pub mod type_attribute;
pub mod ranking;
pub mod ordering;
pub mod clone_struct;
