//! A role-based access-control core.
//!
//! One administrative principal (a "root authority") defines named roles and
//! permissions, links permissions to roles, and grants roles to user
//! principals with an optional expiry.  Any caller can then prove that a user
//! currently holds a permission by presenting the two edge records of the
//! chain user -> role assignment -> role-permission grant -> permission.
//!
//! All records live in [`store::RbacStore`], a uniqueness-enforcing keyed
//! store: a record's key is the tuple of its parent identifiers and name, and
//! creation fails when the key is already occupied.
//!
//! Two collaborators stay outside the core and are passed in as plain
//! values: the surrounding runtime authenticates principals and hands each
//! operation its already-verified `caller`, and a clock supplies the `now`
//! the chain verifier compares expiries against.  Every operation is a
//! single synchronous computation that either applies its whole effect or,
//! on any failed check, returns an error with the store untouched.

pub mod assignments;
pub mod authority;
pub mod catalog;
pub mod chain;
pub mod errors;
pub mod grants;
pub mod props;
pub mod state;
pub mod store;
