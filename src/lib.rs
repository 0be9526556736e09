//! A contact directory: contact records with field validation, and an
//! in-memory store of them keyed by id, with search and lookups.

pub mod contact;
pub mod contact_db;
pub mod field_errors;
pub mod form_body;
pub mod requests;
pub mod text;
