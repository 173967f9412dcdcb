//! An in-process contact directory.
//!
//! [`contact::Contact`] is a value holding a name, optional attributes and
//! social profiles; [`book::ContactBook`] owns contacts under generated
//! identifiers and keeps the favorites among the contacts it holds.
//! [`fresh`] says which identifier a new contact gets.

pub mod book;
pub mod contact;
pub mod fresh;

pub use crate::book::{ContactBook, ContactBookEntryId, ContactBookError};
pub use crate::contact::Contact;
