//! An embeddable key-value and list store that lives in memory and is persisted to a file.
//!
//! The store keeps two maps: from a key to a value, and from a name to a list of items. A
//! value and an item are stored as the bytes that a caller's value was encoded to; the store
//! never looks into them. A dump policy says when the store is to be written to its file, in
//! one of four serialization methods.
//!
//! The store does no file operation and reads no clock itself. An operation that changes it
//! hands back the file to write, if the policy asks for one, together with the way to take
//! the change back; the caller writes the file and reports how that went.

pub mod assoc;
pub mod error;
pub mod iterators;
pub mod laws;
pub mod model;
pub mod order;
pub mod pickledb;
pub mod serialization;
pub mod text;

pub use self::iterators::{
    PickleDbIterator, PickleDbIteratorItem, PickleDbListIterator, PickleDbListIteratorItem,
};
pub use self::pickledb::{Change, DumpFile, PendingDump, PickleDb, PickleDbDumpPolicy, Undo};
pub use self::serialization::SerializationMethod;
