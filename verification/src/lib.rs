//! A key-value store whose whole hash table lives in one growable file.
//!
//! The file is a 16-byte header and fixed-size records. A key hashes to a
//! home slot; keys that share a home slot are chained through records that
//! are appended to the file and never moved. A removed record is emptied
//! in place and keeps its link, so the chain stays whole.
//!
//! The crate is the engine without the operating system, and every item of
//! it is verified with Verus.
//!
//! * [`file`] encodes and decodes the header and the records.
//! * [`protocol`] is one operation as a state machine: it names each action
//!   on the file and is told what came of it. Walks take no lock; a change
//!   is committed under the exclusive lock if the slot still holds what the
//!   walk saw, and the walk starts again if not. A host that keeps the file
//!   on disk performs the actions there.
//! * [`image`] is the file as bytes in memory, and what each action does
//!   to them.
//! * [`chain`] says where a walk of a chain stops and what an operation
//!   makes of the file, and proves that the table behaves as a map.
//! * [`hashmap`] holds [`FileHashMap`], the table over an image of its
//!   file, which runs the operations of [`protocol`] to their end.
//! * [`store`] turns outcomes into printable messages.
//!
//! ```
//! use kvlite::FileHashMap;
//!
//! let mut kv = FileHashMap::new("myfile.kvlite");
//! kv.insert("foo", "bar").unwrap();
//! assert_eq!(kv.get("foo").unwrap(), "bar");
//! ```

use vstd::prelude::*;

pub mod chain;
pub mod file;
pub mod hashmap;
pub mod image;
pub mod protocol;
pub mod store;

pub use hashmap::FileHashMap;

verus! {

/// What can go wrong in an operation of the table.
#[derive(Debug, Clone, Copy, PartialEq, Eq, Structural)]
pub enum Error {
    /// A seek, read, write or lock on the backing file failed.
    IO,
    /// The key is absent after a complete walk of its chain.
    NotFound,
}

impl Error {
    /// A short lower-case description of the error.
    pub fn description(&self) -> (s: &'static str)
        ensures
            *self == Error::IO ==> s@ == "i/o error"@,
            *self == Error::NotFound ==> s@ == "key not found"@,
    {
        match self {
            Error::IO => "i/o error",
            Error::NotFound => "key not found",
        }
    }

    /// The text that the error prints as.
    pub fn to_string(&self) -> (s: String)
        ensures
            *self == Error::IO ==> s@ == "io error"@,
            *self == Error::NotFound ==> s@ == "not found error"@,
    {
        match self {
            Error::IO => "io error".to_owned(),
            Error::NotFound => "not found error".to_owned(),
        }
    }
}

} // verus!
