//! Messages for the outcomes of the table's operations.

use crate::chain::{inserted, lookup, removed, started};
use crate::hashmap::FileHashMap;
use crate::image::well_formed;
use crate::protocol::DEFAULT_KEY_COUNT;
use vstd::prelude::*;
use vstd::string::*;

verus! {

/// `std::io::Error`, which the results of a [`Store`] name as their error.
/// No operation of a store makes one.
#[verifier::external_type_specification]
#[verifier::external_body]
pub struct ExIoError(std::io::Error);

/// What a [`Store`] hands back: a message to print.
#[derive(Debug)]
pub struct KVResult {
    msg: String,
}

impl View for KVResult {
    type V = Seq<char>;

    /// The message.
    closed spec fn view(&self) -> Seq<char> {
        self.msg@
    }
}

impl KVResult {
    fn new(msg: String) -> (res: KVResult)
        ensures
            res@ == msg@,
    {
        KVResult { msg }
    }

    /// The message, to print.
    pub fn display(self) -> (msg: String)
        ensures
            msg@ == self@,
    {
        self.msg
    }
}

fn labelled(label: &str, text: &str) -> (res: KVResult)
    ensures
        res@ == label@ + text@,
{
    KVResult::new(String::from_str(label).concat(text))
}

/// A key-value store over one table, which answers in messages.
pub struct Store {
    kv: FileHashMap,
}

impl View for Store {
    type V = Option<Seq<u8>>;

    /// The bytes of the file of the table, or `None` before the file exists.
    closed spec fn view(&self) -> Option<Seq<u8>> {
        self.kv@
    }
}

impl Store {
    /// A store over the file `filename`, which does not exist yet.
    pub fn new(filename: &'static str) -> (store: Store)
        ensures
            store@ is None,
    {
        Store { kv: FileHashMap::new(filename) }
    }

    /// Creates a key with a value, or gives an existing key the value. The
    /// message is `SET` and the key, or `ERR` and what went wrong.
    pub fn set(&mut self, key: &String, value: &String) -> (res: Result<KVResult, std::io::Error>)
        ensures
            final(self)@ matches Some(img) && well_formed(img),
            final(self)@ == Some(
                match inserted(started(old(self)@, DEFAULT_KEY_COUNT), key@, value@) {
                    Some(after) => after,
                    None => started(old(self)@, DEFAULT_KEY_COUNT),
                },
            ),
            res matches Ok(r) && r@ == (match inserted(
                started(old(self)@, DEFAULT_KEY_COUNT),
                key@,
                value@,
            ) {
                Some(_) => "SET "@ + key@,
                None => "ERR "@ + "i/o error"@,
            }),
    {
        let res = match self.kv.insert(key.as_str(), value.as_str()) {
            Ok(_) => labelled("SET ", key.as_str()),
            Err(why) => labelled("ERR ", why.description()),
        };
        Result::Ok(res)
    }

    /// Gets the value of a key. The message is the value, or `ERR` and
    /// what went wrong.
    pub fn get(&mut self, key: &String) -> (res: Result<KVResult, std::io::Error>)
        ensures
            final(self)@ == Some(started(old(self)@, DEFAULT_KEY_COUNT)),
            final(self)@ matches Some(img) && well_formed(img),
            res matches Ok(r) && r@ == (match lookup(
                started(old(self)@, DEFAULT_KEY_COUNT),
                key@,
            ) {
                Some(value) => value,
                None => "ERR "@ + "key not found"@,
            }),
    {
        let res = match self.kv.get(key.as_str()) {
            Ok(val) => KVResult::new(val),
            Err(why) => labelled("ERR ", why.description()),
        };
        Result::Ok(res)
    }

    /// Removes a key and its value. The message is `DELETE` and the key,
    /// or `ERR` and what went wrong.
    pub fn del(&mut self, key: &String) -> (res: Result<KVResult, std::io::Error>)
        ensures
            final(self)@ matches Some(img) && well_formed(img),
            final(self)@ == Some(
                match removed(started(old(self)@, DEFAULT_KEY_COUNT), key@) {
                    Some(after) => after,
                    None => started(old(self)@, DEFAULT_KEY_COUNT),
                },
            ),
            res matches Ok(r) && r@ == (match removed(
                started(old(self)@, DEFAULT_KEY_COUNT),
                key@,
            ) {
                Some(_) => "DELETE "@ + key@,
                None => "ERR "@ + "key not found"@,
            }),
    {
        let res = match self.kv.remove(key.as_str()) {
            Ok(_) => labelled("DELETE ", key.as_str()),
            Err(why) => labelled("ERR ", why.description()),
        };
        Result::Ok(res)
    }

    /// The answer to a command that the store does not know: `UNKNOWN` and
    /// the command.
    pub fn noop(self, cmd: &String) -> (res: Result<KVResult, std::io::Error>)
        ensures
            res matches Ok(r) && r@ == "UNKNOWN "@ + cmd@,
    {
        Result::Ok(labelled("UNKNOWN ", cmd.as_str()))
    }
}

} // verus!
